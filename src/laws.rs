//! Properties of the built tables and of the stack machine.
use crate::grammar::{augmented_item, state_contains, LR0Item, Symbol};
use crate::parser::{run_spec, step_spec, ParseStatus, SyntaxError, TraceView};
use crate::table::{
    content, is_first_holding, is_reduce_state, last_transition, reduce_contents, rule_item,
    rule_of, rule_states,
    tables_built, transition_ok, Action, ParseTables, Transition,
};
use vstd::prelude::*;

verus! {

/// Whether transition `j` leaves `q` on `sym`.
pub open spec fn leaves_on(tr: Transition, q: usize, sym: Symbol) -> bool {
    tr.from == q && tr.symbol == sym
}

/// `last_transition` finds the last transition from `q` on `sym`, and only
/// finds nothing when there is none.
pub proof fn lemma_last_transition(ts: Seq<Transition>, q: usize, sym: Symbol)
    ensures
        match last_transition(ts, q, sym) {
            Some(k) => 0 <= k < ts.len() && leaves_on(ts[k], q, sym) && forall|j: int|
                k < j < ts.len() ==> !leaves_on(#[trigger] ts[j], q, sym),
            None => forall|j: int| 0 <= j < ts.len() ==> !leaves_on(#[trigger] ts[j], q, sym),
        },
    decreases ts.len(),
{
    if ts.len() > 0 {
        lemma_last_transition(ts.drop_last(), q, sym);
        assert forall|j: int| 0 <= j < ts.len() - 1 implies ts.drop_last()[j] == ts[j] by {}
    }
}

/// Building twice from the same automaton and inputs gives the same action
/// table, goto table, rule table and start state.
pub proof fn lemma_build_deterministic(
    states: Seq<Vec<LR0Item>>,
    ts: Seq<Transition>,
    extended: u32,
    start: u32,
    eof: u32,
    terms: Seq<u32>,
    a: ParseTables,
    b: ParseTables,
)
    requires
        tables_built(a, states, ts, extended, start, eof, terms),
        tables_built(b, states, ts, extended, start, eof, terms),
    ensures
        a.action_table@ == b.action_table@,
        a.goto_table@ == b.goto_table@,
        a.rules() == b.rules(),
        a.start_state == b.start_state,
        a.state_count == b.state_count,
{
    assert forall|k: (usize, u32)| #[trigger] a.action_table@.contains_key(k) implies b.action_table@.contains_key(k) && a.action_table@[k] == b.action_table@[k] by {
        assert(a.action_at(k.0, k.1) == b.action_at(k.0, k.1));
    }
    assert forall|k: (usize, u32)| #[trigger] b.action_table@.contains_key(k) implies a.action_table@.contains_key(k) by {
        assert(a.action_at(k.0, k.1) == b.action_at(k.0, k.1));
    }
    assert(a.action_table@ =~= b.action_table@);
    assert forall|k: (usize, u32)| #[trigger] a.goto_table@.contains_key(k) implies b.goto_table@.contains_key(k) && a.goto_table@[k] == b.goto_table@[k] by {
        assert(a.goto_at(k.0, k.1) == b.goto_at(k.0, k.1));
    }
    assert forall|k: (usize, u32)| #[trigger] b.goto_table@.contains_key(k) implies a.goto_table@.contains_key(k) by {
        assert(a.goto_at(k.0, k.1) == b.goto_at(k.0, k.1));
    }
    assert(a.goto_table@ =~= b.goto_table@);
    let it = augmented_item(extended, start, eof, 0);
    let (i, j) = (a.start_state as int, b.start_state as int);
    if i < j {
        assert(!state_contains(states[i]@, it));
    } else if j < i {
        assert(!state_contains(states[j]@, it));
    }
}

/// State numbers are positions in the automaton's state sequence: the start
/// state is the first state holding the augmented start item, and each goto
/// entry is the index of the transition's target.
pub proof fn lemma_numbering(
    states: Seq<Vec<LR0Item>>,
    ts: Seq<Transition>,
    extended: u32,
    start: u32,
    eof: u32,
    terms: Seq<u32>,
    tables: ParseTables,
    k: int,
    nt: u32,
)
    requires
        tables_built(tables, states, ts, extended, start, eof, terms),
        0 <= k < ts.len(),
        ts[k].symbol == Symbol::NonTerm(nt),
        forall|j: int| k < j < ts.len() ==> !leaves_on(#[trigger] ts[j], ts[k].from, ts[k].symbol),
    ensures
        is_first_holding(states, augmented_item(extended, start, eof, 0), tables.start_state as int),
        tables.goto_at(ts[k].from, nt) == Some(ts[k].to),
{
    let q = ts[k].from;
    lemma_last_transition(ts, q, Symbol::NonTerm(nt));
    assert(tables.goto_at(q, nt) == crate::table::goto_spec(ts, q, nt));
}

/// At a state with a transition on terminal `t` (the last one listed for that
/// key), the entry is `Accept` exactly when the target holds the accept item,
/// `Shift` to the target's index exactly when the target is another non-empty
/// state, and `Error` exactly when the target is empty.
pub proof fn lemma_transition_entry(
    states: Seq<Vec<LR0Item>>,
    ts: Seq<Transition>,
    extended: u32,
    start: u32,
    eof: u32,
    terms: Seq<u32>,
    tables: ParseTables,
    k: int,
    t: u32,
)
    requires
        tables_built(tables, states, ts, extended, start, eof, terms),
        0 <= k < ts.len(),
        transition_ok(ts[k], states.len()),
        ts[k].symbol == Symbol::Term(t),
        forall|j: int| k < j < ts.len() ==> !leaves_on(#[trigger] ts[j], ts[k].from, ts[k].symbol),
    ensures
        ({
            let e = tables.action_at(ts[k].from, t);
            let target = states[ts[k].to as int]@;
            let acc = augmented_item(extended, start, eof, 2);
            &&& (e == Some(Action::Accept) <==> state_contains(target, acc))
            &&& (e == Some(Action::Shift(ts[k].to)) <==> !state_contains(target, acc) && target.len() > 0)
            &&& (e == Some(Action::Error) <==> !state_contains(target, acc) && target.len() == 0)
        }),
{
    let q = ts[k].from;
    lemma_last_transition(ts, q, Symbol::Term(t));
    assert(tables.action_at(q, t) == crate::table::action_spec(
        states,
        ts,
        augmented_item(extended, start, eof, 2),
        terms,
        q,
        t,
    ));
}

/// At a reduce state, every terminal of the alphabet without a transition from
/// that state has the state's `Reduce` entry, and the rule table holds the
/// state's complete item under that rule number. Without a transition and
/// outside the reduce states or the alphabet, the entry is absent.
pub proof fn lemma_reduce_totality(
    states: Seq<Vec<LR0Item>>,
    ts: Seq<Transition>,
    extended: u32,
    start: u32,
    eof: u32,
    terms: Seq<u32>,
    tables: ParseTables,
    q: usize,
    t: u32,
)
    requires
        tables_built(tables, states, ts, extended, start, eof, terms),
        forall|j: int| 0 <= j < ts.len() ==> !leaves_on(#[trigger] ts[j], q, Symbol::Term(t)),
    ensures
        ({
            let acc = augmented_item(extended, start, eof, 2);
            if q < states.len() && is_reduce_state(content(states, q as int), acc) && terms.contains(t) {
                let r = rule_of(states, acc, q as int);
                &&& tables.action_at(q, t) == Some(Action::Reduce(r as usize))
                &&& 0 <= r < tables.rules().len()
                &&& tables.rules()[r] == rule_item(content(states, q as int), acc)
            } else {
                tables.action_at(q, t) == None::<Action>
            }
        }),
{
    let acc = augmented_item(extended, start, eof, 2);
    lemma_last_transition(ts, q, Symbol::Term(t));
    assert(tables.action_at(q, t) == crate::table::action_spec(states, ts, acc, terms, q, t));
    if q < states.len() && is_reduce_state(content(states, q as int), acc) {
        let rs = rule_states(states, acc);
        assert(reduce_contents(states, acc, states.len() as int).contains(content(states, q as int)));
        assert(rs.to_set().contains(content(states, q as int)));
        assert(rs.contains(content(states, q as int)));
        let r = rule_of(states, acc, q as int);
        assert(tables.rules()[r] == rule_item(rs[r], acc));
    }
}

/// A step with no table entry, or an `Error` entry, for the current state and
/// lookahead fails with that diagnosis and leaves stack and cursor alone; a run
/// that has stopped stays where it stopped.
pub proof fn lemma_rejection(
    tables: ParseTables,
    input: Seq<u32>,
    stack: Seq<usize>,
    cursor: nat,
    trace: Seq<TraceView>,
    fuel: nat,
)
    requires
        cursor < input.len(),
        stack.len() > 0,
        tables.action_at(stack.last(), input[cursor as int]) is None || tables.action_at(
            stack.last(),
            input[cursor as int],
        ) == Some(Action::Error),
    ensures
        ({
            let s = step_spec(tables, input, stack, cursor);
            let (q, x) = (stack.last(), input[cursor as int]);
            &&& s.0 == stack
            &&& s.1 == cursor
            &&& s.2 == if tables.action_at(q, x) is None {
                ParseStatus::Failed(SyntaxError::NoAction { state: q, symbol: x })
            } else {
                ParseStatus::Failed(SyntaxError::ErrorAction { state: q, symbol: x })
            }
            &&& run_spec(tables, input, s.0, s.1, s.2, trace, fuel) == (s.0, s.1, s.2, trace)
        }),
{
}

/// Stepping with the input used up fails with `ExhaustedInput`; and a run
/// over an input none of whose tokens has an `Accept` entry in any state is
/// never accepted, whatever the number of steps.
pub proof fn lemma_exhaustion(
    tables: ParseTables,
    input: Seq<u32>,
    stack: Seq<usize>,
    cursor: nat,
    status: ParseStatus,
    trace: Seq<TraceView>,
    fuel: nat,
)
    requires
        status != ParseStatus::Accepted,
        forall|i: int, q: usize| 0 <= i < input.len() ==> #[trigger] tables.action_at(q, input[i])
            != Some(Action::Accept),
    ensures
        cursor >= input.len() ==> step_spec(tables, input, stack, cursor).2 == ParseStatus::Failed(
            SyntaxError::ExhaustedInput,
        ),
        run_spec(tables, input, stack, cursor, status, trace, fuel).2 != ParseStatus::Accepted,
    decreases fuel,
{
    if fuel > 0 && status == ParseStatus::Running {
        let s = step_spec(tables, input, stack, cursor);
        if cursor < input.len() {
            assert(tables.action_at(stack.last(), input[cursor as int]) != Some(Action::Accept));
        }
        lemma_exhaustion(tables, input, s.0, s.1, s.2, trace.push(
            crate::parser::record_spec(input, stack, cursor, s.3),
        ), (fuel - 1) as nat);
    }
}

} // verus!
