//! Construction of the LR(0) action, goto and rule tables from a canonical
//! item-set automaton.
use crate::order::{
    compare_items, compare_states, item_less, lemma_item_order, lemma_state_order, state_less,
    state_view,
};
use crate::grammar::{
    augmented_item, is_complete, state_contains, ItemView, LR0Item, Symbol, contains_item,
};
use std::collections::BTreeMap;
use vstd::prelude::*;

verus! {

/// An entry of the action table.
#[derive(Clone, Copy, Debug, PartialEq, Eq, Structural)]
pub enum Action {
    Accept,
    Reduce(usize),
    Shift(usize),
    Error,
}

/// One edge `from --symbol--> to` of the automaton, states given by their index.
#[derive(Clone, Copy, Debug, PartialEq, Eq, Structural)]
pub struct Transition {
    pub from: usize,
    pub symbol: Symbol,
    pub to: usize,
}

/// The kind of an ambiguity found while building the tables.
#[derive(Clone, Copy, Debug, PartialEq, Eq, Structural)]
pub enum ConflictKind {
    /// More than one complete item in one state.
    ReduceReduce,
    /// One complete item beside other items in one state.
    ShiftReduce,
}

/// A conflict at a state; the tables are built regardless.
#[derive(Clone, Copy, Debug, PartialEq, Eq, Structural)]
pub struct Conflict {
    pub state: usize,
    pub kind: ConflictKind,
}

/// Why an automaton cannot be turned into tables.
#[derive(Clone, Copy, Debug, PartialEq, Eq, Structural)]
pub enum BuildError {
    /// The transition at this index names a state that does not exist.
    UnknownState(usize),
    /// No state holds the augmented start item.
    NoStartState,
    /// No state holds the completed augmented start item.
    NoAcceptState,
}

/// The tables that drive the parsing engine.
pub struct ParseTables {
    pub action_table: BTreeMap<(usize, u32), Action>,
    pub goto_table: BTreeMap<(usize, u32), usize>,
    pub rule_table: Vec<LR0Item>,
    pub start_state: usize,
    /// The number of states of the automaton.
    pub state_count: usize,
}

pub open spec fn map_get<K, V>(m: Map<K, V>, k: K) -> Option<V> {
    if m.contains_key(k) {
        Some(m[k])
    } else {
        None
    }
}

impl ParseTables {
    /// The action at `(q, t)`, if any.
    pub open spec fn action_at(&self, q: usize, t: u32) -> Option<Action> {
        map_get(self.action_table@, (q, t))
    }

    /// The goto target at `(q, nt)`, if any.
    pub open spec fn goto_at(&self, q: usize, nt: u32) -> Option<usize> {
        map_get(self.goto_table@, (q, nt))
    }

    /// The rule table as item values.
    pub open spec fn rules(&self) -> Seq<ItemView> {
        self.rule_table@.map_values(|r: LR0Item| r@)
    }
}

/// A complete item that is not the accept item: a reduction candidate.
pub open spec fn reducible(it: ItemView, acc: ItemView) -> bool {
    is_complete(it) && it != acc
}

/// The number of reduction candidates in a state.
pub open spec fn reducible_count(s: Seq<ItemView>, acc: ItemView) -> nat
    decreases s.len(),
{
    if s.len() == 0 {
        0
    } else {
        reducible_count(s.drop_last(), acc) + if reducible(s.last(), acc) {
            1nat
        } else {
            0nat
        }
    }
}

/// A state in which the engine reduces.
pub open spec fn is_reduce_state(s: Seq<ItemView>, acc: ItemView) -> bool {
    reducible_count(s, acc) > 0
}

/// Whether `x` is the least reduction candidate of the state `s`.
pub open spec fn is_rule_item(s: Seq<ItemView>, acc: ItemView, x: ItemView) -> bool {
    &&& s.contains(x)
    &&& reducible(x, acc)
    &&& forall|i: int| 0 <= i < s.len() && reducible(#[trigger] s[i], acc) ==> !item_less(s[i], x)
}

/// The item that a reduce state reduces by: its least reduction candidate.
pub open spec fn rule_item(s: Seq<ItemView>, acc: ItemView) -> ItemView {
    choose|x: ItemView| is_rule_item(s, acc, x)
}

/// The least reduction candidate is the only one.
pub proof fn lemma_rule_item(s: Seq<ItemView>, acc: ItemView, x: ItemView)
    requires
        is_rule_item(s, acc, x),
    ensures
        rule_item(s, acc) == x,
{
    let y = rule_item(s, acc);
    let i = choose|i: int| 0 <= i < s.len() && s[i] == x;
    let j = choose|j: int| 0 <= j < s.len() && s[j] == y;
    lemma_item_order(x, y, y);
    lemma_item_order(y, x, x);
}

/// The conflict a state shows, if any.
pub open spec fn conflict_of(s: Seq<ItemView>, acc: ItemView) -> Option<ConflictKind> {
    if reducible_count(s, acc) > 1 {
        Some(ConflictKind::ReduceReduce)
    } else if reducible_count(s, acc) == 1 && s.len() > 1 {
        Some(ConflictKind::ShiftReduce)
    } else {
        None
    }
}

/// The content of state `j`.
pub open spec fn content(states: Seq<Vec<LR0Item>>, j: int) -> Seq<ItemView> {
    state_view(states[j]@)
}

/// The contents of the reduce states among the first `n` states.
pub open spec fn reduce_contents(states: Seq<Vec<LR0Item>>, acc: ItemView, n: int) -> Set<Seq<ItemView>> {
    Set::new(
        |v: Seq<ItemView>|
            exists|j: int|
                0 <= j < n && is_reduce_state(#[trigger] content(states, j), acc) && content(
                    states,
                    j,
                ) == v,
    )
}

/// Whether each element of `s` is below every later one.
pub open spec fn strictly_increasing(s: Seq<Seq<ItemView>>) -> bool {
    forall|i: int, j: int| 0 <= i < j < s.len() ==> state_less(#[trigger] s[i], #[trigger] s[j])
}

/// Whether `s` lists the contents of the reduce states in ascending order, each once.
pub open spec fn lists_rule_states(s: Seq<Seq<ItemView>>, states: Seq<Vec<LR0Item>>, acc: ItemView) -> bool {
    strictly_increasing(s) && s.to_set() == reduce_contents(states, acc, states.len() as int)
}

/// The contents of the reduce states in ascending order, each once: rule
/// number `r` belongs to the `r`-th of them.
pub open spec fn rule_states(states: Seq<Vec<LR0Item>>, acc: ItemView) -> Seq<Seq<ItemView>> {
    choose|s: Seq<Seq<ItemView>>| lists_rule_states(s, states, acc)
}

/// The rule number of reduce state `q`: the position of its content among the
/// reduce-state contents in ascending order.
pub open spec fn rule_of(states: Seq<Vec<LR0Item>>, acc: ItemView, q: int) -> int {
    choose|r: int|
        0 <= r < rule_states(states, acc).len() && rule_states(states, acc)[r] == content(states, q)
}

/// The rule table: the item of each reduce-state content, in rule-number order.
pub open spec fn rules_spec(states: Seq<Vec<LR0Item>>, acc: ItemView) -> Seq<ItemView> {
    rule_states(states, acc).map_values(|v: Seq<ItemView>| rule_item(v, acc))
}

/// The conflicts of the first `n` states, in state order.
pub open spec fn conflicts_upto(states: Seq<Vec<LR0Item>>, acc: ItemView, n: int) -> Seq<Conflict>
    decreases n,
{
    if n <= 0 {
        Seq::empty()
    } else {
        match conflict_of(content(states, n - 1), acc) {
            Some(kind) => conflicts_upto(states, acc, n - 1).push(
                Conflict { state: (n - 1) as usize, kind },
            ),
            None => conflicts_upto(states, acc, n - 1),
        }
    }
}

/// The index of the last transition from `q` on `sym`: the one that a map keyed
/// by `(from, symbol)` keeps.
pub open spec fn last_transition(ts: Seq<Transition>, q: usize, sym: Symbol) -> Option<int>
    decreases ts.len(),
{
    if ts.len() == 0 {
        None
    } else if ts.last().from == q && ts.last().symbol == sym {
        Some(ts.len() - 1)
    } else {
        last_transition(ts.drop_last(), q, sym)
    }
}

/// The action that a terminal transition into state `to` installs.
pub open spec fn target_action(states: Seq<Vec<LR0Item>>, acc: ItemView, to: usize) -> Action {
    if state_contains(states[to as int]@, acc) {
        Action::Accept
    } else if states[to as int]@.len() > 0 {
        Action::Shift(to)
    } else {
        Action::Error
    }
}

/// The reduce entry at `(q, t)`: every terminal of the alphabet at a reduce state.
pub open spec fn reduce_entry(
    states: Seq<Vec<LR0Item>>,
    acc: ItemView,
    terms: Seq<u32>,
    q: usize,
    t: u32,
) -> Option<Action> {
    if q < states.len() && is_reduce_state(content(states, q as int), acc) && terms.contains(t) {
        Some(Action::Reduce(rule_of(states, acc, q as int) as usize))
    } else {
        None
    }
}

/// The action table: reduce entries first, overlaid by terminal transitions.
pub open spec fn action_spec(
    states: Seq<Vec<LR0Item>>,
    ts: Seq<Transition>,
    acc: ItemView,
    terms: Seq<u32>,
    q: usize,
    t: u32,
) -> Option<Action> {
    match last_transition(ts, q, Symbol::Term(t)) {
        Some(k) => Some(target_action(states, acc, ts[k].to)),
        None => reduce_entry(states, acc, terms, q, t),
    }
}

/// The goto table: the non-terminal transitions.
pub open spec fn goto_spec(ts: Seq<Transition>, q: usize, nt: u32) -> Option<usize> {
    match last_transition(ts, q, Symbol::NonTerm(nt)) {
        Some(k) => Some(ts[k].to),
        None => None,
    }
}

/// Whether every transition names states below `n`.
pub open spec fn transition_ok(tr: Transition, n: nat) -> bool {
    tr.from < n && tr.to < n
}

/// The index of the first state that holds `it`.
pub open spec fn is_first_holding(states: Seq<Vec<LR0Item>>, it: ItemView, i: int) -> bool {
    &&& 0 <= i < states.len()
    &&& state_contains(states[i]@, it)
    &&& forall|j: int| 0 <= j < i ==> !state_contains(#[trigger] states[j]@, it)
}

/// Whether `tables` are the tables of the automaton `(states, ts)` for the
/// augmented grammar `extended -> start eof` and the alphabet `terms`.
pub open spec fn tables_built(
    tables: ParseTables,
    states: Seq<Vec<LR0Item>>,
    ts: Seq<Transition>,
    extended: u32,
    start: u32,
    eof: u32,
    terms: Seq<u32>,
) -> bool {
    let acc = augmented_item(extended, start, eof, 2);
    &&& tables.state_count == states.len()
    &&& is_first_holding(states, augmented_item(extended, start, eof, 0), tables.start_state as int)
    &&& forall|q: usize, t: u32| #[trigger]
        tables.action_at(q, t) == action_spec(states, ts, acc, terms, q, t)
    &&& forall|q: usize, nt: u32| #[trigger] tables.goto_at(q, nt) == goto_spec(ts, q, nt)
    &&& lists_rule_states(rule_states(states, acc), states, acc)
    &&& tables.rules() == rules_spec(states, acc)
}

/// What building from the automaton `(states, ts)` gives: `UnknownState(k)`
/// for the first transition `k` that names a missing state; else
/// `NoStartState` when no state holds the augmented start item; else
/// `NoAcceptState` when none holds its completed form; else the built tables
/// and the conflicts of each state, in state order.
pub open spec fn build_outcome(
    states: Seq<Vec<LR0Item>>,
    ts: Seq<Transition>,
    extended: u32,
    start: u32,
    eof: u32,
    terms: Seq<u32>,
    r: Result<(ParseTables, Seq<Conflict>), BuildError>,
) -> bool {
    let acc = augmented_item(extended, start, eof, 2);
    let start_item = augmented_item(extended, start, eof, 0);
    let n = states.len();
    let all_ok = forall|j: int| 0 <= j < ts.len() ==> transition_ok(#[trigger] ts[j], n);
    let has_start = exists|j: int| 0 <= j < n && state_contains(#[trigger] states[j]@, start_item);
    let has_accept = exists|j: int| 0 <= j < n && state_contains(#[trigger] states[j]@, acc);
    match r {
        Err(BuildError::UnknownState(k)) => k < ts.len() && !transition_ok(ts[k as int], n)
            && forall|j: int| 0 <= j < k ==> transition_ok(#[trigger] ts[j], n),
        Err(BuildError::NoStartState) => all_ok && !has_start,
        Err(BuildError::NoAcceptState) => all_ok && has_start && !has_accept,
        Ok((tables, conflicts)) => all_ok && has_start && has_accept && tables_built(
            tables,
            states,
            ts,
            extended,
            start,
            eof,
            terms,
        ) && conflicts == conflicts_upto(states, acc, n as int),
    }
}

/// Counts the reduction candidates of a state and finds the least one.
fn scan_state(s: &Vec<LR0Item>, acc: &LR0Item) -> (r: (usize, usize))
    ensures
        r.0 == reducible_count(state_view(s@), acc@),
        r.0 > 0 ==> r.1 < s@.len() && is_rule_item(state_view(s@), acc@, state_view(s@)[r.1 as int]),
{
    let ghost v = state_view(s@);
    let mut count: usize = 0;
    let mut best: usize = 0;
    let mut i: usize = 0;
    while i < s.len()
        invariant
            v == state_view(s@),
            i <= s.len(),
            count <= i,
            count == reducible_count(v.take(i as int), acc@),
            count > 0 ==> best < i && reducible(v[best as int], acc@),
            count > 0 ==> forall|j: int|
                0 <= j < i && reducible(#[trigger] v[j], acc@) ==> !item_less(v[j], v[best as int]),
            count == 0 ==> forall|j: int| 0 <= j < i ==> !reducible(#[trigger] v[j], acc@),
        decreases s.len() - i,
    {
        assert(v.take(i as int + 1).drop_last() =~= v.take(i as int));
        assert(v[i as int] == s@[i as int]@);
        if s[i].is_complete() && !s[i].same_as(acc) {
            if count == 0 || compare_items(&s[i], &s[best]) < 0 {
                proof {
                    assert forall|j: int| 0 <= j < i && reducible(#[trigger] v[j], acc@) implies !item_less(
                        v[j],
                        v[i as int],
                    ) by {
                        lemma_item_order(v[j], v[i as int], v[best as int]);
                    }
                    lemma_item_order(v[i as int], v[i as int], v[i as int]);
                }
                best = i;
            }
            count = count + 1;
        }
        i = i + 1;
    }
    assert(v.take(s.len() as int) =~= v);
    proof {
        if count > 0 {
            assert(v.contains(v[best as int]));
        }
    }
    (count, best)
}

/// The contents of the states that `reps` names, in order.
pub open spec fn rep_view(states: Seq<Vec<LR0Item>>, reps: Seq<usize>) -> Seq<Seq<ItemView>> {
    reps.map_values(|i: usize| content(states, i as int))
}

/// Two strictly increasing sequences with the same elements are equal.
proof fn lemma_increasing_unique(s: Seq<Seq<ItemView>>, t: Seq<Seq<ItemView>>)
    requires
        strictly_increasing(s),
        strictly_increasing(t),
        s.to_set() == t.to_set(),
    ensures
        s == t,
    decreases s.len(),
{
    if s.len() == 0 {
        if t.len() > 0 {
            assert(t.to_set().contains(t[0]));
        }
        assert(s =~= t);
    } else {
        assert(s.to_set().contains(s[0]));
        assert(t.contains(s[0]));
        let k = choose|k: int| 0 <= k < t.len() && t[k] == s[0];
        assert(t.to_set().contains(t[0]));
        assert(s.contains(t[0]));
        let m = choose|m: int| 0 <= m < s.len() && s[m] == t[0];
        if k > 0 && m > 0 {
            lemma_state_order(s[0], t[0], s[0]);
            assert(state_less(t[0], t[k]));
            assert(state_less(s[0], s[m]));
        }
        assert(s[0] == t[0]);
        let (s1, t1) = (s.drop_first(), t.drop_first());
        assert(strictly_increasing(s1)) by {
            assert forall|i: int, j: int| 0 <= i < j < s1.len() implies state_less(#[trigger] s1[i], #[trigger] s1[j]) by {
                assert(s1[i] == s[i + 1] && s1[j] == s[j + 1]);
            }
        }
        assert(strictly_increasing(t1)) by {
            assert forall|i: int, j: int| 0 <= i < j < t1.len() implies state_less(#[trigger] t1[i], #[trigger] t1[j]) by {
                assert(t1[i] == t[i + 1] && t1[j] == t[j + 1]);
            }
        }
        assert forall|x: Seq<ItemView>| s1.to_set().contains(x) <==> t1.to_set().contains(x) by {
            lemma_state_order(s[0], s[0], s[0]);
            if s1.to_set().contains(x) {
                let i = choose|i: int| 0 <= i < s1.len() && s1[i] == x;
                assert(state_less(s[0], s[i + 1]));
                assert(s.to_set().contains(x)) by { assert(s[i + 1] == x); }
                assert(t.contains(x));
                let j = choose|j: int| 0 <= j < t.len() && t[j] == x;
                assert(j != 0);
                assert(t1[j - 1] == x);
            }
            if t1.to_set().contains(x) {
                let i = choose|i: int| 0 <= i < t1.len() && t1[i] == x;
                assert(state_less(t[0], t[i + 1]));
                assert(t.to_set().contains(x)) by { assert(t[i + 1] == x); }
                assert(s.contains(x));
                let j = choose|j: int| 0 <= j < s.len() && s[j] == x;
                assert(j != 0);
                assert(s1[j - 1] == x);
            }
        }
        assert(s1.to_set() =~= t1.to_set());
        lemma_increasing_unique(s1, t1);
        assert(s =~= t1.insert(0, s[0]));
        assert(t =~= t1.insert(0, t[0]));
    }
}

/// Inserts state `q` into `reps`, kept in ascending order of content with
/// each content once.
fn insert_rep(states: &Vec<Vec<LR0Item>>, reps: &mut Vec<usize>, q: usize)
    requires
        q < states@.len(),
        forall|i: int| 0 <= i < old(reps)@.len() ==> #[trigger] old(reps)@[i] < states@.len(),
        strictly_increasing(rep_view(states@, old(reps)@)),
    ensures
        forall|i: int| 0 <= i < final(reps)@.len() ==> #[trigger] final(reps)@[i] == q
            || old(reps)@.contains(final(reps)@[i]),
        strictly_increasing(rep_view(states@, final(reps)@)),
        rep_view(states@, final(reps)@).to_set() == rep_view(states@, old(reps)@).to_set().insert(
            content(states@, q as int),
        ),
{
    let ghost old_reps = reps@;
    let ghost v = rep_view(states@, reps@);
    let ghost cq = content(states@, q as int);
    let mut p: usize = 0;
    while p < reps.len() && compare_states(&states[reps[p]], &states[q]) < 0
        invariant
            reps@ == old_reps,
            v == rep_view(states@, reps@),
            cq == content(states@, q as int),
            p <= reps@.len(),
            q < states@.len(),
            forall|i: int| 0 <= i < reps@.len() ==> #[trigger] reps@[i] < states@.len(),
            forall|i: int| 0 <= i < p ==> state_less(#[trigger] v[i], cq),
        decreases reps.len() - p,
    {
        p = p + 1;
    }
    if p < reps.len() && compare_states(&states[reps[p]], &states[q]) == 0 {
        assert(v[p as int] == cq);
        assert(v.to_set().insert(cq) =~= v.to_set());
        return;
    }
    proof {
        if p < reps@.len() {
            lemma_state_order(v[p as int], cq, cq);
        }
    }
    reps.insert(p, q);
    let ghost w = rep_view(states@, reps@);
    assert(w =~= v.insert(p as int, cq));
    assert forall|i: int, j: int| 0 <= i < j < w.len() implies state_less(#[trigger] w[i], #[trigger] w[j]) by {
        if j < p {
        } else if j == p {
        } else if i < p {
            lemma_state_order(w[i], cq, w[j]);
            if j - 1 > p {
                lemma_state_order(cq, v[p as int], v[j - 1]);
            }
        } else if i == p {
            if j - 1 > p {
                lemma_state_order(cq, v[p as int], v[j - 1]);
            }
        } else {
            assert(w[i] == v[i - 1] && w[j] == v[j - 1]);
        }
    }
    assert forall|x: Seq<ItemView>| w.to_set().contains(x) <==> v.to_set().insert(cq).contains(x) by {
        if w.to_set().contains(x) {
            let i = choose|i: int| 0 <= i < w.len() && w[i] == x;
            if i < p {
                assert(v[i] == x);
            } else if i > p {
                assert(v[i - 1] == x);
            }
        }
        if v.to_set().contains(x) {
            let i = choose|i: int| 0 <= i < v.len() && v[i] == x;
            if i < p {
                assert(w[i] == x);
            } else {
                assert(w[i + 1] == x);
            }
        }
        if x == cq {
            assert(w[p as int] == x);
        }
    }
    assert(w.to_set() =~= v.to_set().insert(cq));
    assert forall|i: int| 0 <= i < reps@.len() implies #[trigger] reps@[i] == q || old_reps.contains(reps@[i]) by {
        if i < p {
            assert(old_reps[i] == reps@[i]);
        } else if i > p {
            assert(old_reps[i - 1] == reps@[i]);
        }
    }
}

/// The index of the first state that holds `it`, if any.
fn find_state(states: &Vec<Vec<LR0Item>>, it: &LR0Item) -> (r: Option<usize>)
    ensures
        match r {
            Some(i) => is_first_holding(states@, it@, i as int),
            None => forall|j: int| 0 <= j < states.len() ==> !state_contains(#[trigger] states@[j]@, it@),
        },
{
    let mut i: usize = 0;
    while i < states.len()
        invariant
            i <= states.len(),
            forall|j: int| 0 <= j < i ==> !state_contains(#[trigger] states@[j]@, it@),
        decreases states.len() - i,
    {
        if contains_item(&states[i], it) {
            return Some(i);
        }
        i = i + 1;
    }
    None
}

/// Builds the tables of the automaton `(states, transitions)` for the augmented
/// grammar `extended_start_symbol -> start_symbol eof_symbol`, with the reduce
/// entries of a reduce state spread over every terminal of `terms`. Reports the
/// conflicts of each state, in state order, beside the tables.
pub fn build_tables(
    states: &Vec<Vec<LR0Item>>,
    transitions: &Vec<Transition>,
    extended_start_symbol: u32,
    start_symbol: u32,
    eof_symbol: u32,
    terms: &Vec<u32>,
) -> (r: Result<(ParseTables, Vec<Conflict>), BuildError>)
    ensures
        build_outcome(
            states@,
            transitions@,
            extended_start_symbol,
            start_symbol,
            eof_symbol,
            terms@,
            match r {
                Ok((tables, conflicts)) => Ok((tables, conflicts@)),
                Err(e) => Err(e),
            },
        ),
{
    let n = states.len();
    let ghost ts = transitions@;
    let mut k: usize = 0;
    while k < transitions.len()
        invariant
            k <= ts.len(),
            ts == transitions@,
            n == states@.len(),
            forall|j: int| 0 <= j < k ==> transition_ok(#[trigger] ts[j], n as nat),
        decreases transitions.len() - k,
    {
        if transitions[k].from >= n || transitions[k].to >= n {
            return Err(BuildError::UnknownState(k));
        }
        k = k + 1;
    }
    let start_item = LR0Item::augmented(extended_start_symbol, start_symbol, eof_symbol, 0);
    let accept_item = LR0Item::augmented(extended_start_symbol, start_symbol, eof_symbol, 2);
    let ghost acc = accept_item@;
    let start_state = match find_state(states, &start_item) {
        Some(i) => i,
        None => {
            return Err(BuildError::NoStartState);
        },
    };
    match find_state(states, &accept_item) {
        Some(i) => {},
        None => {
            return Err(BuildError::NoAcceptState);
        },
    }
    // Conflicts, and the reduce states in ascending order of content.
    let mut conflicts: Vec<Conflict> = Vec::new();
    let mut reps: Vec<usize> = Vec::new();
    let mut q: usize = 0;
    while q < n
        invariant
            q <= n,
            n == states@.len(),
            acc == accept_item@,
            conflicts@ == conflicts_upto(states@, acc, q as int),
            forall|i: int| 0 <= i < reps@.len() ==> #[trigger] reps@[i] < q && is_reduce_state(
                content(states@, reps@[i] as int),
                acc,
            ),
            strictly_increasing(rep_view(states@, reps@)),
            rep_view(states@, reps@).to_set() == reduce_contents(states@, acc, q as int),
        decreases n - q,
    {
        let (count, _) = scan_state(&states[q], &accept_item);
        if count > 1 {
            conflicts.push(Conflict { state: q, kind: ConflictKind::ReduceReduce });
        } else if count == 1 && states[q].len() > 1 {
            conflicts.push(Conflict { state: q, kind: ConflictKind::ShiftReduce });
        }
        let ghost before = reps@;
        if count > 0 {
            insert_rep(states, &mut reps, q);
            assert forall|i: int| 0 <= i < reps@.len() implies #[trigger] reps@[i] < q + 1
                && is_reduce_state(content(states@, reps@[i] as int), acc) by {
                if reps@[i] != q {
                    let k = choose|k: int| 0 <= k < before.len() && before[k] == reps@[i];
                    assert(before[k] < q);
                }
            }
        }
        assert forall|x: Seq<ItemView>| #[trigger] reduce_contents(states@, acc, q + 1).contains(x)
            <==> rep_view(states@, reps@).to_set().contains(x) by {
            if reduce_contents(states@, acc, q + 1).contains(x) {
                let j = choose|j: int|
                    0 <= j < q + 1 && is_reduce_state(#[trigger] content(states@, j), acc)
                        && content(states@, j) == x;
                if j < q {
                    assert(reduce_contents(states@, acc, q as int).contains(x));
                }
            }
            if reduce_contents(states@, acc, q as int).contains(x) {
                let j = choose|j: int|
                    0 <= j < q && is_reduce_state(#[trigger] content(states@, j), acc)
                        && content(states@, j) == x;
                assert(reduce_contents(states@, acc, q + 1).contains(x));
            }
        }
        assert(reduce_contents(states@, acc, q + 1) =~= rep_view(states@, reps@).to_set());
        q = q + 1;
    }
    let ghost rv = rep_view(states@, reps@);
    proof {
        assert(lists_rule_states(rv, states@, acc));
        assert(lists_rule_states(rule_states(states@, acc), states@, acc));
        lemma_increasing_unique(rv, rule_states(states@, acc));
    }
    assert(rv == rule_states(states@, acc));
    // The rule table, in rule-number order.
    let mut rule_table: Vec<LR0Item> = Vec::new();
    let mut r: usize = 0;
    while r < reps.len()
        invariant
            r <= reps@.len(),
            n == states@.len(),
            acc == accept_item@,
            rv == rep_view(states@, reps@),
            forall|i: int| 0 <= i < reps@.len() ==> #[trigger] reps@[i] < n && is_reduce_state(
                content(states@, reps@[i] as int),
                acc,
            ),
            rv.len() == reps@.len(),
            rule_table@.len() == r,
            rule_table@.map_values(|it: LR0Item| it@) == rv.take(r as int).map_values(
                |v: Seq<ItemView>| rule_item(v, acc),
            ),
        decreases reps.len() - r,
    {
        let i = reps[r];
        assert(reps@[r as int] < n);
        let (_, least) = scan_state(&states[i], &accept_item);
        assert(rv[r as int] == state_view(states@[i as int]@));
        assert(state_view(states@[i as int]@)[least as int] == states@[i as int]@[least as int]@);
        proof {
            lemma_rule_item(rv[r as int], acc, states@[i as int]@[least as int]@);
        }
        let item = states[i][least].duplicate();
        assert(item@ == rule_item(rv[r as int], acc));
        let ghost before = rule_table@;
        rule_table.push(item);
        assert(rv.take(r + 1) =~= rv.take(r as int).push(rv[r as int]));
        assert(rule_table@ =~= before.push(item));
        assert forall|k: int| 0 <= k < r + 1 implies #[trigger] rule_table@[k]@ == rule_item(
            rv.take(r + 1)[k],
            acc,
        ) by {
            assert(rv.take(r + 1)[k] == rv[k]);
            if k < r {
                assert(rv.take(r as int)[k] == rv[k]);
                assert(before.map_values(|it: LR0Item| it@)[k] == rv.take(r as int).map_values(
                    |v: Seq<ItemView>| rule_item(v, acc),
                )[k]);
                assert(before[k]@ == rule_item(rv[k], acc));
                assert(rule_table@[k] == before[k]);
            } else {
                assert(rule_table@[k] == item);
            }
        }
        assert(rule_table@.map_values(|it: LR0Item| it@) =~= rv.take(r + 1).map_values(
            |v: Seq<ItemView>| rule_item(v, acc),
        ));
        r = r + 1;
    }
    assert(rv.take(rv.len() as int) =~= rv);
    // Reduce entries: every terminal of the alphabet at a reduce state.
    let mut action_table: BTreeMap<(usize, u32), Action> = BTreeMap::new();
    let mut q: usize = 0;
    while q < n
        invariant
            q <= n,
            n == states@.len(),
            acc == accept_item@,
            rv == rep_view(states@, reps@),
            rv == rule_states(states@, acc),
            lists_rule_states(rv, states@, acc),
            forall|i: int| 0 <= i < reps@.len() ==> #[trigger] reps@[i] < n,
            forall|p: usize, t: u32| #[trigger]
                map_get(action_table@, (p, t)) == if p < q {
                    reduce_entry(states@, acc, terms@, p, t)
                } else {
                    None
                },
        decreases n - q,
    {
        let (count, _) = scan_state(&states[q], &accept_item);
        if count > 0 {
            let ghost cq = content(states@, q as int);
            assert(rv.to_set().contains(cq)) by {
                assert(reduce_contents(states@, acc, n as int).contains(cq));
            }
            let mut rule_number: usize = 0;
            while rule_number < reps.len() && compare_states(&states[reps[rule_number]], &states[q]) != 0
                invariant
                    rule_number <= reps@.len(),
                    rv == rep_view(states@, reps@),
                    cq == content(states@, q as int),
                    q < n,
                    n == states@.len(),
                    forall|i: int| 0 <= i < reps@.len() ==> #[trigger] reps@[i] < n,
                    forall|i: int| 0 <= i < rule_number ==> #[trigger] rv[i] != cq,
                decreases reps.len() - rule_number,
            {
                rule_number = rule_number + 1;
            }
            proof {
                if rule_number == reps@.len() {
                    assert(rv.contains(cq));
                    let k = choose|k: int| 0 <= k < rv.len() && rv[k] == cq;
                    assert(rv[k] != cq);
                }
                let r0 = rule_of(states@, acc, q as int);
                assert(0 <= r0 < rv.len() && rv[r0] == cq);
                lemma_state_order(cq, cq, cq);
                if r0 < rule_number {
                    assert(state_less(rv[r0], rv[rule_number as int]));
                } else if rule_number < r0 {
                    assert(state_less(rv[rule_number as int], rv[r0]));
                }
                assert(rule_number == r0);
            }
            let mut i: usize = 0;
            while i < terms.len()
                invariant
                    i <= terms@.len(),
                    q < n,
                    n == states@.len(),
                    is_reduce_state(content(states@, q as int), acc),
                    rule_number == rule_of(states@, acc, q as int),
                    forall|p: usize, t: u32| #[trigger]
                        map_get(action_table@, (p, t)) == if p < q {
                            reduce_entry(states@, acc, terms@, p, t)
                        } else if p == q && terms@.take(i as int).contains(t) {
                            Some(Action::Reduce(rule_number))
                        } else {
                            None
                        },
                decreases terms.len() - i,
            {
                let t = terms[i];
                let ghost before = action_table@;
                action_table.insert((q, t), Action::Reduce(rule_number));
                assert forall|p: usize, u: u32| #[trigger]
                    map_get(action_table@, (p, u)) == if p < q {
                        reduce_entry(states@, acc, terms@, p, u)
                    } else if p == q && terms@.take(i + 1).contains(u) {
                        Some(Action::Reduce(rule_number))
                    } else {
                        None
                    } by {
                    assert(map_get(before, (p, u)) == if p < q {
                        reduce_entry(states@, acc, terms@, p, u)
                    } else if p == q && terms@.take(i as int).contains(u) {
                        Some(Action::Reduce(rule_number))
                    } else {
                        None
                    });
                    if p == q && u == t {
                        assert(terms@.take(i + 1)[i as int] == u);
                    }
                    if terms@.take(i + 1).contains(u) && u != t {
                        let j = choose|j: int| 0 <= j < i + 1 && #[trigger] terms@.take(i + 1)[j] == u;
                        assert(terms@.take(i as int)[j] == u);
                    }
                    if terms@.take(i as int).contains(u) {
                        let j = choose|j: int| 0 <= j < i && #[trigger] terms@.take(i as int)[j] == u;
                        assert(terms@.take(i + 1)[j] == u);
                    }
                }
                i = i + 1;
            }
            assert(terms@.take(terms@.len() as int) =~= terms@);
        }
        q = q + 1;
    }
    // Transitions overlay the reduce entries.
    let mut goto_table: BTreeMap<(usize, u32), usize> = BTreeMap::new();
    let mut k: usize = 0;
    while k < transitions.len()
        invariant
            k <= ts.len(),
            ts == transitions@,
            n == states@.len(),
            acc == accept_item@,
            forall|j: int| 0 <= j < ts.len() ==> transition_ok(#[trigger] ts[j], n as nat),
            forall|p: usize, t: u32| #[trigger]
                map_get(action_table@, (p, t)) == match last_transition(
                    ts.take(k as int),
                    p,
                    Symbol::Term(t),
                ) {
                    Some(j) => Some(target_action(states@, acc, ts[j].to)),
                    None => reduce_entry(states@, acc, terms@, p, t),
                },
            forall|p: usize, nt: u32| #[trigger]
                map_get(goto_table@, (p, nt)) == match last_transition(
                    ts.take(k as int),
                    p,
                    Symbol::NonTerm(nt),
                ) {
                    Some(j) => Some(ts[j].to),
                    None => None,
                },
        decreases transitions.len() - k,
    {
        assert(ts.take(k + 1).drop_last() =~= ts.take(k as int));
        let tr = transitions[k];
        assert(transition_ok(ts[k as int], n as nat));
        let ghost acts = action_table@;
        let ghost gotos = goto_table@;
        match tr.symbol {
            Symbol::Term(t) => {
                let act = if contains_item(&states[tr.to], &accept_item) {
                    Action::Accept
                } else if states[tr.to].len() > 0 {
                    Action::Shift(tr.to)
                } else {
                    Action::Error
                };
                action_table.insert((tr.from, t), act);
            },
            Symbol::NonTerm(nt) => {
                goto_table.insert((tr.from, nt), tr.to);
            },
        }
        assert forall|p: usize, t: u32| #[trigger]
            map_get(action_table@, (p, t)) == match last_transition(
                ts.take(k + 1),
                p,
                Symbol::Term(t),
            ) {
                Some(j) => Some(target_action(states@, acc, ts[j].to)),
                None => reduce_entry(states@, acc, terms@, p, t),
            } by {
            assert(map_get(acts, (p, t)) == match last_transition(
                ts.take(k as int),
                p,
                Symbol::Term(t),
            ) {
                Some(j) => Some(target_action(states@, acc, ts[j].to)),
                None => reduce_entry(states@, acc, terms@, p, t),
            });
        }
        assert forall|p: usize, nt: u32| #[trigger]
            map_get(goto_table@, (p, nt)) == match last_transition(
                ts.take(k + 1),
                p,
                Symbol::NonTerm(nt),
            ) {
                Some(j) => Some(ts[j].to),
                None => None,
            } by {
            assert(map_get(gotos, (p, nt)) == match last_transition(
                ts.take(k as int),
                p,
                Symbol::NonTerm(nt),
            ) {
                Some(j) => Some(ts[j].to),
                None => None,
            });
        }
        k = k + 1;
    }
    assert(ts.take(ts.len() as int) =~= ts);
    let tables = ParseTables { action_table, goto_table, rule_table, start_state, state_count: n };
    Ok((tables, conflicts))
}

} // verus!
