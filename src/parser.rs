//! The LR(0) stack machine that runs built tables over a token sequence.
use crate::grammar::LR0Item;
use crate::table::{
    build_outcome, build_tables, Action, BuildError, Conflict, ParseTables, Transition,
};
use crate::text::{stack_as_latex, stack_latex, tokens_as_text, tokens_text};
use vstd::prelude::*;

verus! {

/// Why the input was rejected.
#[derive(Clone, Copy, Debug, PartialEq, Eq, Structural)]
pub enum SyntaxError {
    /// The input ran out before it was accepted.
    ExhaustedInput,
    /// The table has no entry for the current state and lookahead.
    NoAction { state: usize, symbol: u32 },
    /// The table holds `Error` for the current state and lookahead.
    ErrorAction { state: usize, symbol: u32 },
}

/// Why the tables could not be followed: they were built from an inconsistent automaton.
#[derive(Clone, Copy, Debug, PartialEq, Eq, Structural)]
pub enum TableFault {
    /// A reduce entry names a rule that the rule table lacks.
    MissingRule(usize),
    /// The stack is too short to pop the right-hand side of the rule.
    StackUnderflow(usize),
    /// No goto entry for the state exposed by a reduction and the rule's left side.
    MissingGoto { state: usize, nonterminal: u32 },
}

/// Where a run stands.
#[derive(Clone, Copy, Debug, PartialEq, Eq, Structural)]
pub enum ParseStatus {
    Running,
    Accepted,
    Failed(SyntaxError),
    Malformed(TableFault),
}

/// What one step saw and did: the input left, the stack, and the action taken
/// (none where the input ran out or the table had no entry).
pub struct TraceRecord {
    pub remaining: Vec<u32>,
    pub stack: Vec<usize>,
    pub action: Option<Action>,
}

/// The value of a trace record.
pub struct TraceView {
    pub remaining: Seq<u32>,
    pub stack: Seq<usize>,
    pub action: Option<Action>,
}

impl View for TraceRecord {
    type V = TraceView;

    open spec fn view(&self) -> TraceView {
        TraceView { remaining: self.remaining@, stack: self.stack@, action: self.action }
    }
}

/// An LR(0) parser: built tables, and the input, cursor and state stack of a run.
pub struct LR0Parser {
    input: Vec<u32>,
    cursor: usize,
    tables: ParseTables,
    stack: Vec<usize>,
    status: ParseStatus,
    trace: Vec<TraceRecord>,
}

/// The run-time state of a parser.
pub struct ParserView {
    pub input: Seq<u32>,
    pub cursor: nat,
    pub stack: Seq<usize>,
    pub status: ParseStatus,
    pub trace: Seq<TraceView>,
}

impl View for LR0Parser {
    type V = ParserView;

    closed spec fn view(&self) -> ParserView {
        ParserView {
            input: self.input@,
            cursor: self.cursor as nat,
            stack: self.stack@,
            status: self.status,
            trace: self.trace@.map_values(|r: TraceRecord| r@),
        }
    }
}

/// The result of one step from `(stack, cursor)` over `input`: the new stack,
/// the new cursor, the new status, and the action taken.
pub open spec fn step_spec(
    tables: ParseTables,
    input: Seq<u32>,
    stack: Seq<usize>,
    cursor: nat,
) -> (Seq<usize>, nat, ParseStatus, Option<Action>) {
    if cursor >= input.len() {
        (stack, cursor, ParseStatus::Failed(SyntaxError::ExhaustedInput), None)
    } else {
        let q = stack.last();
        let x = input[cursor as int];
        match tables.action_at(q, x) {
            None => (
                stack,
                cursor,
                ParseStatus::Failed(SyntaxError::NoAction { state: q, symbol: x }),
                None,
            ),
            Some(Action::Accept) => (stack, cursor, ParseStatus::Accepted, Some(Action::Accept)),
            Some(Action::Shift(p)) => (
                stack.push(p),
                cursor + 1,
                ParseStatus::Running,
                Some(Action::Shift(p)),
            ),
            Some(Action::Error) => (
                stack,
                cursor,
                ParseStatus::Failed(SyntaxError::ErrorAction { state: q, symbol: x }),
                Some(Action::Error),
            ),
            Some(Action::Reduce(r)) => {
                let rules = tables.rules();
                if r >= rules.len() {
                    (stack, cursor, ParseStatus::Malformed(TableFault::MissingRule(r)), Some(Action::Reduce(r)))
                } else if stack.len() < rules[r as int].right.len() + 1 {
                    (stack, cursor, ParseStatus::Malformed(TableFault::StackUnderflow(r)), Some(Action::Reduce(r)))
                } else {
                    let rest = stack.take(stack.len() - rules[r as int].right.len());
                    let a = rules[r as int].left;
                    match tables.goto_at(rest.last(), a) {
                        None => (
                            stack,
                            cursor,
                            ParseStatus::Malformed(
                                TableFault::MissingGoto { state: rest.last(), nonterminal: a },
                            ),
                            Some(Action::Reduce(r)),
                        ),
                        Some(g) => (rest.push(g), cursor, ParseStatus::Running, Some(Action::Reduce(r))),
                    }
                }
            },
        }
    }
}

impl LR0Parser {
    /// The tables the parser runs on.
    pub closed spec fn table_set(&self) -> ParseTables {
        self.tables
    }

    /// The run-time invariant: the stack is never empty and the cursor stays in the input.
    pub open spec fn wf(&self) -> bool {
        &&& self@.stack.len() > 0
        &&& self@.cursor <= self@.input.len()
    }

    /// A parser on `tables`, with no input and the start state alone on its stack.
    pub fn new(tables: ParseTables) -> (r: LR0Parser)
        ensures
            r.wf(),
            r.table_set() == tables,
            r@.input.len() == 0,
            r@.cursor == 0,
            r@.stack == seq![tables.start_state],
            r@.status == ParseStatus::Running,
            r@.trace.len() == 0,
    {
        let start = tables.start_state;
        let r = LR0Parser {
            input: Vec::new(),
            cursor: 0,
            tables,
            stack: vec![start],
            status: ParseStatus::Running,
            trace: Vec::new(),
        };
        assert(r@.trace =~= Seq::empty());
        r
    }

    /// The tables the parser runs on.
    pub fn tables(&self) -> (r: &ParseTables)
        ensures
            *r == self.table_set(),
    {
        &self.tables
    }

    /// Starts over: no input, cursor at 0, the start state alone on the stack,
    /// an empty trace. The tables are kept.
    pub fn reset(&mut self)
        ensures
            final(self).wf(),
            final(self).table_set() == old(self).table_set(),
            final(self)@.input.len() == 0,
            final(self)@.cursor == 0,
            final(self)@.stack == seq![old(self).table_set().start_state],
            final(self)@.status == ParseStatus::Running,
            final(self)@.trace.len() == 0,
    {
        self.cursor = 0;
        self.input.clear();
        self.stack = vec![self.tables.start_state];
        self.status = ParseStatus::Running;
        self.trace = Vec::new();
        assert(self@.trace =~= Seq::empty());
    }

    /// Binds a new input and sets the cursor to its start; the stack, the trace
    /// and the tables are kept, and the run is open again.
    pub fn input(self, input: Vec<u32>) -> (r: Self)
        requires
            self.wf(),
        ensures
            r.wf(),
            r.table_set() == self.table_set(),
            r@.input == input@,
            r@.cursor == 0,
            r@.stack == self@.stack,
            r@.status == ParseStatus::Running,
            r@.trace == self@.trace,
    {
        LR0Parser {
            input,
            cursor: 0,
            tables: self.tables,
            stack: self.stack,
            status: ParseStatus::Running,
            trace: self.trace,
        }
    }
}

/// The trace record of a step taken from `(stack, cursor)` over `input`.
pub open spec fn record_spec(
    input: Seq<u32>,
    stack: Seq<usize>,
    cursor: nat,
    action: Option<Action>,
) -> TraceView {
    TraceView { remaining: input.skip(cursor as int), stack, action }
}

/// The tokens of `v` from index `from` on.
fn tokens_from(v: &Vec<u32>, from: usize) -> (r: Vec<u32>)
    requires
        from <= v@.len(),
    ensures
        r@ == v@.skip(from as int),
{
    let mut r: Vec<u32> = Vec::new();
    let mut i: usize = from;
    while i < v.len()
        invariant
            from <= i <= v@.len(),
            r@ =~= v@.subrange(from as int, i as int),
        decreases v.len() - i,
    {
        r.push(v[i]);
        i = i + 1;
    }
    assert(r@ =~= v@.skip(from as int));
    r
}

/// A copy of a stack of state numbers.
fn copy_states(v: &Vec<usize>) -> (r: Vec<usize>)
    ensures
        r@ == v@,
{
    let mut r: Vec<usize> = Vec::new();
    let mut i: usize = 0;
    while i < v.len()
        invariant
            i <= v@.len(),
            r@ =~= v@.take(i as int),
        decreases v.len() - i,
    {
        r.push(v[i]);
        i = i + 1;
    }
    assert(r@ =~= v@);
    r
}

impl LR0Parser {
    /// Appends the record of a step taken from the current stack and cursor.
    fn record(&mut self, action: Option<Action>)
        requires
            old(self).wf(),
        ensures
            final(self).wf(),
            final(self).table_set() == old(self).table_set(),
            final(self)@.input == old(self)@.input,
            final(self)@.cursor == old(self)@.cursor,
            final(self)@.stack == old(self)@.stack,
            final(self)@.status == old(self)@.status,
            final(self)@.trace == old(self)@.trace.push(
                record_spec(old(self)@.input, old(self)@.stack, old(self)@.cursor, action),
            ),
    {
        let remaining = tokens_from(&self.input, self.cursor);
        let stack = copy_states(&self.stack);
        let ghost before = self.trace@;
        self.trace.push(TraceRecord { remaining, stack, action });
        assert(self.trace@.map_values(|r: TraceRecord| r@) =~= before.map_values(
            |r: TraceRecord| r@,
        ).push(record_spec(self.input@, self.stack@, self.cursor as nat, action)));
    }

    /// Takes one transition of the stack machine and records it in the trace.
    /// Once the run is accepted or has failed, the parser is left as it is.
    pub fn step_once(&mut self) -> (r: ParseStatus)
        requires
            old(self).wf(),
        ensures
            final(self).wf(),
            final(self).table_set() == old(self).table_set(),
            final(self)@.input == old(self)@.input,
            r == final(self)@.status,
            old(self)@.status != ParseStatus::Running ==> final(self)@ == old(self)@,
            old(self)@.status == ParseStatus::Running ==> ({
                let s = step_spec(
                    old(self).table_set(),
                    old(self)@.input,
                    old(self)@.stack,
                    old(self)@.cursor,
                );
                &&& final(self)@.stack == s.0
                &&& final(self)@.cursor == s.1
                &&& final(self)@.status == s.2
                &&& final(self)@.trace == old(self)@.trace.push(
                    record_spec(old(self)@.input, old(self)@.stack, old(self)@.cursor, s.3),
                )
            }),
    {
        match self.status {
            ParseStatus::Running => {},
            _ => {
                return self.status;
            },
        }
        if self.cursor >= self.input.len() {
            self.record(None);
            self.status = ParseStatus::Failed(SyntaxError::ExhaustedInput);
            return self.status;
        }
        let q = self.stack[self.stack.len() - 1];
        let x = self.input[self.cursor];
        let found = match self.tables.action_table.get(&(q, x)) {
            Some(a) => Some(*a),
            None => None,
        };
        assert(found == self.tables.action_at(q, x));
        match found {
            None => {
                self.record(None);
                self.status = ParseStatus::Failed(SyntaxError::NoAction { state: q, symbol: x });
            },
            Some(Action::Accept) => {
                self.record(found);
                self.status = ParseStatus::Accepted;
            },
            Some(Action::Error) => {
                self.record(found);
                self.status = ParseStatus::Failed(SyntaxError::ErrorAction { state: q, symbol: x });
            },
            Some(Action::Shift(p)) => {
                self.record(found);
                self.stack.push(p);
                self.cursor = self.cursor + 1;
            },
            Some(Action::Reduce(rule)) => {
                self.record(found);
                if rule >= self.tables.rule_table.len() {
                    self.status = ParseStatus::Malformed(TableFault::MissingRule(rule));
                    return self.status;
                }
                let k = self.tables.rule_table[rule].right.len();
                let left = self.tables.rule_table[rule].left;
                assert(self.tables.rules()[rule as int].right.len() == k);
                assert(self.tables.rules()[rule as int].left == left);
                if self.stack.len() <= k {
                    self.status = ParseStatus::Malformed(TableFault::StackUnderflow(rule));
                    return self.status;
                }
                let base = self.stack.len() - k;
                let below = self.stack[base - 1];
                let target = match self.tables.goto_table.get(&(below, left)) {
                    Some(g) => Some(*g),
                    None => None,
                };
                assert(target == self.tables.goto_at(below, left));
                match target {
                    None => {
                        self.status = ParseStatus::Malformed(
                            TableFault::MissingGoto { state: below, nonterminal: left },
                        );
                    },
                    Some(g) => {
                        self.stack.truncate(base);
                        self.stack.push(g);
                    },
                }
            },
        }
        self.status
    }
}

/// The state reached after at most `fuel` steps from `(stack, cursor, status,
/// trace)`: stepping stops once the run is no longer `Running`.
pub open spec fn run_spec(
    tables: ParseTables,
    input: Seq<u32>,
    stack: Seq<usize>,
    cursor: nat,
    status: ParseStatus,
    trace: Seq<TraceView>,
    fuel: nat,
) -> (Seq<usize>, nat, ParseStatus, Seq<TraceView>)
    decreases fuel,
{
    if fuel == 0 || status != ParseStatus::Running {
        (stack, cursor, status, trace)
    } else {
        let s = step_spec(tables, input, stack, cursor);
        run_spec(
            tables,
            input,
            s.0,
            s.1,
            s.2,
            trace.push(record_spec(input, stack, cursor, s.3)),
            (fuel - 1) as nat,
        )
    }
}

impl LR0Parser {
    /// Steps until the run is accepted or fails, taking at most `max_steps` steps;
    /// the result is `Running` only when all of them were taken.
    pub fn run_to_completion(&mut self, max_steps: usize) -> (r: ParseStatus)
        requires
            old(self).wf(),
        ensures
            final(self).wf(),
            final(self).table_set() == old(self).table_set(),
            final(self)@.input == old(self)@.input,
            r == final(self)@.status,
            ({
                let s = run_spec(
                    old(self).table_set(),
                    old(self)@.input,
                    old(self)@.stack,
                    old(self)@.cursor,
                    old(self)@.status,
                    old(self)@.trace,
                    max_steps as nat,
                );
                &&& final(self)@.stack == s.0
                &&& final(self)@.cursor == s.1
                &&& final(self)@.status == s.2
                &&& final(self)@.trace == s.3
            }),
    {
        let ghost tables = self.table_set();
        let ghost input = self@.input;
        let ghost goal = run_spec(
            tables,
            input,
            self@.stack,
            self@.cursor,
            self@.status,
            self@.trace,
            max_steps as nat,
        );
        let mut left: usize = max_steps;
        while left > 0
            invariant
                self.wf(),
                self.table_set() == tables,
                self@.input == input,
                tables == old(self).table_set(),
                input == old(self)@.input,
                goal == run_spec(
                    old(self).table_set(),
                    old(self)@.input,
                    old(self)@.stack,
                    old(self)@.cursor,
                    old(self)@.status,
                    old(self)@.trace,
                    max_steps as nat,
                ),
                run_spec(
                    tables,
                    input,
                    self@.stack,
                    self@.cursor,
                    self@.status,
                    self@.trace,
                    left as nat,
                ) == goal,
            decreases left,
        {
            match self.status {
                ParseStatus::Running => {},
                _ => {
                    return self.status;
                },
            }
            self.step_once();
            left = left - 1;
        }
        self.status
    }
}

/// Builds an LR(0) parser from the canonical automaton `(states, transitions)`
/// of the grammar augmented with `extended_start_symbol -> start_symbol
/// eof_symbol`; `terms` is the terminal alphabet. Beside the parser come the
/// conflicts found, state by state; they do not stop the construction.
pub fn canonical_automaton_to_lr0_parser(
    states: &Vec<Vec<LR0Item>>,
    transitions: &Vec<Transition>,
    extended_start_symbol: u32,
    start_symbol: u32,
    eof_symbol: u32,
    terms: &Vec<u32>,
) -> (r: Result<(LR0Parser, Vec<Conflict>), BuildError>)
    ensures
        build_outcome(
            states@,
            transitions@,
            extended_start_symbol,
            start_symbol,
            eof_symbol,
            terms@,
            match r {
                Ok((parser, conflicts)) => Ok((parser.table_set(), conflicts@)),
                Err(e) => Err(e),
            },
        ),
        r matches Ok((parser, _)) ==> parser.wf() && parser@.input.len() == 0 && parser@.cursor == 0
            && parser@.stack == seq![parser.table_set().start_state] && parser@.status
            == ParseStatus::Running && parser@.trace.len() == 0,
{
    match build_tables(states, transitions, extended_start_symbol, start_symbol, eof_symbol, terms) {
        Ok((tables, conflicts)) => Ok((LR0Parser::new(tables), conflicts)),
        Err(e) => Err(e),
    }
}

impl LR0Parser {
    /// The input not yet consumed, in decimal, separated by single spaces.
    pub fn dump_remain_input(&self) -> (r: String)
        requires
            self.wf(),
        ensures
            r@ == tokens_text(self@.input.skip(self@.cursor as int)),
    {
        tokens_as_text(&self.input, self.cursor)
    }

    /// The stack as LaTeX math, bottom first, its top marked with an arrow.
    pub fn dump_stack_as_latex_src(&self) -> (r: String)
        ensures
            r@ == stack_latex(self@.stack),
    {
        stack_as_latex(&self.stack)
    }

    /// The input bound to the parser.
    pub fn input_tokens(&self) -> (r: &Vec<u32>)
        ensures
            r@ == self@.input,
    {
        &self.input
    }

    /// The position of the next token to read.
    pub fn cursor(&self) -> (r: usize)
        ensures
            r == self@.cursor,
    {
        self.cursor
    }

    /// The state stack, bottom first.
    pub fn stack(&self) -> (r: &Vec<usize>)
        ensures
            r@ == self@.stack,
    {
        &self.stack
    }

    /// Where the run stands.
    pub fn status(&self) -> (r: ParseStatus)
        ensures
            r == self@.status,
    {
        self.status
    }

    /// The records of the steps taken so far, oldest first.
    pub fn trace(&self) -> (r: &Vec<TraceRecord>)
        ensures
            r@.map_values(|t: TraceRecord| t@) == self@.trace,
    {
        &self.trace
    }
}

} // verus!
