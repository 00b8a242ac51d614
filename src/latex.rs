//! LaTeX tables of the built parser and of a parse run, as text.
use crate::parser::{run_spec, LR0Parser, TraceRecord, TraceView};
use crate::table::{Action, ParseTables};
use crate::text::{decimal, decimal_text, stack_as_latex, stack_latex, tokens_as_text, tokens_text};
use vstd::prelude::*;
use vstd::string::StringExecFns;

verus! {

/// The text of an action cell; empty where the table has no entry.
pub open spec fn action_cell(a: Option<Action>) -> Seq<char> {
    match a {
        None => Seq::empty(),
        Some(Action::Accept) => "Accept"@,
        Some(Action::Reduce(r)) => "Reduce( $ r_{"@ + decimal(r as nat) + "} $ )"@,
        Some(Action::Shift(q)) => "Shift( $ q_{"@ + decimal(q as nat) + "} $ )"@,
        Some(Action::Error) => "error"@,
    }
}

/// The text of a goto cell; empty where the table has no entry.
pub open spec fn goto_cell(g: Option<usize>) -> Seq<char> {
    match g {
        None => Seq::empty(),
        Some(q) => "$ q_{"@ + decimal(q as nat) + "} $"@,
    }
}

/// The action cells of row `q`, one per terminal of `terms`.
pub open spec fn action_cells(tables: ParseTables, q: usize, terms: Seq<u32>) -> Seq<char>
    decreases terms.len(),
{
    if terms.len() == 0 {
        Seq::empty()
    } else {
        action_cells(tables, q, terms.drop_last()) + " & "@ + action_cell(
            tables.action_at(q, terms.last()),
        )
    }
}

/// The goto cells of row `q`, one per non-terminal of `nonterms`.
pub open spec fn goto_cells(tables: ParseTables, q: usize, nonterms: Seq<u32>) -> Seq<char>
    decreases nonterms.len(),
{
    if nonterms.len() == 0 {
        Seq::empty()
    } else {
        goto_cells(tables, q, nonterms.drop_last()) + " & "@ + goto_cell(
            tables.goto_at(q, nonterms.last()),
        )
    }
}

/// The line of state `q`.
pub open spec fn table_row(tables: ParseTables, q: usize, terms: Seq<u32>, nonterms: Seq<u32>) -> Seq<char> {
    "$ q_{"@ + decimal(q as nat) + "} $"@ + action_cells(tables, q, terms) + " &"@ + goto_cells(
        tables,
        q,
        nonterms,
    ) + " \\\\ \\hline\n"@
}

/// The lines of states `0 .. n`.
pub open spec fn table_rows(tables: ParseTables, n: nat, terms: Seq<u32>, nonterms: Seq<u32>) -> Seq<char>
    decreases n,
{
    if n == 0 {
        Seq::empty()
    } else {
        table_rows(tables, (n - 1) as nat, terms, nonterms) + table_row(
            tables,
            (n - 1) as usize,
            terms,
            nonterms,
        )
    }
}

/// The column headings: each symbol number after ` & `.
pub open spec fn heading_cells(syms: Seq<u32>) -> Seq<char>
    decreases syms.len(),
{
    if syms.len() == 0 {
        Seq::empty()
    } else {
        heading_cells(syms.drop_last()) + " & "@ + decimal(syms.last() as nat)
    }
}

/// `n` column specifiers `l`.
pub open spec fn ells(n: nat) -> Seq<char>
    decreases n,
{
    if n == 0 {
        Seq::empty()
    } else {
        ells((n - 1) as nat) + "l"@
    }
}

/// The LaTeX tabular of the action and goto tables, one row per state.
pub open spec fn table_latex(tables: ParseTables, terms: Seq<u32>, nonterms: Seq<u32>) -> Seq<char> {
    "\\begin{tabular}{"@ + ells(terms.len() + nonterms.len() + 2) + "}\n"@
        + "& \\multicolumn{"@ + decimal(terms.len()) + "}{c}{Action} & & \\multicolumn{"@
        + decimal(nonterms.len()) + "}{c}{Goto} \\\\ \\hline\n"@ + heading_cells(terms) + " &"@
        + heading_cells(nonterms) + " \\\\\n"@ + table_rows(
        tables,
        tables.state_count as nat,
        terms,
        nonterms,
    ) + "\\end{tabular}\n"@
}

/// The action column of a step: the action taken, or `no action`.
pub open spec fn step_cell(a: Option<Action>) -> Seq<char> {
    match a {
        None => "no action"@,
        Some(_) => action_cell(a),
    }
}

/// The line of step number `i`.
pub open spec fn trace_row(i: nat, r: TraceView) -> Seq<char> {
    decimal(i) + " & & "@ + tokens_text(r.remaining) + " & "@ + stack_latex(r.stack) + " & "@
        + step_cell(r.action) + " \\\\ \\hline\n"@
}

/// The lines of a trace, steps numbered from 1.
pub open spec fn trace_rows(trace: Seq<TraceView>) -> Seq<char>
    decreases trace.len(),
{
    if trace.len() == 0 {
        Seq::empty()
    } else {
        trace_rows(trace.drop_last()) + trace_row(trace.len(), trace.last())
    }
}

/// The LaTeX tabular of a trace: step, remaining input, stack, action.
pub open spec fn trace_latex(trace: Seq<TraceView>) -> Seq<char> {
    "\\begin{tabular}{lllll}\n"@ + " & & remain input & stack & action \\\\ \\hline\n"@
        + trace_rows(trace) + "\\end{tabular}\n"@
}

/// The text of an action cell.
fn action_text(a: Option<Action>) -> (r: String)
    ensures
        r@ == action_cell(a),
{
    match a {
        None => {
            let r = String::from_str("");
            proof {
                reveal_strlit("");
            }
            r
        },
        Some(Action::Accept) => String::from_str("Accept"),
        Some(Action::Reduce(n)) => {
            let mut r = String::from_str("Reduce( $ r_{");
            r.append(decimal_text(n).as_str());
            r.append("} $ )");
            r
        },
        Some(Action::Shift(n)) => {
            let mut r = String::from_str("Shift( $ q_{");
            r.append(decimal_text(n).as_str());
            r.append("} $ )");
            r
        },
        Some(Action::Error) => String::from_str("error"),
    }
}

/// The action at `(q, t)`, looked up in the table.
fn action_lookup(tables: &ParseTables, q: usize, t: u32) -> (r: Option<Action>)
    ensures
        r == tables.action_at(q, t),
{
    match tables.action_table.get(&(q, t)) {
        Some(a) => Some(*a),
        None => None,
    }
}

/// The goto target at `(q, nt)`, looked up in the table.
fn goto_lookup(tables: &ParseTables, q: usize, nt: u32) -> (r: Option<usize>)
    ensures
        r == tables.goto_at(q, nt),
{
    match tables.goto_table.get(&(q, nt)) {
        Some(g) => Some(*g),
        None => None,
    }
}

/// Appends the line of state `q`.
fn push_table_row(r: &mut String, tables: &ParseTables, q: usize, terms: &Vec<u32>, nonterms: &Vec<u32>)
    ensures
        final(r)@ == old(r)@ + table_row(*tables, q, terms@, nonterms@),
{
    let ghost start = r@;
    r.append("$ q_{");
    r.append(decimal_text(q).as_str());
    r.append("} $");
    let ghost head = r@;
    assert(head =~= start + ("$ q_{"@ + decimal(q as nat) + "} $"@));
    let mut i: usize = 0;
    while i < terms.len()
        invariant
            i <= terms@.len(),
            r@ == head + action_cells(*tables, q, terms@.take(i as int)),
        decreases terms.len() - i,
    {
        assert(terms@.take(i + 1).drop_last() =~= terms@.take(i as int));
        let cell = action_text(action_lookup(tables, q, terms[i]));
        r.append(" & ");
        r.append(cell.as_str());
        assert(r@ =~= head + action_cells(*tables, q, terms@.take(i + 1)));
        i = i + 1;
    }
    assert(terms@.take(terms@.len() as int) =~= terms@);
    r.append(" &");
    let ghost mid = r@;
    let mut j: usize = 0;
    while j < nonterms.len()
        invariant
            j <= nonterms@.len(),
            r@ == mid + goto_cells(*tables, q, nonterms@.take(j as int)),
        decreases nonterms.len() - j,
    {
        assert(nonterms@.take(j + 1).drop_last() =~= nonterms@.take(j as int));
        r.append(" & ");
        match goto_lookup(tables, q, nonterms[j]) {
            Some(g) => {
                r.append("$ q_{");
                r.append(decimal_text(g).as_str());
                r.append("} $");
            },
            None => {},
        }
        assert(r@ =~= mid + goto_cells(*tables, q, nonterms@.take(j + 1)));
        j = j + 1;
    }
    assert(nonterms@.take(nonterms@.len() as int) =~= nonterms@);
    r.append(" \\\\ \\hline\n");
    assert(r@ =~= start + table_row(*tables, q, terms@, nonterms@));
}

/// Appends the heading cells of `syms`.
fn push_headings(r: &mut String, syms: &Vec<u32>)
    ensures
        final(r)@ == old(r)@ + heading_cells(syms@),
{
    let ghost start = r@;
    let mut i: usize = 0;
    while i < syms.len()
        invariant
            i <= syms@.len(),
            r@ == start + heading_cells(syms@.take(i as int)),
        decreases syms.len() - i,
    {
        assert(syms@.take(i + 1).drop_last() =~= syms@.take(i as int));
        r.append(" & ");
        r.append(decimal_text(syms[i] as usize).as_str());
        assert(r@ =~= start + heading_cells(syms@.take(i + 1)));
        i = i + 1;
    }
    assert(syms@.take(syms@.len() as int) =~= syms@);
}

/// Appends the line of step number `i`.
fn push_trace_row(r: &mut String, i: usize, rec: &TraceRecord)
    ensures
        final(r)@ == old(r)@ + trace_row(i as nat, rec@),
{
    let ghost start = r@;
    r.append(decimal_text(i).as_str());
    r.append(" & & ");
    r.append(tokens_as_text(&rec.remaining, 0).as_str());
    assert(rec.remaining@.skip(0) =~= rec.remaining@);
    r.append(" & ");
    r.append(stack_as_latex(&rec.stack).as_str());
    r.append(" & ");
    match rec.action {
        None => r.append("no action"),
        Some(a) => r.append(action_text(Some(a)).as_str()),
    }
    r.append(" \\\\ \\hline\n");
    assert(r@ =~= start + trace_row(i as nat, rec@));
}

impl LR0Parser {
    /// The action and goto tables as a LaTeX tabular: one row per state, an
    /// action column per terminal of `terms` and a goto column per
    /// non-terminal of `nonterms`, in the order given.
    pub fn export_as_latex_src(&self, terms: &Vec<u32>, nonterms: &Vec<u32>) -> (r: String)
        requires
            terms@.len() + nonterms@.len() + 2 <= usize::MAX,
        ensures
            r@ == table_latex(self.table_set(), terms@, nonterms@),
    {
        let tables = self.tables();
        let mut r = String::from_str("\\begin{tabular}{");
        let ghost start = r@;
        let cols = terms.len() + nonterms.len() + 2;
        let mut c: usize = 0;
        while c < cols
            invariant
                c <= cols,
                r@ == start + ells(c as nat),
            decreases cols - c,
        {
            r.append("l");
            c = c + 1;
        }
        r.append("}\n");
        r.append("& \\multicolumn{");
        r.append(decimal_text(terms.len()).as_str());
        r.append("}{c}{Action} & & \\multicolumn{");
        r.append(decimal_text(nonterms.len()).as_str());
        r.append("}{c}{Goto} \\\\ \\hline\n");
        push_headings(&mut r, terms);
        r.append(" &");
        push_headings(&mut r, nonterms);
        r.append(" \\\\\n");
        let ghost before_rows = r@;
        let mut q: usize = 0;
        while q < tables.state_count
            invariant
                q <= tables.state_count,
                r@ == before_rows + table_rows(*tables, q as nat, terms@, nonterms@),
            decreases tables.state_count - q,
        {
            push_table_row(&mut r, tables, q, terms, nonterms);
            assert(r@ =~= before_rows + table_rows(*tables, (q + 1) as nat, terms@, nonterms@));
            q = q + 1;
        }
        r.append("\\end{tabular}\n");
        assert(r@ =~= table_latex(self.table_set(), terms@, nonterms@));
        r
    }

    /// Runs at most `max_steps` steps, as `run_to_completion` does, and returns
    /// the whole trace as a LaTeX tabular.
    pub fn export_parsing_as_latex_src(&mut self, max_steps: usize) -> (r: String)
        requires
            old(self).wf(),
        ensures
            final(self).wf(),
            final(self).table_set() == old(self).table_set(),
            final(self)@.input == old(self)@.input,
            ({
                let s = run_spec(
                    old(self).table_set(),
                    old(self)@.input,
                    old(self)@.stack,
                    old(self)@.cursor,
                    old(self)@.status,
                    old(self)@.trace,
                    max_steps as nat,
                );
                &&& final(self)@.stack == s.0
                &&& final(self)@.cursor == s.1
                &&& final(self)@.status == s.2
                &&& final(self)@.trace == s.3
            }),
            r@ == trace_latex(final(self)@.trace),
    {
        self.run_to_completion(max_steps);
        let trace = self.trace();
        let mut r = String::from_str("\\begin{tabular}{lllll}\n");
        r.append(" & & remain input & stack & action \\\\ \\hline\n");
        let ghost head = r@;
        let mut i: usize = 0;
        while i < trace.len()
            invariant
                i <= trace@.len(),
                trace@.map_values(|t: TraceRecord| t@) == self@.trace,
                r@ == head + trace_rows(self@.trace.take(i as int)),
            decreases trace.len() - i,
        {
            assert(self@.trace.take(i + 1).drop_last() =~= self@.trace.take(i as int));
            push_trace_row(&mut r, i + 1, &trace[i]);
            assert(r@ =~= head + trace_rows(self@.trace.take(i + 1)));
            i = i + 1;
        }
        assert(self@.trace.take(self@.trace.len() as int) =~= self@.trace);
        r.append("\\end{tabular}\n");
        assert(r@ =~= trace_latex(self@.trace));
        r
    }
}

} // verus!
