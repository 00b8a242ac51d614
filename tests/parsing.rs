use lr0_parser::grammar::{LR0Item, Symbol};
use lr0_parser::parser::{
    canonical_automaton_to_lr0_parser, LR0Parser, ParseStatus, SyntaxError, TableFault,
};
use lr0_parser::table::{Action, BuildError, Conflict, ConflictKind, Transition};

// Terminals a, b, $ and non-terminals S', S of the grammar
// S' -> S $, S -> a S b | (empty).
const A: u32 = 0;
const B: u32 = 1;
const EOF: u32 = 2;
const S_EXT: u32 = 0;
const S: u32 = 1;

fn item(left: u32, right: &[Symbol], dot_pos: usize) -> LR0Item {
    LR0Item { left, right: right.to_vec(), dot_pos }
}

fn aug(dot: usize) -> LR0Item {
    item(S_EXT, &[Symbol::NonTerm(S), Symbol::Term(EOF)], dot)
}

fn asb(dot: usize) -> LR0Item {
    item(S, &[Symbol::Term(A), Symbol::NonTerm(S), Symbol::Term(B)], dot)
}

fn empty_rule() -> LR0Item {
    item(S, &[], 0)
}

fn states() -> Vec<Vec<LR0Item>> {
    vec![
        vec![aug(0), asb(0), empty_rule()],
        vec![aug(1)],
        vec![asb(1), asb(0), empty_rule()],
        vec![aug(2)],
        vec![asb(2)],
        vec![asb(3)],
    ]
}

fn tr(from: usize, symbol: Symbol, to: usize) -> Transition {
    Transition { from, symbol, to }
}

fn transitions() -> Vec<Transition> {
    vec![
        tr(0, Symbol::NonTerm(S), 1),
        tr(0, Symbol::Term(A), 2),
        tr(1, Symbol::Term(EOF), 3),
        tr(2, Symbol::NonTerm(S), 4),
        tr(2, Symbol::Term(A), 2),
        tr(4, Symbol::Term(B), 5),
    ]
}

fn terms() -> Vec<u32> {
    vec![A, B, EOF]
}

fn build() -> (LR0Parser, Vec<Conflict>) {
    match canonical_automaton_to_lr0_parser(&states(), &transitions(), S_EXT, S, EOF, &terms()) {
        Ok(built) => built,
        Err(e) => panic!("build failed: {:?}", e),
    }
}

fn run(tokens: Vec<u32>) -> LR0Parser {
    let (parser, _) = build();
    let mut parser = parser.input(tokens);
    parser.run_to_completion(1000);
    parser
}

#[test]
fn accepts_balanced_sentence() {
    let p = run(vec![A, A, B, B, EOF]);
    assert_eq!(p.status(), ParseStatus::Accepted);
    assert_eq!(p.stack(), &vec![0, 1]);
    assert_eq!(p.cursor(), 4);
}

#[test]
fn accepts_with_empty_rule() {
    let p = run(vec![A, B, EOF]);
    assert_eq!(p.status(), ParseStatus::Accepted);
    let p = run(vec![EOF]);
    assert_eq!(p.status(), ParseStatus::Accepted);
    assert_eq!(p.stack(), &vec![0, 1]);
}

#[test]
fn rejects_extra_b() {
    let p = run(vec![A, B, B, EOF]);
    assert_eq!(
        p.status(),
        ParseStatus::Failed(SyntaxError::NoAction { state: 1, symbol: B })
    );
}

#[test]
fn rejects_missing_b() {
    let p = run(vec![A, A, B, EOF]);
    assert_eq!(
        p.status(),
        ParseStatus::Failed(SyntaxError::NoAction { state: 4, symbol: EOF })
    );
    assert_eq!(p.stack(), &vec![0, 2, 4]);
}

#[test]
fn exhausted_input_fails() {
    let p = run(vec![A, A, B, B]);
    assert_eq!(p.status(), ParseStatus::Failed(SyntaxError::ExhaustedInput));
    assert_eq!(p.cursor(), 4);
    let p = run(vec![]);
    assert_eq!(p.status(), ParseStatus::Failed(SyntaxError::ExhaustedInput));
}

#[test]
fn table_entries() {
    let (p, conflicts) = build();
    let t = p.tables();
    assert_eq!(t.start_state, 0);
    // Reduce entries everywhere at reduce states, overlaid by transitions.
    assert_eq!(t.action_table.get(&(0, A)), Some(&Action::Shift(2)));
    assert_eq!(t.action_table.get(&(0, B)), Some(&Action::Reduce(0)));
    assert_eq!(t.action_table.get(&(0, EOF)), Some(&Action::Reduce(0)));
    assert_eq!(t.action_table.get(&(1, EOF)), Some(&Action::Accept));
    assert_eq!(t.action_table.get(&(1, A)), None);
    assert_eq!(t.action_table.get(&(2, A)), Some(&Action::Shift(2)));
    assert_eq!(t.action_table.get(&(2, B)), Some(&Action::Reduce(1)));
    assert_eq!(t.action_table.get(&(3, EOF)), None);
    assert_eq!(t.action_table.get(&(4, B)), Some(&Action::Shift(5)));
    for x in [A, B, EOF] {
        assert_eq!(t.action_table.get(&(5, x)), Some(&Action::Reduce(2)));
    }
    assert_eq!(t.action_table.len(), 11);
    assert_eq!(t.goto_table.get(&(0, S)), Some(&1));
    assert_eq!(t.goto_table.get(&(2, S)), Some(&4));
    assert_eq!(t.goto_table.len(), 2);
    assert_eq!(t.rule_table.len(), 3);
    assert_eq!(t.rule_table[0].right.len(), 0);
    assert_eq!(t.rule_table[2].right.len(), 3);
    assert_eq!(t.rule_table[2].left, S);
    assert_eq!(
        conflicts,
        vec![
            Conflict { state: 0, kind: ConflictKind::ShiftReduce },
            Conflict { state: 2, kind: ConflictKind::ShiftReduce },
        ]
    );
}

#[test]
fn building_twice_gives_same_tables() {
    let (p, c) = build();
    let (q, d) = build();
    assert_eq!(p.tables().action_table, q.tables().action_table);
    assert_eq!(p.tables().goto_table, q.tables().goto_table);
    assert_eq!(p.tables().start_state, q.tables().start_state);
    assert_eq!(format!("{:?}", p.tables().rule_table), format!("{:?}", q.tables().rule_table));
    assert_eq!(c, d);
}

#[test]
fn error_entry_for_empty_target() {
    let mut st = states();
    st.push(vec![]);
    let mut ts = transitions();
    ts.push(tr(5, Symbol::Term(A), 6));
    let (p, _) = canonical_automaton_to_lr0_parser(&st, &ts, S_EXT, S, EOF, &terms()).unwrap();
    assert_eq!(p.tables().action_table.get(&(5, A)), Some(&Action::Error));
    assert_eq!(p.tables().action_table.get(&(5, B)), Some(&Action::Reduce(2)));
    let mut p = p.input(vec![A, B, A, EOF]);
    p.run_to_completion(100);
    assert_eq!(
        p.status(),
        ParseStatus::Failed(SyntaxError::ErrorAction { state: 5, symbol: A })
    );
}

#[test]
fn reduce_reduce_conflict_is_reported() {
    let mut st = states();
    st[5].insert(0, item(S, &[Symbol::Term(B)], 1));
    let (p, conflicts) =
        canonical_automaton_to_lr0_parser(&st, &transitions(), S_EXT, S, EOF, &terms()).unwrap();
    assert_eq!(conflicts[2], Conflict { state: 5, kind: ConflictKind::ReduceReduce });
    // The least complete item of the state is the rule: `S -> a S b .` sorts
    // before `S -> b .`, as `a` sorts before `b`.
    assert_eq!(p.tables().rule_table[2].right.len(), 3);
}

#[test]
fn build_errors() {
    let mut ts = transitions();
    ts.push(tr(2, Symbol::Term(B), 9));
    assert_eq!(
        canonical_automaton_to_lr0_parser(&states(), &ts, S_EXT, S, EOF, &terms()).err(),
        Some(BuildError::UnknownState(6))
    );
    let mut st = states();
    st[0].remove(0);
    assert_eq!(
        canonical_automaton_to_lr0_parser(&st, &transitions(), S_EXT, S, EOF, &terms()).err(),
        Some(BuildError::NoStartState)
    );
    let mut st = states();
    st[3].clear();
    assert_eq!(
        canonical_automaton_to_lr0_parser(&st, &transitions(), S_EXT, S, EOF, &terms()).err(),
        Some(BuildError::NoAcceptState)
    );
}

#[test]
fn missing_goto_is_a_table_fault() {
    let mut ts = transitions();
    ts.remove(3);
    let (p, _) = canonical_automaton_to_lr0_parser(&states(), &ts, S_EXT, S, EOF, &terms()).unwrap();
    let mut p = p.input(vec![A, B, EOF]);
    p.run_to_completion(100);
    assert_eq!(
        p.status(),
        ParseStatus::Malformed(TableFault::MissingGoto { state: 2, nonterminal: S })
    );
}

#[test]
fn step_by_step_trace() {
    let (p, _) = build();
    let mut p = p.input(vec![A, B, EOF]);
    assert_eq!(p.step_once(), ParseStatus::Running);
    assert_eq!(p.stack(), &vec![0, 2]);
    assert_eq!(p.cursor(), 1);
    assert_eq!(p.step_once(), ParseStatus::Running);
    assert_eq!(p.stack(), &vec![0, 2, 4]);
    assert_eq!(p.cursor(), 1);
    let trace = p.trace();
    assert_eq!(trace.len(), 2);
    assert_eq!(trace[0].remaining, vec![A, B, EOF]);
    assert_eq!(trace[0].stack, vec![0]);
    assert_eq!(trace[0].action, Some(Action::Shift(2)));
    assert_eq!(trace[1].remaining, vec![B, EOF]);
    assert_eq!(trace[1].action, Some(Action::Reduce(1)));
    assert_eq!(p.run_to_completion(100), ParseStatus::Accepted);
    let n = p.trace().len();
    assert_eq!(p.trace()[n - 1].action, Some(Action::Accept));
    // A finished run stays finished.
    assert_eq!(p.step_once(), ParseStatus::Accepted);
    assert_eq!(p.trace().len(), n);
}

#[test]
fn step_limit_leaves_run_open() {
    let (p, _) = build();
    let mut p = p.input(vec![A, A, B, B, EOF]);
    assert_eq!(p.run_to_completion(3), ParseStatus::Running);
    assert_eq!(p.trace().len(), 3);
    assert_eq!(p.run_to_completion(0), ParseStatus::Running);
    assert_eq!(p.run_to_completion(100), ParseStatus::Accepted);
}

#[test]
fn reset_restarts_from_start_state() {
    let mut p = run(vec![A, B, EOF]);
    p.reset();
    assert_eq!(p.status(), ParseStatus::Running);
    assert_eq!(p.stack(), &vec![0]);
    assert_eq!(p.cursor(), 0);
    assert!(p.input_tokens().is_empty());
    assert!(p.trace().is_empty());
    let mut p = p.input(vec![A, A, B, B, EOF]);
    assert_eq!(p.run_to_completion(100), ParseStatus::Accepted);
}

#[test]
fn text_dumps() {
    let (p, _) = build();
    let mut p = p.input(vec![A, B, EOF]);
    assert_eq!(p.dump_remain_input(), "0 1 2");
    assert_eq!(p.dump_stack_as_latex_src(), "$ q_{0}\\leftarrow $");
    p.step_once();
    p.step_once();
    assert_eq!(p.dump_remain_input(), "1 2");
    assert_eq!(p.dump_stack_as_latex_src(), "$ q_{0}q_{2}q_{4}\\leftarrow $");
    let mut p = p.input(vec![12, 345]);
    p.step_once();
    assert_eq!(p.dump_remain_input(), "12 345");
}

#[test]
fn table_as_latex() {
    let (p, _) = build();
    let text = p.export_as_latex_src(&vec![A, B, EOF], &vec![S]);
    let lines: Vec<&str> = text.lines().collect();
    assert_eq!(lines[0], "\\begin{tabular}{llllll}");
    assert_eq!(
        lines[1],
        "& \\multicolumn{3}{c}{Action} & & \\multicolumn{1}{c}{Goto} \\\\ \\hline"
    );
    assert_eq!(lines[2], " & 0 & 1 & 2 & & 1 \\\\");
    assert_eq!(
        lines[3],
        "$ q_{0} $ & Shift( $ q_{2} $ ) & Reduce( $ r_{0} $ ) & Reduce( $ r_{0} $ ) & & $ q_{1} $ \\\\ \\hline"
    );
    assert_eq!(lines[4], "$ q_{1} $ &  &  & Accept & &  \\\\ \\hline");
    assert_eq!(lines.len(), 3 + 6 + 1);
    assert_eq!(lines[9], "\\end{tabular}");
}

#[test]
fn parsing_as_latex() {
    let (p, _) = build();
    let mut p = p.input(vec![A, B, EOF]);
    let text = p.export_parsing_as_latex_src(100);
    assert_eq!(p.status(), ParseStatus::Accepted);
    let lines: Vec<&str> = text.lines().collect();
    assert_eq!(lines[0], "\\begin{tabular}{lllll}");
    assert_eq!(
        lines[2],
        "1 & & 0 1 2 & $ q_{0}\\leftarrow $ & Shift( $ q_{2} $ ) \\\\ \\hline"
    );
    assert_eq!(
        lines[3],
        "2 & & 1 2 & $ q_{0}q_{2}\\leftarrow $ & Reduce( $ r_{1} $ ) \\\\ \\hline"
    );
    let n = lines.len();
    assert_eq!(lines[n - 2], "5 & & 2 & $ q_{0}q_{1}\\leftarrow $ & Accept \\\\ \\hline");
    assert_eq!(lines[n - 1], "\\end{tabular}");
}

#[test]
fn failed_step_as_latex() {
    let (p, _) = build();
    let mut p = p.input(vec![B]);
    let text = p.export_parsing_as_latex_src(100);
    assert!(text.contains("2 & & 1 & $ q_{0}q_{1}\\leftarrow $ & no action \\\\ \\hline"));
}

#[test]
fn rule_numbers_follow_state_content() {
    // The same automaton with its third and sixth states swapped.
    let mut st = states();
    st.swap(2, 5);
    let ts = vec![
        tr(0, Symbol::NonTerm(S), 1),
        tr(0, Symbol::Term(A), 5),
        tr(1, Symbol::Term(EOF), 3),
        tr(5, Symbol::NonTerm(S), 4),
        tr(5, Symbol::Term(A), 5),
        tr(4, Symbol::Term(B), 2),
    ];
    let (p, _) = canonical_automaton_to_lr0_parser(&st, &ts, S_EXT, S, EOF, &terms()).unwrap();
    let t = p.tables();
    assert_eq!(t.action_table.get(&(0, B)), Some(&Action::Reduce(0)));
    assert_eq!(t.action_table.get(&(5, B)), Some(&Action::Reduce(1)));
    assert_eq!(t.action_table.get(&(2, B)), Some(&Action::Reduce(2)));
    assert_eq!(t.rule_table[1].right.len(), 0);
    assert_eq!(t.rule_table[2].right.len(), 3);
    let mut p = p.input(vec![A, A, B, B, EOF]);
    assert_eq!(p.run_to_completion(100), ParseStatus::Accepted);
}

#[test]
fn equal_reduce_states_share_a_rule() {
    let mut st = states();
    st.push(vec![asb(3)]);
    let (p, _) = canonical_automaton_to_lr0_parser(&st, &transitions(), S_EXT, S, EOF, &terms()).unwrap();
    let t = p.tables();
    assert_eq!(t.rule_table.len(), 3);
    assert_eq!(t.action_table.get(&(6, A)), Some(&Action::Reduce(2)));
    assert_eq!(t.action_table.get(&(5, A)), Some(&Action::Reduce(2)));
}
