//! Text renderings of parser state for traces.
use vstd::prelude::*;
use vstd::string::StringExecFns;

verus! {

/// The character of a decimal digit.
pub open spec fn digit_char(d: nat) -> char {
    seq!['0', '1', '2', '3', '4', '5', '6', '7', '8', '9'][d as int]
}

/// The decimal digits of `n`, most significant first, without leading zeros.
pub open spec fn decimal(n: nat) -> Seq<char>
    decreases n,
{
    if n < 10 {
        seq![digit_char(n)]
    } else {
        decimal(n / 10).push(digit_char(n % 10))
    }
}

/// Relies on the `Display` impl of `usize` (through `ToString::to_string`):
/// an integer is written in decimal, without sign or leading zeros.
#[verifier::external_body]
pub(crate) fn decimal_text(n: usize) -> (r: String)
    ensures
        r@ == decimal(n as nat),
{
    n.to_string()
}

/// The tokens of `s` in decimal, separated by single spaces.
pub open spec fn tokens_text(s: Seq<u32>) -> Seq<char>
    decreases s.len(),
{
    if s.len() == 0 {
        Seq::empty()
    } else if s.len() == 1 {
        decimal(s[0] as nat)
    } else {
        tokens_text(s.drop_last()) + " "@ + decimal(s.last() as nat)
    }
}

/// The cells `q_{n}` of the states of a stack, bottom first.
pub open spec fn stack_cells(s: Seq<usize>) -> Seq<char>
    decreases s.len(),
{
    if s.len() == 0 {
        Seq::empty()
    } else {
        stack_cells(s.drop_last()) + "q_{"@ + decimal(s.last() as nat) + "}"@
    }
}

/// A stack as LaTeX math, its top marked with an arrow.
pub open spec fn stack_latex(s: Seq<usize>) -> Seq<char> {
    "$ "@ + stack_cells(s) + "\\leftarrow"@ + " $"@
}

/// The tokens of `s` from index `from` on, in decimal, separated by single spaces.
pub fn tokens_as_text(s: &Vec<u32>, from: usize) -> (r: String)
    requires
        from <= s@.len(),
    ensures
        r@ == tokens_text(s@.skip(from as int)),
{
    let mut r = String::from_str("");
    proof {
        reveal_strlit("");
    }
    let mut i: usize = from;
    while i < s.len()
        invariant
            from <= i <= s@.len(),
            r@ == tokens_text(s@.subrange(from as int, i as int)),
        decreases s.len() - i,
    {
        let d = decimal_text(s[i] as usize);
        let ghost done = s@.subrange(from as int, i as int);
        let ghost next = s@.subrange(from as int, i + 1);
        assert(next.drop_last() =~= done);
        if i > from {
            r.append(" ");
        }
        r.append(d.as_str());
        proof {
            if i == from {
                assert(r@ =~= decimal(s@[i as int] as nat));
            }
        }
        i = i + 1;
    }
    assert(s@.subrange(from as int, s@.len() as int) =~= s@.skip(from as int));
    r
}

/// A stack of states as LaTeX math, `$ q_{0}q_{3}\leftarrow $`.
pub fn stack_as_latex(s: &Vec<usize>) -> (r: String)
    ensures
        r@ == stack_latex(s@),
{
    let mut r = String::from_str("$ ");
    let mut i: usize = 0;
    while i < s.len()
        invariant
            i <= s@.len(),
            r@ == "$ "@ + stack_cells(s@.take(i as int)),
        decreases s.len() - i,
    {
        let d = decimal_text(s[i]);
        assert(s@.take(i + 1).drop_last() =~= s@.take(i as int));
        r.append("q_{");
        r.append(d.as_str());
        r.append("}");
        assert(r@ =~= "$ "@ + stack_cells(s@.take(i + 1)));
        i = i + 1;
    }
    assert(s@.take(s@.len() as int) =~= s@);
    r.append("\\leftarrow");
    r.append(" $");
    assert(r@ =~= stack_latex(s@));
    r
}

} // verus!
