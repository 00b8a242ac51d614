//! Grammar symbols and dotted LR(0) items.
use vstd::prelude::*;

verus! {

/// A grammar symbol: a terminal or a non-terminal, each identified by a number.
#[derive(Clone, Copy, Debug, PartialEq, Eq, Structural)]
pub enum Symbol {
    Term(u32),
    NonTerm(u32),
}

/// A dotted grammar item `left -> right` with the dot before `right[dot_pos]`.
#[derive(Debug)]
pub struct LR0Item {
    pub left: u32,
    pub right: Vec<Symbol>,
    pub dot_pos: usize,
}

/// The mathematical value of an item.
pub struct ItemView {
    pub left: u32,
    pub right: Seq<Symbol>,
    pub dot_pos: nat,
}

impl View for LR0Item {
    type V = ItemView;

    open spec fn view(&self) -> ItemView {
        ItemView { left: self.left, right: self.right@, dot_pos: self.dot_pos as nat }
    }
}

/// The item whose dot stands at the end of its right-hand side.
pub open spec fn is_complete(it: ItemView) -> bool {
    it.dot_pos == it.right.len()
}

/// The augmented item `extended -> start eof` with its dot at `dot_pos`.
pub open spec fn augmented_item(extended: u32, start: u32, eof: u32, dot_pos: nat) -> ItemView {
    ItemView {
        left: extended,
        right: seq![Symbol::NonTerm(start), Symbol::Term(eof)],
        dot_pos,
    }
}

/// Whether some item of the state `s` has the value `it`.
pub open spec fn state_contains(s: Seq<LR0Item>, it: ItemView) -> bool {
    exists|i: int| 0 <= i < s.len() && #[trigger] s[i]@ == it
}

impl LR0Item {
    /// Builds the augmented item `extended -> start eof` with its dot at `dot_pos`.
    pub fn augmented(extended: u32, start: u32, eof: u32, dot_pos: usize) -> (r: LR0Item)
        requires
            dot_pos <= 2,
        ensures
            r@ == augmented_item(extended, start, eof, dot_pos as nat),
    {
        let right = vec![Symbol::NonTerm(start), Symbol::Term(eof)];
        let r = LR0Item { left: extended, right, dot_pos };
        assert(r@.right =~= seq![Symbol::NonTerm(start), Symbol::Term(eof)]);
        r
    }

    /// Whether the dot stands at the end of the right-hand side.
    pub fn is_complete(&self) -> (r: bool)
        ensures
            r == is_complete(self@),
    {
        self.dot_pos == self.right.len()
    }

    /// Whether two items have the same value.
    pub fn same_as(&self, other: &LR0Item) -> (r: bool)
        ensures
            r == (self@ == other@),
    {
        if self.left != other.left || self.dot_pos != other.dot_pos
            || self.right.len() != other.right.len() {
            return false;
        }
        let n = self.right.len();
        let mut i: usize = 0;
        while i < n
            invariant
                n == self.right.len(),
                n == other.right.len(),
                i <= n,
                forall|j: int| 0 <= j < i ==> self.right@[j] == other.right@[j],
            decreases n - i,
        {
            if self.right[i] != other.right[i] {
                return false;
            }
            i = i + 1;
        }
        assert(self.right@ =~= other.right@);
        true
    }

    /// A copy of the item.
    pub fn duplicate(&self) -> (r: LR0Item)
        ensures
            r@ == self@,
    {
        let mut right: Vec<Symbol> = Vec::new();
        let n = self.right.len();
        let mut i: usize = 0;
        while i < n
            invariant
                n == self.right.len(),
                i <= n,
                right@ =~= self.right@.take(i as int),
            decreases n - i,
        {
            right.push(self.right[i]);
            i = i + 1;
        }
        assert(right@ =~= self.right@);
        LR0Item { left: self.left, right, dot_pos: self.dot_pos }
    }
}

/// Whether the state `s` holds an item equal to `it`.
pub fn contains_item(s: &Vec<LR0Item>, it: &LR0Item) -> (r: bool)
    ensures
        r == state_contains(s@, it@),
{
    let mut i: usize = 0;
    while i < s.len()
        invariant
            i <= s.len(),
            forall|j: int| 0 <= j < i ==> s@[j]@ != it@,
        decreases s.len() - i,
    {
        if s[i].same_as(it) {
            return true;
        }
        i = i + 1;
    }
    false
}

} // verus!
