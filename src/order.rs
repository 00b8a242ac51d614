//! The natural order of symbols, items and states: terminals before
//! non-terminals, and sequences compared lexicographically.
use crate::grammar::{ItemView, LR0Item, Symbol};
use vstd::prelude::*;

verus! {

/// A number for each symbol that orders terminals before non-terminals.
pub open spec fn symbol_rank(s: Symbol) -> int {
    match s {
        Symbol::Term(t) => t as int,
        Symbol::NonTerm(n) => 0x1_0000_0000 + n,
    }
}

/// Lexicographic order of symbol sequences, compared from position `i` on.
pub open spec fn symbols_less_from(a: Seq<Symbol>, b: Seq<Symbol>, i: int) -> bool
    decreases a.len() - i,
{
    if i >= a.len() {
        i < b.len()
    } else if i >= b.len() {
        false
    } else if symbol_rank(a[i]) != symbol_rank(b[i]) {
        symbol_rank(a[i]) < symbol_rank(b[i])
    } else {
        symbols_less_from(a, b, i + 1)
    }
}

/// The order of items: by left side, then right side, then dot position.
pub open spec fn item_less(a: ItemView, b: ItemView) -> bool {
    a.left < b.left || (a.left == b.left && (symbols_less_from(a.right, b.right, 0) || (a.right
        == b.right && a.dot_pos < b.dot_pos)))
}

/// Lexicographic order of item sequences, compared from position `i` on.
pub open spec fn items_less_from(a: Seq<ItemView>, b: Seq<ItemView>, i: int) -> bool
    decreases a.len() - i,
{
    if i >= a.len() {
        i < b.len()
    } else if i >= b.len() {
        false
    } else if a[i] != b[i] {
        item_less(a[i], b[i])
    } else {
        items_less_from(a, b, i + 1)
    }
}

/// The value of a state: its items' values in order.
pub open spec fn state_view(s: Seq<LR0Item>) -> Seq<ItemView> {
    s.map_values(|it: LR0Item| it@)
}

/// The order of states by content.
pub open spec fn state_less(a: Seq<ItemView>, b: Seq<ItemView>) -> bool {
    items_less_from(a, b, 0)
}

proof fn lemma_symbols_order(a: Seq<Symbol>, b: Seq<Symbol>, c: Seq<Symbol>, i: int)
    requires
        0 <= i,
    ensures
        !symbols_less_from(a, a, i),
        symbols_less_from(a, b, i) && symbols_less_from(b, c, i) ==> symbols_less_from(a, c, i),
        i <= a.len() && i <= b.len() && !symbols_less_from(a, b, i) && !symbols_less_from(b, a, i) ==> a.len() == b.len() && forall|k: int|
            i <= k < a.len() ==> a[k] == b[k],
    decreases a.len() - i,
{
    if i < a.len() && i < b.len() && i < c.len() {
        lemma_symbols_order(a, b, c, i + 1);
    } else if i < a.len() && i < b.len() {
        lemma_symbols_order(a, b, c, i + 1);
    } else if i < a.len() {
        lemma_symbols_order(a, b, c, i + 1);
    }
    if !symbols_less_from(a, b, i) && !symbols_less_from(b, a, i) && i < a.len() && i < b.len() {
        match (a[i], b[i]) {
            (Symbol::Term(x), Symbol::Term(y)) => {},
            (Symbol::NonTerm(x), Symbol::NonTerm(y)) => {},
            _ => {},
        }
    }
}

/// The order of items is a strict total order.
pub proof fn lemma_item_order(a: ItemView, b: ItemView, c: ItemView)
    ensures
        !item_less(a, a),
        item_less(a, b) && item_less(b, c) ==> item_less(a, c),
        !item_less(a, b) && !item_less(b, a) ==> a == b,
{
    lemma_symbols_order(a.right, a.right, a.right, 0);
    lemma_symbols_order(a.right, b.right, c.right, 0);
    lemma_symbols_order(b.right, a.right, a.right, 0);
    if !item_less(a, b) && !item_less(b, a) {
        assert(a.right =~= b.right);
    }
}

proof fn lemma_items_order(a: Seq<ItemView>, b: Seq<ItemView>, c: Seq<ItemView>, i: int)
    requires
        0 <= i,
    ensures
        !items_less_from(a, a, i),
        items_less_from(a, b, i) && items_less_from(b, c, i) ==> items_less_from(a, c, i),
        i <= a.len() && i <= b.len() && !items_less_from(a, b, i) && !items_less_from(b, a, i) ==> a.len() == b.len() && forall|k: int|
            i <= k < a.len() ==> a[k] == b[k],
    decreases a.len() - i,
{
    if i < a.len() {
        lemma_items_order(a, b, c, i + 1);
        if i < b.len() {
            lemma_item_order(a[i], a[i], a[i]);
            lemma_item_order(b[i], a[i], a[i]);
            if i < c.len() {
                lemma_item_order(a[i], b[i], c[i]);
            }
        }
    }
}

/// The order of states is a strict total order.
pub proof fn lemma_state_order(a: Seq<ItemView>, b: Seq<ItemView>, c: Seq<ItemView>)
    ensures
        !state_less(a, a),
        state_less(a, b) && state_less(b, c) ==> state_less(a, c),
        a != b ==> state_less(a, b) || state_less(b, a),
{
    lemma_items_order(a, b, c, 0);
    if !state_less(a, b) && !state_less(b, a) {
        assert(a =~= b);
    }
}

/// Compares two symbol sequences: negative, zero or positive as `a` is below,
/// equal to or above `b`.
fn compare_symbols(a: &Vec<Symbol>, b: &Vec<Symbol>) -> (r: i8)
    ensures
        (r < 0) == symbols_less_from(a@, b@, 0),
        (r == 0) == (a@ == b@),
{
    let mut i: usize = 0;
    while i < a.len() && i < b.len()
        invariant
            i <= a@.len(),
            i <= b@.len(),
            forall|k: int| 0 <= k < i ==> a@[k] == b@[k],
            symbols_less_from(a@, b@, 0) == symbols_less_from(a@, b@, i as int),
        decreases a.len() - i,
    {
        let (x, y) = (a[i], b[i]);
        let (rx, ry): (u64, u64) = (
            match x {
                Symbol::Term(t) => t as u64,
                Symbol::NonTerm(n) => 0x1_0000_0000 + n as u64,
            },
            match y {
                Symbol::Term(t) => t as u64,
                Symbol::NonTerm(n) => 0x1_0000_0000 + n as u64,
            },
        );
        if rx != ry {
            proof {
                lemma_symbols_order(a@, b@, b@, 0);
            }
            return if rx < ry {
                -1
            } else {
                1
            };
        }
        assert(x == y) by {
            match (x, y) {
                (Symbol::Term(s), Symbol::Term(t)) => {},
                (Symbol::NonTerm(s), Symbol::NonTerm(t)) => {},
                _ => {},
            }
        }
        i = i + 1;
    }
    proof {
        lemma_symbols_order(a@, b@, b@, 0);
    }
    if a.len() < b.len() {
        -1
    } else if a.len() > b.len() {
        proof {
            lemma_symbols_order(b@, a@, a@, 0);
        }
        1
    } else {
        assert(a@ =~= b@);
        0
    }
}

/// Compares two items in their natural order.
pub fn compare_items(a: &LR0Item, b: &LR0Item) -> (r: i8)
    ensures
        (r < 0) == item_less(a@, b@),
        (r == 0) == (a@ == b@),
{
    proof {
        lemma_item_order(a@, b@, b@);
        lemma_item_order(b@, a@, a@);
    }
    if a.left != b.left {
        return if a.left < b.left {
            -1
        } else {
            1
        };
    }
    let c = compare_symbols(&a.right, &b.right);
    if c != 0 {
        return c;
    }
    if a.dot_pos < b.dot_pos {
        -1
    } else if a.dot_pos > b.dot_pos {
        1
    } else {
        0
    }
}

/// Compares two states by content: negative, zero or positive as `a` is
/// below, equal to or above `b`.
pub fn compare_states(a: &Vec<LR0Item>, b: &Vec<LR0Item>) -> (r: i8)
    ensures
        (r < 0) == state_less(state_view(a@), state_view(b@)),
        (r == 0) == (state_view(a@) == state_view(b@)),
{
    let ghost (va, vb) = (state_view(a@), state_view(b@));
    proof {
        lemma_state_order(va, vb, vb);
        lemma_state_order(vb, va, va);
    }
    let mut i: usize = 0;
    while i < a.len() && i < b.len()
        invariant
            va == state_view(a@),
            vb == state_view(b@),
            i <= a@.len(),
            i <= b@.len(),
            forall|k: int| 0 <= k < i ==> va[k] == vb[k],
            state_less(va, vb) == items_less_from(va, vb, i as int),
        decreases a.len() - i,
    {
        let c = compare_items(&a[i], &b[i]);
        if c != 0 {
            proof {
                lemma_items_order(va, vb, vb, i as int);
                lemma_items_order(vb, va, va, i as int);
                lemma_item_order(va[i as int], vb[i as int], vb[i as int]);
            }
            return c;
        }
        i = i + 1;
    }
    if a.len() < b.len() {
        -1
    } else if a.len() > b.len() {
        1
    } else {
        assert(va =~= vb);
        0
    }
}

} // verus!
