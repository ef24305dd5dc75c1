//! The display order of cards: tokens after the rest, then by name.

use vstd::prelude::*;
use core::cmp::Ordering;
use crate::card::{Card, Token};
use crate::resolve::ResolvedCard;

verus! {

/// Lexicographic order of character sequences, by code point.
pub open spec fn lex_cmp(a: Seq<char>, b: Seq<char>) -> Ordering
    decreases a.len(),
{
    if a.len() == 0 {
        if b.len() == 0 {
            Ordering::Equal
        } else {
            Ordering::Less
        }
    } else if b.len() == 0 {
        Ordering::Greater
    } else if (a[0] as u32) < (b[0] as u32) {
        Ordering::Less
    } else if (a[0] as u32) > (b[0] as u32) {
        Ordering::Greater
    } else {
        lex_cmp(a.drop_first(), b.drop_first())
    }
}

/// Tokens come after other cards; within each group, cards go by name.
pub open spec fn card_order(a: Card, b: Card) -> Ordering {
    if a.spec_is_token() && !b.spec_is_token() {
        Ordering::Greater
    } else if !a.spec_is_token() && b.spec_is_token() {
        Ordering::Less
    } else {
        lex_cmp(a.name@, b.name@)
    }
}

fn compare_names(a: &str, b: &str) -> (r: Ordering)
    ensures
        r == lex_cmp(a@, b@),
{
    let n = a.unicode_len();
    let m = b.unicode_len();
    let mut i: usize = 0;
    assert(a@.skip(0) =~= a@);
    assert(b@.skip(0) =~= b@);
    while i < n && i < m
        invariant
            n == a@.len(),
            m == b@.len(),
            i <= n,
            i <= m,
            lex_cmp(a@, b@) == lex_cmp(a@.skip(i as int), b@.skip(i as int)),
        decreases n - i,
    {
        let x = a.get_char(i) as u32;
        let y = b.get_char(i) as u32;
        proof {
            assert(a@.skip(i as int)[0] == a@[i as int]);
            assert(b@.skip(i as int)[0] == b@[i as int]);
        }
        if x < y {
            return Ordering::Less;
        }
        if x > y {
            return Ordering::Greater;
        }
        proof {
            assert(a@.skip(i as int).drop_first() =~= a@.skip(i + 1));
            assert(b@.skip(i as int).drop_first() =~= b@.skip(i + 1));
        }
        i = i + 1;
    }
    if i == n {
        if i == m {
            Ordering::Equal
        } else {
            Ordering::Less
        }
    } else {
        Ordering::Greater
    }
}

impl Card {
    /// The display order of two cards.
    pub fn compare(&self, other: &Card) -> (r: Ordering)
        ensures
            r == card_order(*self, *other),
    {
        let a = self.is_token();
        let b = other.is_token();
        if a && !b {
            Ordering::Greater
        } else if !a && b {
            Ordering::Less
        } else {
            compare_names(self.name.as_str(), other.name.as_str())
        }
    }
}

impl ResolvedCard {
    /// Resolved cards go in the order of their cards.
    pub fn compare(&self, other: &ResolvedCard) -> (r: Ordering)
        ensures
            r == card_order(self.card, other.card),
    {
        self.card.compare(&other.card)
    }
}

} // verus!
