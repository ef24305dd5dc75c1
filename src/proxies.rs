//! Preparing resolved cards for a page of proxies.

use vstd::prelude::*;
use crate::card::Card;
use crate::resolve::ResolvedCard;

verus! {

/// The cards of `deck`, each entry repeated as many times as its count.
pub open spec fn expansion(deck: Seq<ResolvedCard>) -> Seq<Card>
    decreases deck.len(),
{
    if deck.len() == 0 {
        Seq::empty()
    } else {
        expansion(deck.drop_last()) + Seq::new(deck.last().count as nat, |i: int| deck.last().card)
    }
}

/// One card for each copy of each entry, in order.
pub fn expand_by_count(deck: &Vec<ResolvedCard>) -> (r: Vec<Card>)
    ensures
        r@.len() == expansion(deck@).len(),
        forall|i: int| 0 <= i < r@.len() ==> (#[trigger] r@[i]).same_record(&expansion(deck@)[i]),
{
    let mut r: Vec<Card> = Vec::new();
    let mut k: usize = 0;
    while k < deck.len()
        invariant
            k <= deck@.len(),
            r@.len() == expansion(deck@.take(k as int)).len(),
            forall|i: int| 0 <= i < r@.len() ==> (#[trigger] r@[i]).same_record(&expansion(deck@.take(k as int))[i]),
        decreases deck@.len() - k,
    {
        let ghost before = r@;
        let ghost prefix = expansion(deck@.take(k as int));
        let entry = &deck[k];
        let mut j: usize = 0;
        while j < entry.count
            invariant
                j <= entry.count,
                r@.len() == before.len() + j,
                forall|i: int| 0 <= i < before.len() ==> r@[i] == before[i],
                forall|i: int| before.len() <= i < r@.len() ==> (#[trigger] r@[i]).same_record(&entry.card),
            decreases entry.count - j,
        {
            r.push(entry.card.clone());
            j = j + 1;
        }
        proof {
            let t = deck@.take(k + 1);
            assert(t.drop_last() =~= deck@.take(k as int));
            assert(t.last() == *entry);
            let ex = expansion(t);
            assert(ex == prefix + Seq::new(entry.count as nat, |i: int| entry.card));
            assert forall|i: int| 0 <= i < r@.len() implies (#[trigger] r@[i]).same_record(&ex[i]) by {
                if i < before.len() {
                    assert(ex[i] == prefix[i]);
                    assert(r@[i] == before[i]);
                    assert(before[i].same_record(&prefix[i]));
                } else {
                    assert(ex[i] == entry.card);
                }
            }
        }
        k = k + 1;
    }
    assert(deck@.take(k as int) =~= deck@);
    r
}

/// One of `images` reads `current`.
pub open spec fn has_image(images: Seq<String>, current: Seq<char>) -> bool {
    exists|m: int| 0 <= m < images.len() && (#[trigger] images[m])@ == current
}

/// The position of the first printing among `printings` one of whose images
/// is `current`, if any.
pub fn current_printing_index(printings: &Vec<(Card, Vec<String>)>, current: &String) -> (r: Option<usize>)
    ensures
        match r {
            Some(i) => i < printings@.len() && has_image(printings@[i as int].1@, current@) && forall|j: int|
                0 <= j < i ==> !has_image((#[trigger] printings@[j]).1@, current@),
            None => forall|j: int| 0 <= j < printings@.len() ==> !has_image((#[trigger] printings@[j]).1@, current@),
        },
{
    let mut i: usize = 0;
    while i < printings.len()
        invariant
            i <= printings@.len(),
            forall|j: int| 0 <= j < i ==> !has_image((#[trigger] printings@[j]).1@, current@),
        decreases printings@.len() - i,
    {
        let images = &printings[i].1;
        let mut k: usize = 0;
        while k < images.len()
            invariant
                k <= images@.len(),
                i < printings@.len(),
                images@ == printings@[i as int].1@,
                forall|j: int| 0 <= j < i ==> !has_image((#[trigger] printings@[j]).1@, current@),
                forall|m: int| 0 <= m < k ==> (#[trigger] images@[m])@ != current@,
            decreases images@.len() - k,
        {
            if images[k] == *current {
                assert(images@[k as int]@ == current@);
                return Some(i);
            }
            k = k + 1;
        }
        i = i + 1;
    }
    None
}

} // verus!
