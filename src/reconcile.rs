//! Finding how many copies were asked for of a card the catalogue returned.

use vstd::prelude::*;
use crate::ascii::folded;
use crate::card::Card;
use crate::deck_list::{lookup, DeckList};
use crate::identifier::{CollectionCardIdentifier, IdentKey};

verus! {

pub open spec fn mtgo_keys(card: Card) -> Seq<IdentKey> {
    match card.mtgo_id {
        Some(m) => seq![IdentKey::MtgoId(m)],
        None => Seq::empty(),
    }
}

pub open spec fn multiverse_keys(card: Card) -> Seq<IdentKey> {
    match card.multiverse_ids {
        Some(v) => v@.map_values(|m: usize| IdentKey::MultiverseId(m)),
        None => Seq::empty(),
    }
}

pub open spec fn oracle_keys(card: Card) -> Seq<IdentKey> {
    match card.oracle_id {
        Some(o) => seq![IdentKey::OracleId(o)],
        None => Seq::empty(),
    }
}

pub open spec fn illustration_keys(card: Card) -> Seq<IdentKey> {
    match card.illustration_id {
        Some(o) => seq![IdentKey::IllustrationId(o)],
        None => Seq::empty(),
    }
}

/// The identifiers a card answers to, in the order in which they are tried:
/// its id; collector number and set; MTGO id; each multiverse id in turn;
/// oracle id; illustration id; name and set; name.
pub open spec fn candidate_keys(card: Card) -> Seq<IdentKey> {
    seq![IdentKey::Id(card.id), IdentKey::CollectorNumberSet(folded(card.collector_number@), folded(card.set@))]
        + mtgo_keys(card) + multiverse_keys(card) + oracle_keys(card) + illustration_keys(card)
        + seq![IdentKey::NameSet(folded(card.name@), folded(card.set@)), IdentKey::Name(folded(card.name@))]
}

pub open spec fn keys_of(s: Seq<CollectionCardIdentifier>) -> Seq<IdentKey> {
    s.map_values(|c: CollectionCardIdentifier| c.key())
}

/// The count of the first of `keys` that `deck` lists.
pub open spec fn first_listed(deck: Map<IdentKey, usize>, keys: Seq<IdentKey>) -> Option<usize>
    decreases keys.len(),
{
    if keys.len() == 0 {
        None
    } else if deck.dom().contains(keys[0]) {
        Some(deck[keys[0]])
    } else {
        first_listed(deck, keys.drop_first())
    }
}

/// The count asked for of `card`: that of the first of its identifiers, in
/// the order of `candidate_keys`, that the deck lists.
pub open spec fn spec_count_for(deck: Map<IdentKey, usize>, card: Card) -> Option<usize> {
    first_listed(deck, candidate_keys(card))
}

/// Skipping keys that the deck does not list leaves the first hit unchanged.
proof fn lemma_first_listed_skip(deck: Map<IdentKey, usize>, keys: Seq<IdentKey>, i: int)
    requires
        0 <= i <= keys.len(),
        forall|j: int| 0 <= j < i ==> !deck.dom().contains(#[trigger] keys[j]),
    ensures
        first_listed(deck, keys) == first_listed(deck, keys.subrange(i, keys.len() as int)),
    decreases i,
{
    if i > 0 {
        assert(!deck.dom().contains(keys[0]));
        let rest = keys.drop_first();
        assert forall|j: int| 0 <= j < i - 1 implies !deck.dom().contains(#[trigger] rest[j]) by {
            assert(rest[j] == keys[j + 1]);
        }
        lemma_first_listed_skip(deck, rest, i - 1);
        assert(rest.subrange(i - 1, rest.len() as int) =~= keys.subrange(i, keys.len() as int));
    } else {
        assert(keys.subrange(0, keys.len() as int) =~= keys);
    }
}

/// When a card answers to several listed identifiers, the count is that of
/// the one tried first, whatever the others list.
pub proof fn lemma_count_priority(deck: Map<IdentKey, usize>, card: Card, i: int)
    requires
        0 <= i < candidate_keys(card).len(),
        deck.dom().contains(candidate_keys(card)[i]),
        forall|j: int| 0 <= j < i ==> !deck.dom().contains(#[trigger] candidate_keys(card)[j]),
    ensures
        spec_count_for(deck, card) == Some(deck[candidate_keys(card)[i]]),
{
    let keys = candidate_keys(card);
    lemma_first_listed_skip(deck, keys, i);
    assert(keys.subrange(i, keys.len() as int)[0] == keys[i]);
}

fn push_candidate(
    cands: &mut Vec<CollectionCardIdentifier>,
    ident: CollectionCardIdentifier,
)
    ensures
        final(cands)@ == old(cands)@.push(ident),
{
    cands.push(ident);
}

/// The identifiers of `card` to try, in order.
fn candidates(card: &Card) -> (r: Vec<CollectionCardIdentifier>)
    ensures
        keys_of(r@) == candidate_keys(*card),
{
    let mut r: Vec<CollectionCardIdentifier> = Vec::new();
    r.push(CollectionCardIdentifier::Id { id: card.id });
    r.push(CollectionCardIdentifier::CollectorNumberSet { collector_number: card.collector_number.clone(), set: card.set.clone() });
    let ghost head = r@;
    if let Some(m) = card.mtgo_id {
        r.push(CollectionCardIdentifier::MtgoId { mtgo_id: m });
    }
    let ghost after_mtgo = r@;
    if let Some(v) = &card.multiverse_ids {
        let mut i: usize = 0;
        while i < v.len()
            invariant
                i <= v@.len(),
                r@.len() == after_mtgo.len() + i,
                forall|j: int| 0 <= j < after_mtgo.len() ==> r@[j] == after_mtgo[j],
                forall|j: int| 0 <= j < i ==> (#[trigger] r@[after_mtgo.len() + j]) == (CollectionCardIdentifier::MultiverseId { multiverse_id: v@[j] }),
            decreases v@.len() - i,
        {
            r.push(CollectionCardIdentifier::MultiverseId { multiverse_id: v[i] });
            i = i + 1;
        }
        assert(card.multiverse_ids == Some(*v));
        assert forall|j: int| after_mtgo.len() <= j < r@.len() implies keys_of(r@)[j] == multiverse_keys(*card)[j - after_mtgo.len()] by {
            let jj = j - after_mtgo.len();
            assert(r@[after_mtgo.len() + jj] == (CollectionCardIdentifier::MultiverseId { multiverse_id: v@[jj] }));
        }
        assert(keys_of(r@) =~= keys_of(after_mtgo) + multiverse_keys(*card));
    }
    let ghost after_multiverse = r@;
    if let Some(o) = card.oracle_id {
        r.push(CollectionCardIdentifier::OracleId { oracle_id: o });
    }
    let ghost after_oracle = r@;
    if let Some(o) = card.illustration_id {
        r.push(CollectionCardIdentifier::IllustrationId { illustration_id: o });
    }
    let ghost after_illustration = r@;
    r.push(CollectionCardIdentifier::NameSet { name: card.name.clone(), set: card.set.clone() });
    r.push(CollectionCardIdentifier::Name { name: card.name.clone() });
    proof {
        let by_print = seq![IdentKey::Id(card.id), IdentKey::CollectorNumberSet(folded(card.collector_number@), folded(card.set@))];
        let by_mtgo = mtgo_keys(*card);
        let by_multiverse = multiverse_keys(*card);
        let by_oracle = oracle_keys(*card);
        let by_illustration = illustration_keys(*card);
        let by_name = seq![IdentKey::NameSet(folded(card.name@), folded(card.set@)), IdentKey::Name(folded(card.name@))];
        assert(keys_of(head) =~= by_print);
        assert(keys_of(after_mtgo) =~= by_print + by_mtgo);
        assert(keys_of(after_multiverse) =~= by_print + by_mtgo + by_multiverse);
        assert(keys_of(after_oracle) =~= by_print + by_mtgo + by_multiverse + by_oracle);
        assert(keys_of(after_illustration) =~= by_print + by_mtgo + by_multiverse + by_oracle + by_illustration);
        assert(keys_of(r@) =~= by_print + by_mtgo + by_multiverse + by_oracle + by_illustration + by_name);
    }
    r
}

/// How many copies of `card` the deck asks for, found through the first of
/// the card's identifiers that the deck lists; `None` when it lists none.
pub fn count_for(deck: &DeckList, card: &Card) -> (r: Option<usize>)
    requires
        deck.wf(),
    ensures
        r == spec_count_for(deck@, *card),
        r matches Some(c) ==> c >= 1,
{
    let cands = candidates(card);
    let ghost keys = candidate_keys(*card);
    assert(forall|j: int| 0 <= j < cands@.len() ==> #[trigger] keys[j] == cands@[j].key());
    let mut i: usize = 0;
    while i < cands.len()
        invariant
            deck.wf(),
            keys == candidate_keys(*card),
            keys.len() == cands@.len(),
            forall|j: int| 0 <= j < cands@.len() ==> #[trigger] keys[j] == cands@[j].key(),
            i <= cands@.len(),
            forall|j: int| 0 <= j < i ==> !deck@.dom().contains(#[trigger] keys[j]),
        decreases cands@.len() - i,
    {
        let found = deck.get(&cands[i]);
        if let Some(c) = found {
            proof {
                lemma_count_priority(deck@, *card, i as int);
            }
            return Some(c);
        }
        i = i + 1;
    }
    proof {
        lemma_first_listed_skip(deck@, keys, i as int);
    }
    None
}

} // verus!
