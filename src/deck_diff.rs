//! What changed between two resolved decks, copy by copy.

use vstd::prelude::*;
use crate::card::Card;
use crate::resolve::ResolvedCard;

verus! {

/// A comparison of two decks copy by copy: `unchanged` holds a card for each
/// copy that either deck has (the union of both), `added` for each copy that
/// only the new deck has, `removed` for each copy that only the old one has.
#[derive(Debug)]
pub struct DeckDiff {
    pub unchanged: Vec<Card>,
    pub added: Vec<Card>,
    pub removed: Vec<Card>,
}

/// The copies of a deck: `(i, id)` for each card id and each `i` below a
/// count listed for it. Two entries for one card id share their copies.
pub open spec fn slots(deck: Seq<ResolvedCard>) -> Set<(usize, u128)> {
    Set::new(|p: (usize, u128)| exists|k: int| 0 <= k < deck.len() && (#[trigger] deck[k]).card.id == p.1 && p.0 < deck[k].count)
}

/// `c` is, field by field, the card of an entry of `deck` with card id `id`.
pub open spec fn card_from(deck: Seq<ResolvedCard>, id: u128, c: Card) -> bool {
    exists|k: int| 0 <= k < deck.len() && (#[trigger] deck[k]).card.id == id && c.same_record(&deck[k].card)
}

/// `cards` holds one card for each copy of `copies`, each taken from `new`
/// when it has the card and from `old` otherwise.
pub open spec fn cards_for(
    cards: Seq<Card>,
    copies: Set<(usize, u128)>,
    new: Seq<ResolvedCard>,
    old: Seq<ResolvedCard>,
) -> bool {
    exists|ps: Seq<(usize, u128)>| {
        &&& ps.no_duplicates()
        &&& ps.to_set() == copies
        &&& ps.len() == cards.len()
        &&& forall|i: int| 0 <= i < ps.len() ==> (#[trigger] cards[i]).id == ps[i].1 && (if slots(new).contains(ps[i]) {
            card_from(new, ps[i].1, cards[i])
        } else {
            card_from(old, ps[i].1, cards[i])
        })
    }
}

/// What `deck_diff(old, new)` returns: `unchanged` has a card for each copy
/// of either deck, `added` for each copy that only `new` has, `removed` for
/// each copy that only `old` has.
pub open spec fn diff_result(old: Seq<ResolvedCard>, new: Seq<ResolvedCard>, d: DeckDiff) -> bool {
    &&& cards_for(d.unchanged@, slots(new).union(slots(old)), new, old)
    &&& cards_for(d.added@, slots(new).difference(slots(old)), new, old)
    &&& cards_for(d.removed@, slots(old).difference(slots(new)), new, old)
}

/// A set of copies, held in a hash set.
#[verifier::external_body]
pub struct SlotSet {
    set: hashbrown::HashSet<(usize, u128)>,
}

/// What a slot set holds.
pub uninterp spec fn slot_set_contents(s: SlotSet) -> Set<(usize, u128)>;

/// Relies on hashbrown::HashSet::new: a new set is empty.
#[verifier::external_body]
fn slot_set_new() -> (r: SlotSet)
    ensures
        slot_set_contents(r) == Set::<(usize, u128)>::empty(),
{
    SlotSet { set: hashbrown::HashSet::new() }
}

/// Relies on hashbrown::HashSet::insert: the value is in the set afterwards,
/// and nothing else changes.
#[verifier::external_body]
fn slot_set_insert(s: &mut SlotSet, v: (usize, u128))
    ensures
        slot_set_contents(*final(s)) == slot_set_contents(*old(s)).insert(v),
{
    s.set.insert(v);
}

/// Relies on hashbrown::HashSet::union: it yields each value of either set
/// once, in no given order.
#[verifier::external_body]
fn slot_set_union(a: &SlotSet, b: &SlotSet) -> (r: Vec<(usize, u128)>)
    ensures
        r@.no_duplicates(),
        r@.to_set() == slot_set_contents(*a).union(slot_set_contents(*b)),
{
    a.set.union(&b.set).copied().collect()
}

/// Relies on hashbrown::HashSet::difference: it yields each value of the
/// first set that the second lacks once, in no given order.
#[verifier::external_body]
fn slot_set_difference(a: &SlotSet, b: &SlotSet) -> (r: Vec<(usize, u128)>)
    ensures
        r@.no_duplicates(),
        r@.to_set() == slot_set_contents(*a).difference(slot_set_contents(*b)),
{
    a.set.difference(&b.set).copied().collect()
}

/// The copies of `deck`, in a slot set.
fn slots_of(deck: &Vec<ResolvedCard>) -> (r: SlotSet)
    ensures
        slot_set_contents(r) == slots(deck@),
{
    let mut set = slot_set_new();
    let mut k: usize = 0;
    while k < deck.len()
        invariant
            k <= deck@.len(),
            slot_set_contents(set) == slots(deck@.take(k as int)),
        decreases deck@.len() - k,
    {
        let id = deck[k].card.id;
        let count = deck[k].count;
        let ghost before = slot_set_contents(set);
        let mut i: usize = 0;
        while i < count
            invariant
                i <= count,
                k < deck@.len(),
                id == deck@[k as int].card.id,
                count == deck@[k as int].count,
                slot_set_contents(set) == before.union(Set::new(|p: (usize, u128)| p.1 == id && p.0 < i)),
            decreases count - i,
        {
            slot_set_insert(&mut set, (i, id));
            i = i + 1;
            assert(slot_set_contents(set) =~= before.union(Set::new(|p: (usize, u128)| p.1 == id && p.0 < i)));
        }
        proof {
            let t = deck@.take(k + 1);
            assert forall|p: (usize, u128)| slots(t).contains(p) <==> #[trigger] slot_set_contents(set).contains(p) by {
                if slots(t).contains(p) {
                    let kk = choose|kk: int| 0 <= kk < t.len() && (#[trigger] t[kk]).card.id == p.1 && p.0 < t[kk].count;
                    if kk < k {
                        assert(deck@.take(k as int)[kk] == t[kk]);
                        assert(slots(deck@.take(k as int)).contains(p));
                    }
                }
                if before.contains(p) {
                    let kk = choose|kk: int| 0 <= kk < k && (#[trigger] deck@.take(k as int)[kk]).card.id == p.1
                        && p.0 < deck@.take(k as int)[kk].count;
                    assert(t[kk] == deck@.take(k as int)[kk]);
                }
                if p.1 == id && p.0 < count {
                    assert(t[k as int] == deck@[k as int]);
                }
            }
            assert(slots(t) =~= slot_set_contents(set));
        }
        k = k + 1;
    }
    assert(deck@.take(k as int) =~= deck@);
    set
}

/// The card of the first entry of `deck` with card id `id`, if any.
fn find_card(deck: &Vec<ResolvedCard>, id: u128) -> (r: Option<Card>)
    ensures
        r matches Some(c) ==> c.id == id && card_from(deck@, id, c),
        r is None ==> forall|k: int| 0 <= k < deck@.len() ==> (#[trigger] deck@[k]).card.id != id,
{
    let mut k: usize = 0;
    while k < deck.len()
        invariant
            k <= deck@.len(),
            forall|j: int| 0 <= j < k ==> (#[trigger] deck@[j]).card.id != id,
        decreases deck@.len() - k,
    {
        if deck[k].card.id == id {
            let c = deck[k].card.clone();
            assert(deck@[k as int].card.id == id && c.same_record(&deck@[k as int].card));
            return Some(c);
        }
        k = k + 1;
    }
    None
}

/// A card for each copy of `ps`, from `new` when it has the copy and from
/// `old` otherwise.
fn cards_for_copies(
    ps: &Vec<(usize, u128)>,
    new: &Vec<ResolvedCard>,
    new_set: &SlotSet,
    old: &Vec<ResolvedCard>,
) -> (r: Vec<Card>)
    requires
        slot_set_contents(*new_set) == slots(new@),
        forall|i: int| 0 <= i < ps@.len() ==> slots(new@).contains(#[trigger] ps@[i]) || slots(old@).contains(ps@[i]),
    ensures
        r@.len() == ps@.len(),
        forall|i: int| 0 <= i < ps@.len() ==> (#[trigger] r@[i]).id == ps@[i].1 && (if slots(new@).contains(ps@[i]) {
            card_from(new@, ps@[i].1, r@[i])
        } else {
            card_from(old@, ps@[i].1, r@[i])
        }),
{
    let mut r: Vec<Card> = Vec::new();
    let mut i: usize = 0;
    while i < ps.len()
        invariant
            i <= ps@.len(),
            r@.len() == i,
            slot_set_contents(*new_set) == slots(new@),
            forall|j: int| 0 <= j < ps@.len() ==> slots(new@).contains(#[trigger] ps@[j]) || slots(old@).contains(ps@[j]),
            forall|j: int| 0 <= j < i ==> (#[trigger] r@[j]).id == ps@[j].1 && (if slots(new@).contains(ps@[j]) {
                card_from(new@, ps@[j].1, r@[j])
            } else {
                card_from(old@, ps@[j].1, r@[j])
            }),
        decreases ps@.len() - i,
    {
        let p = ps[i];
        let in_new = slot_set_has(new_set, p);
        let found = if in_new {
            find_card(new, p.1)
        } else {
            find_card(old, p.1)
        };
        assert(found is Some) by {
            if found is None {
                if in_new {
                    let k = choose|k: int| 0 <= k < new@.len() && (#[trigger] new@[k]).card.id == p.1 && p.0 < new@[k].count;
                    assert(new@[k].card.id != p.1);
                } else {
                    assert(slots(old@).contains(p));
                    let k = choose|k: int| 0 <= k < old@.len() && (#[trigger] old@[k]).card.id == p.1 && p.0 < old@[k].count;
                    assert(old@[k].card.id != p.1);
                }
            }
        }
        if let Some(c) = found {
            r.push(c);
        }
        i = i + 1;
    }
    r
}

/// Relies on hashbrown::HashSet::contains: whether the value is in the set.
#[verifier::external_body]
fn slot_set_has(s: &SlotSet, v: (usize, u128)) -> (r: bool)
    ensures
        r == slot_set_contents(*s).contains(v),
{
    s.set.contains(&v)
}

proof fn lemma_cards_for(cards: Seq<Card>, ps: Seq<(usize, u128)>, copies: Set<(usize, u128)>, new: Seq<ResolvedCard>, old: Seq<ResolvedCard>)
    requires
        ps.no_duplicates(),
        ps.to_set() == copies,
        ps.len() == cards.len(),
        forall|i: int| 0 <= i < ps.len() ==> (#[trigger] cards[i]).id == ps[i].1 && (if slots(new).contains(ps[i]) {
            card_from(new, ps[i].1, cards[i])
        } else {
            card_from(old, ps[i].1, cards[i])
        }),
    ensures
        cards_for(cards, copies, new, old),
{
}

/// Compares two resolved decks copy by copy: the `i`-th copy of a card in one
/// deck matches the `i`-th copy of the same card in the other.
pub fn deck_diff(old_deck: Vec<ResolvedCard>, new_deck: Vec<ResolvedCard>) -> (r: DeckDiff)
    ensures
        diff_result(old_deck@, new_deck@, r),
{
    let new_set = slots_of(&new_deck);
    let old_set = slots_of(&old_deck);
    let both = slot_set_union(&new_set, &old_set);
    let only_new = slot_set_difference(&new_set, &old_set);
    let only_old = slot_set_difference(&old_set, &new_set);
    assert forall|i: int| 0 <= i < both@.len() implies slots(new_deck@).contains(#[trigger] both@[i]) || slots(old_deck@).contains(both@[i]) by {
        assert(both@.to_set().contains(both@[i]));
    }
    assert forall|i: int| 0 <= i < only_new@.len() implies slots(new_deck@).contains(#[trigger] only_new@[i]) by {
        assert(only_new@.to_set().contains(only_new@[i]));
    }
    assert forall|i: int| 0 <= i < only_old@.len() implies slots(old_deck@).contains(#[trigger] only_old@[i]) && !slots(new_deck@).contains(only_old@[i]) by {
        assert(only_old@.to_set().contains(only_old@[i]));
    }
    let unchanged = cards_for_copies(&both, &new_deck, &new_set, &old_deck);
    let added = cards_for_copies(&only_new, &new_deck, &new_set, &old_deck);
    let removed = cards_for_copies(&only_old, &new_deck, &new_set, &old_deck);
    proof {
        lemma_cards_for(unchanged@, both@, slots(new_deck@).union(slots(old_deck@)), new_deck@, old_deck@);
        lemma_cards_for(added@, only_new@, slots(new_deck@).difference(slots(old_deck@)), new_deck@, old_deck@);
        lemma_cards_for(removed@, only_old@, slots(old_deck@).difference(slots(new_deck@)), new_deck@, old_deck@);
    }
    DeckDiff { unchanged, added, removed }
}

} // verus!

verus! {

proof fn lemma_no_cards_for_nothing(cards: Seq<Card>, new: Seq<ResolvedCard>, old: Seq<ResolvedCard>)
    requires
        cards_for(cards, Set::empty(), new, old),
    ensures
        cards.len() == 0,
{
    let ps = choose|ps: Seq<(usize, u128)>| {
        &&& ps.no_duplicates()
        &&& ps.to_set() == Set::<(usize, u128)>::empty()
        &&& ps.len() == cards.len()
        &&& forall|i: int| 0 <= i < ps.len() ==> (#[trigger] cards[i]).id == ps[i].1 && (if slots(new).contains(ps[i]) {
            card_from(new, ps[i].1, cards[i])
        } else {
            card_from(old, ps[i].1, cards[i])
        })
    };
    if ps.len() > 0 {
        assert(ps.to_set().contains(ps[0]));
    }
}

/// Comparing a deck with itself adds and removes nothing, and keeps a card
/// for each of its copies.
pub proof fn lemma_diff_with_itself(x: Seq<ResolvedCard>, d: DeckDiff)
    requires
        diff_result(x, x, d),
    ensures
        d.added@.len() == 0,
        d.removed@.len() == 0,
        cards_for(d.unchanged@, slots(x), x, x),
{
    assert(slots(x).difference(slots(x)) =~= Set::empty());
    assert(slots(x).union(slots(x)) =~= slots(x));
    lemma_no_cards_for_nothing(d.added@, x, x);
    lemma_no_cards_for_nothing(d.removed@, x, x);
}

} // verus!

verus! {

/// How many of `cards` are the card with id `id`.
pub open spec fn count_id(cards: Seq<Card>, id: u128) -> nat
    decreases cards.len(),
{
    if cards.len() == 0 {
        0
    } else {
        count_id(cards.drop_last(), id) + if cards.last().id == id {
            1nat
        } else {
            0nat
        }
    }
}

spec fn count_slot_id(ps: Seq<(usize, u128)>, id: u128) -> nat
    decreases ps.len(),
{
    if ps.len() == 0 {
        0
    } else {
        count_slot_id(ps.drop_last(), id) + if ps.last().1 == id {
            1nat
        } else {
            0nat
        }
    }
}

spec fn copies_of(id: u128, c: nat) -> Set<(usize, u128)> {
    Set::new(|p: (usize, u128)| p.1 == id && (p.0 as nat) < c)
}

proof fn lemma_counts_match(cards: Seq<Card>, ps: Seq<(usize, u128)>, id: u128)
    requires
        cards.len() == ps.len(),
        forall|i: int| 0 <= i < ps.len() ==> (#[trigger] cards[i]).id == ps[i].1,
    ensures
        count_id(cards, id) == count_slot_id(ps, id),
    decreases cards.len(),
{
    if cards.len() > 0 {
        let (c, p) = (cards.drop_last(), ps.drop_last());
        assert forall|i: int| 0 <= i < p.len() implies (#[trigger] c[i]).id == p[i].1 by {
            assert(c[i] == cards[i]);
        }
        lemma_counts_match(c, p, id);
        assert(cards.last() == cards[cards.len() - 1]);
    }
}

proof fn lemma_slot_count_is_len(ps: Seq<(usize, u128)>, id: u128)
    requires
        ps.no_duplicates(),
    ensures
        ps.to_set().filter(|p: (usize, u128)| p.1 == id).finite(),
        count_slot_id(ps, id) == ps.to_set().filter(|p: (usize, u128)| p.1 == id).len(),
    decreases ps.len(),
{
    broadcast use vstd::set::group_set_axioms, vstd::seq_lib::seq_to_set_is_finite;

    let f = |p: (usize, u128)| p.1 == id;
    if ps.len() == 0 {
        assert(ps.to_set().filter(f) =~= Set::empty());
    } else {
        let pre = ps.drop_last();
        let l = ps.last();
        assert(pre.no_duplicates()) by {
            assert forall|i: int, j: int| 0 <= i < pre.len() && 0 <= j < pre.len() && i != j implies pre[i] != pre[j] by {
                assert(pre[i] == ps[i] && pre[j] == ps[j]);
            }
        }
        lemma_slot_count_is_len(pre, id);
        assert(!pre.to_set().contains(l)) by {
            if pre.contains(l) {
                let j = choose|j: int| 0 <= j < pre.len() && pre[j] == l;
                assert(ps[j] == ps[ps.len() - 1]);
            }
        }
        assert(ps.to_set() =~= pre.to_set().insert(l)) by {
            assert forall|p: (usize, u128)| ps.to_set().contains(p) <==> #[trigger] pre.to_set().insert(l).contains(p) by {
                if ps.contains(p) {
                    let j = choose|j: int| 0 <= j < ps.len() && ps[j] == p;
                    if j < ps.len() - 1 {
                        assert(pre[j] == p);
                    }
                }
                if pre.contains(p) {
                    let j = choose|j: int| 0 <= j < pre.len() && pre[j] == p;
                    assert(ps[j] == p);
                }
                if p == l {
                    assert(ps[ps.len() - 1] == p);
                }
            }
        }
        if l.1 == id {
            assert(ps.to_set().filter(f) =~= pre.to_set().filter(f).insert(l));
        } else {
            assert(ps.to_set().filter(f) =~= pre.to_set().filter(f));
        }
    }
}

proof fn lemma_copies_len(id: u128, c: nat)
    requires
        c <= usize::MAX + 1,
    ensures
        copies_of(id, c).finite(),
        copies_of(id, c).len() == c,
    decreases c,
{
    broadcast use vstd::set::group_set_axioms;

    if c == 0 {
        assert(copies_of(id, c) =~= Set::empty());
    } else {
        lemma_copies_len(id, (c - 1) as nat);
        let q = ((c - 1) as usize, id);
        assert(copies_of(id, c) =~= copies_of(id, (c - 1) as nat).insert(q));
        assert(!copies_of(id, (c - 1) as nat).contains(q));
    }
}

/// Comparing a deck of distinct cards with itself keeps, in `unchanged`,
/// each card exactly as many times as its count, and no other card.
pub proof fn lemma_diff_with_itself_counts(x: Seq<ResolvedCard>, d: DeckDiff, id: u128)
    requires
        diff_result(x, x, d),
        forall|i: int, j: int| 0 <= i < j < x.len() ==> (#[trigger] x[i]).card.id != (#[trigger] x[j]).card.id,
    ensures
        forall|k: int| 0 <= k < x.len() && (#[trigger] x[k]).card.id == id ==> count_id(d.unchanged@, id) == x[k].count,
        (forall|k: int| 0 <= k < x.len() ==> (#[trigger] x[k]).card.id != id) ==> count_id(d.unchanged@, id) == 0,
{
    broadcast use vstd::set::group_set_axioms, vstd::seq_lib::seq_to_set_is_finite;

    lemma_diff_with_itself(x, d);
    let cards = d.unchanged@;
    let ps = choose|ps: Seq<(usize, u128)>| {
        &&& ps.no_duplicates()
        &&& ps.to_set() == slots(x)
        &&& ps.len() == cards.len()
        &&& forall|i: int| 0 <= i < ps.len() ==> (#[trigger] cards[i]).id == ps[i].1 && (if slots(x).contains(ps[i]) {
            card_from(x, ps[i].1, cards[i])
        } else {
            card_from(x, ps[i].1, cards[i])
        })
    };
    lemma_counts_match(cards, ps, id);
    lemma_slot_count_is_len(ps, id);
    let f = |p: (usize, u128)| p.1 == id;
    assert forall|k: int| 0 <= k < x.len() && (#[trigger] x[k]).card.id == id implies count_id(cards, id) == x[k].count by {
        assert(ps.to_set().filter(f) =~= copies_of(id, x[k].count as nat)) by {
            assert forall|p: (usize, u128)| #[trigger] ps.to_set().filter(f).contains(p) <==> copies_of(id, x[k].count as nat).contains(p) by {
                if slots(x).contains(p) && p.1 == id {
                    let kk = choose|kk: int| 0 <= kk < x.len() && (#[trigger] x[kk]).card.id == p.1 && p.0 < x[kk].count;
                    if kk < k {
                        assert(x[kk].card.id != x[k].card.id);
                    } else if k < kk {
                        assert(x[k].card.id != x[kk].card.id);
                    }
                }
                if copies_of(id, x[k].count as nat).contains(p) {
                    assert(slots(x).contains(p));
                }
            }
        }
        lemma_copies_len(id, x[k].count as nat);
    }
    if forall|k: int| 0 <= k < x.len() ==> (#[trigger] x[k]).card.id != id {
        assert(ps.to_set().filter(f) =~= Set::empty()) by {
            assert forall|p: (usize, u128)| !(#[trigger] ps.to_set().filter(f).contains(p)) by {
                if slots(x).contains(p) && p.1 == id {
                    let kk = choose|kk: int| 0 <= kk < x.len() && (#[trigger] x[kk]).card.id == p.1 && p.0 < x[kk].count;
                }
            }
        }
    }
}

} // verus!
