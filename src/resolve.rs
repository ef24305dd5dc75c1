//! The decisions of a deck resolution. The caller performs the requests that
//! these steps ask for and hands back what the catalogue answered.

use vstd::prelude::*;
use crate::api::{all_cards, card_of, cards_of, is_first_non_card};
use crate::api_classes::ApiObject;
use crate::card::{Card, RelatedCard, Token};
use crate::deck_list::{lookup, DeckList};
use crate::identifier::{CollectionCardIdentifier, IdentKey};
use crate::reconcile::{count_for, spec_count_for};

verus! {

/// A card of a resolved deck, with the number of copies asked for.
#[derive(Debug)]
pub struct ResolvedCard {
    pub count: usize,
    pub card: Card,
}

/// A resolution failed on an answer of the wrong kind.
#[derive(Debug)]
pub enum CardParseError {
    ObjectNotCard(ApiObject),
    ObjectNotList(ApiObject),
}

/// The copies asked for of `card`; one when the deck lists none of its
/// identifiers.
pub open spec fn count_or_one(deck: Map<IdentKey, usize>, card: Card) -> usize {
    match spec_count_for(deck, card) {
        Some(c) => c,
        None => 1,
    }
}

pub open spec fn resolved_with_counts(deck: Map<IdentKey, usize>, cards: Seq<Card>) -> Seq<ResolvedCard> {
    cards.map_values(|c: Card| ResolvedCard { count: count_or_one(deck, c), card: c })
}

/// Pairs each card with the number of copies the deck asks for.
pub fn get_counts_for_cards(deck: &DeckList, cards: Vec<Card>) -> (r: Vec<ResolvedCard>)
    requires
        deck.wf(),
    ensures
        r@ == resolved_with_counts(deck@, cards@),
        forall|i: int| 0 <= i < r@.len() ==> (#[trigger] r@[i]).count >= 1,
{
    let ghost all = cards@;
    let n = cards.len();
    let mut rest = cards;
    let mut r: Vec<ResolvedCard> = Vec::new();
    let mut i: usize = 0;
    while rest.len() > 0
        invariant
            deck.wf(),
            all.len() == n,
            i + rest@.len() == n,
            rest@ == all.skip(i as int),
            r@ == resolved_with_counts(deck@, all.take(i as int)),
            forall|j: int| 0 <= j < r@.len() ==> (#[trigger] r@[j]).count >= 1,
        decreases rest@.len(),
    {
        let card = rest.remove(0);
        assert(card == all[i as int]);
        let count = match count_for(deck, &card) {
            Some(c) => c,
            None => 1,
        };
        r.push(ResolvedCard { count, card });
        i = i + 1;
        assert(rest@ =~= all.skip(i as int));
        assert(r@ =~= resolved_with_counts(deck@, all.take(i as int)));
    }
    assert(all.take(i as int) =~= all);
    r
}

/// `m` with every token among `parts` listed once, by id.
pub open spec fn with_token_parts(m: Map<IdentKey, usize>, parts: Seq<RelatedCard>) -> Map<IdentKey, usize>
    decreases parts.len(),
{
    if parts.len() == 0 {
        m
    } else {
        let before = with_token_parts(m, parts.drop_last());
        if parts.last().spec_is_token() {
            before.insert(IdentKey::Id(parts.last().id), 1)
        } else {
            before
        }
    }
}

/// `m` with the tokens that `card` refers to.
pub open spec fn with_card_tokens(m: Map<IdentKey, usize>, card: Card) -> Map<IdentKey, usize> {
    match card.all_parts {
        Some(parts) => with_token_parts(m, parts@),
        None => m,
    }
}

/// `m` with the tokens that any of `cards` refers to.
pub open spec fn with_cards_tokens(m: Map<IdentKey, usize>, cards: Seq<Card>) -> Map<IdentKey, usize>
    decreases cards.len(),
{
    if cards.len() == 0 {
        m
    } else {
        with_card_tokens(with_cards_tokens(m, cards.drop_last()), cards.last())
    }
}

/// Whether token `i` of `s` is kept: it has an oracle id, and no later token
/// has the same one. Tokens without an oracle id are dropped.
pub open spec fn kept_token(s: Seq<ResolvedCard>, i: int) -> bool {
    &&& s[i].card.oracle_id is Some
    &&& forall|j: int| i < j < s.len() ==> (#[trigger] s[j]).card.oracle_id != s[i].card.oracle_id
}

/// The tokens of `s` that are kept, in order.
pub open spec fn dedup_tokens(s: Seq<ResolvedCard>) -> Seq<ResolvedCard>
    decreases s.len(),
{
    if s.len() == 0 {
        Seq::empty()
    } else {
        (if kept_token(s, 0) { seq![s[0]] } else { Seq::empty() }) + dedup_tokens(s.drop_first())
    }
}

/// Oracle ids mapped to positions, held in a hash table.
#[verifier::external_body]
pub struct OracleTable {
    map: hashbrown::HashMap<u128, usize>,
}

/// What an oracle table holds.
pub uninterp spec fn oracle_table_contents(t: OracleTable) -> Map<u128, usize>;

/// Relies on hashbrown::HashMap::new: a new map is empty.
#[verifier::external_body]
fn oracle_table_new() -> (r: OracleTable)
    ensures
        oracle_table_contents(r).dom() == Set::<u128>::empty(),
{
    OracleTable { map: hashbrown::HashMap::new() }
}

/// Relies on hashbrown::HashMap::insert: the key maps to the new value
/// afterwards, and no other key changes.
#[verifier::external_body]
fn oracle_table_insert(t: &mut OracleTable, k: u128, v: usize)
    ensures
        oracle_table_contents(*final(t)) == oracle_table_contents(*old(t)).insert(k, v),
{
    t.map.insert(k, v);
}

/// Relies on hashbrown::HashMap::values: it yields the value of every key,
/// in no given order.
#[verifier::external_body]
fn oracle_table_values(t: &OracleTable) -> (r: Vec<usize>)
    ensures
        r@.to_set() == oracle_table_contents(*t).values(),
{
    t.map.values().copied().collect()
}

/// Which positions of `tokens` hold the last token with each oracle id.
fn kept_positions(tokens: &Vec<ResolvedCard>) -> (r: Vec<bool>)
    ensures
        r@.len() == tokens@.len(),
        forall|i: int| 0 <= i < r@.len() ==> r@[i] == kept_token(tokens@, i),
{
    let s = Ghost(tokens@);
    let n = tokens.len();
    let mut table = oracle_table_new();
    assert(oracle_table_contents(table) =~= Map::<u128, usize>::empty());
    let mut i: usize = 0;
    while i < n
        invariant
            n == s@.len(),
            s@ == tokens@,
            i <= n,
            forall|o: u128| #[trigger] oracle_table_contents(table).dom().contains(o) <==> exists|j: int|
                0 <= j < i && s@[j].card.oracle_id == Some(o),
            forall|o: u128| #[trigger] oracle_table_contents(table).dom().contains(o) ==> {
                let j = oracle_table_contents(table)[o] as int;
                &&& 0 <= j < i
                &&& s@[j].card.oracle_id == Some(o)
                &&& forall|jj: int| j < jj < i ==> (#[trigger] s@[jj]).card.oracle_id != Some(o)
            },
        decreases n - i,
    {
        if let Some(o) = tokens[i].card.oracle_id {
            oracle_table_insert(&mut table, o, i);
        }
        i = i + 1;
    }
    let values = oracle_table_values(&table);
    proof {
        assert forall|v: usize| values@.contains(v) <==> exists|o: u128| #[trigger] oracle_table_contents(table).dom().contains(o)
            && oracle_table_contents(table)[o] == v by {
            assert(values@.contains(v) <==> values@.to_set().contains(v));
            assert(oracle_table_contents(table).values().contains(v) <==> oracle_table_contents(table).contains_value(v));
        }
    }
    let mut keep: Vec<bool> = Vec::new();
    let mut k: usize = 0;
    while k < n
        invariant
            keep@.len() == k,
            k <= n,
            forall|j: int| 0 <= j < k ==> !(#[trigger] keep@[j]),
        decreases n - k,
    {
        keep.push(false);
        k = k + 1;
    }
    let mut m: usize = 0;
    while m < values.len()
        invariant
            keep@.len() == n,
            m <= values@.len(),
            forall|j: int| 0 <= j < n ==> (#[trigger] keep@[j] <==> exists|mm: int| 0 <= mm < m && values@[mm] == j),
            forall|v: usize| values@.contains(v) <==> exists|o: u128| #[trigger] oracle_table_contents(table).dom().contains(o)
                && oracle_table_contents(table)[o] == v,
            forall|o: u128| #[trigger] oracle_table_contents(table).dom().contains(o) ==> {
                let j = oracle_table_contents(table)[o] as int;
                &&& 0 <= j < n
            },
        decreases values@.len() - m,
    {
        let v = values[m];
        assert(values@.contains(v));
        if v < n {
            keep.set(v, true);
        }
        m = m + 1;
    }
    proof {
        assert forall|i: int| 0 <= i < n implies keep@[i] == kept_token(s@, i) by {
            if keep@[i] {
                let mm = choose|mm: int| 0 <= mm < m && values@[mm] == i;
                assert(values@.contains(values@[mm]));
                let o = choose|o: u128| #[trigger] oracle_table_contents(table).dom().contains(o)
                    && oracle_table_contents(table)[o] == values@[mm];
                assert(kept_token(s@, i));
            }
            if kept_token(s@, i) {
                let o = s@[i].card.oracle_id.unwrap();
                assert(oracle_table_contents(table).dom().contains(o));
                let j = oracle_table_contents(table)[o] as int;
                if j != i {
                    assert(s@[j].card.oracle_id == Some(o));
                }
                assert(j == i);
                assert(values@.contains(i as usize));
                let mm = choose|mm: int| 0 <= mm < values@.len() && values@[mm] == i as usize;
                assert(keep@[i]);
            }
        }
    }
    keep
}

/// The objects of a list.
pub open spec fn list_data(o: ApiObject) -> Seq<ApiObject> {
    match o {
        ApiObject::List(l) => l.data@,
        _ => Seq::empty(),
    }
}

/// The cards of a list of cards.
pub open spec fn list_cards(o: ApiObject) -> Seq<Card> {
    list_data(o).map_values(|x: ApiObject| card_of(x))
}

/// The identifiers that a list reports as matching no card.
pub open spec fn list_not_found(o: ApiObject) -> Seq<CollectionCardIdentifier> {
    match o {
        ApiObject::List(l) => match l.not_found {
            Some(v) => v@,
            None => Seq::empty(),
        },
        _ => Seq::empty(),
    }
}

/// An answer that is a list of cards only.
pub open spec fn is_card_list(a: ApiObject) -> bool {
    a is List && all_cards(list_data(a))
}

/// The resolved cards that a run of collection answers gives, answer after
/// answer.
pub open spec fn batch_resolved(deck: Map<IdentKey, usize>, answers: Seq<ApiObject>) -> Seq<ResolvedCard>
    decreases answers.len(),
{
    if answers.len() == 0 {
        Seq::empty()
    } else {
        batch_resolved(deck, answers.drop_last()) + resolved_with_counts(deck, list_cards(answers.last()))
    }
}

/// How many cards a run of collection answers holds.
pub open spec fn batch_card_total(answers: Seq<ApiObject>) -> nat
    decreases answers.len(),
{
    if answers.len() == 0 {
        0
    } else {
        batch_card_total(answers.drop_last()) + list_data(answers.last()).len()
    }
}

/// The identifiers that a run of collection answers reports unmatched.
pub open spec fn batch_not_found(answers: Seq<ApiObject>) -> Seq<CollectionCardIdentifier>
    decreases answers.len(),
{
    if answers.len() == 0 {
        Seq::empty()
    } else {
        batch_not_found(answers.drop_last()) + list_not_found(answers.last())
    }
}

/// `m` with the tokens of the cards of a run of collection answers.
pub open spec fn batch_tokens(m: Map<IdentKey, usize>, answers: Seq<ApiObject>) -> Map<IdentKey, usize>
    decreases answers.len(),
{
    if answers.len() == 0 {
        m
    } else {
        with_cards_tokens(batch_tokens(m, answers.drop_last()), list_cards(answers.last()))
    }
}

/// The resolved cards that single lookups give: the card of answer `i`,
/// with the count listed for identifier `i`, or one.
pub open spec fn lookup_resolved(
    deck: Map<IdentKey, usize>,
    ids: Seq<CollectionCardIdentifier>,
    answers: Seq<ApiObject>,
) -> Seq<ResolvedCard> {
    Seq::new(
        answers.len(),
        |i: int|
            ResolvedCard {
                count: match lookup(deck, ids[i].key()) {
                    Some(n) => n,
                    None => 1,
                },
                card: card_of(answers[i]),
            },
    )
}

/// `m` with the tokens of the cards of single lookup answers.
pub open spec fn lookup_tokens(m: Map<IdentKey, usize>, answers: Seq<ApiObject>) -> Map<IdentKey, usize>
    decreases answers.len(),
{
    if answers.len() == 0 {
        m
    } else {
        with_card_tokens(lookup_tokens(m, answers.drop_last()), card_of(answers.last()))
    }
}

proof fn lemma_batch_resolved_len(deck: Map<IdentKey, usize>, answers: Seq<ApiObject>)
    ensures
        batch_resolved(deck, answers).len() == batch_card_total(answers),
    decreases answers.len(),
{
    if answers.len() > 0 {
        lemma_batch_resolved_len(deck, answers.drop_last());
    }
}

/// The state of one resolution: the deck asked for, what has been resolved,
/// what the collection requests did not match, and the tokens to fetch.
pub struct Resolution {
    pub deck: DeckList,
    pub fetch_related_tokens: bool,
    pub resolved: Vec<ResolvedCard>,
    pub not_found: Vec<CollectionCardIdentifier>,
    pub related_tokens: DeckList,
}

impl Resolution {
    /// The deck lists are well formed, and every resolved card counts at
    /// least one copy.
    pub open spec fn wf(&self) -> bool {
        &&& self.deck.wf()
        &&& self.related_tokens.wf()
        &&& forall|i: int| 0 <= i < self.resolved@.len() ==> (#[trigger] self.resolved@[i]).count >= 1
    }

    /// A resolution of `deck` with nothing fetched yet.
    pub fn new(deck: DeckList, fetch_related_tokens: bool) -> (r: Resolution)
        requires
            deck.wf(),
        ensures
            r.wf(),
            r.deck == deck,
            r.fetch_related_tokens == fetch_related_tokens,
            r.resolved@.len() == 0,
            r.not_found@.len() == 0,
            r.related_tokens@ == Map::<IdentKey, usize>::empty(),
    {
        Resolution {
            deck,
            fetch_related_tokens,
            resolved: Vec::new(),
            not_found: Vec::new(),
            related_tokens: DeckList::new(),
        }
    }

    fn note_tokens(&mut self, card: &Card)
        requires
            old(self).wf(),
        ensures
            final(self).wf(),
            final(self).deck == old(self).deck,
            final(self).fetch_related_tokens == old(self).fetch_related_tokens,
            final(self).resolved == old(self).resolved,
            final(self).not_found == old(self).not_found,
            final(self).related_tokens@ == if old(self).fetch_related_tokens {
                with_card_tokens(old(self).related_tokens@, *card)
            } else {
                old(self).related_tokens@
            },
    {
        if !self.fetch_related_tokens {
            return;
        }
        if let Some(parts) = &card.all_parts {
            let ghost start = self.related_tokens@;
            let mut i: usize = 0;
            while i < parts.len()
                invariant
                    self.wf(),
                    self.deck == old(self).deck,
                    self.fetch_related_tokens == old(self).fetch_related_tokens,
                    self.resolved == old(self).resolved,
                    self.not_found == old(self).not_found,
                    start == old(self).related_tokens@,
                    i <= parts@.len(),
                    self.related_tokens@ == with_token_parts(start, parts@.take(i as int)),
                decreases parts@.len() - i,
            {
                let part = &parts[i];
                proof {
                    assert(parts@.take(i + 1).drop_last() =~= parts@.take(i as int));
                }
                if part.is_token() {
                    self.related_tokens.insert(CollectionCardIdentifier::Id { id: part.id }, 1);
                }
                i = i + 1;
            }
            assert(parts@.take(i as int) =~= parts@);
        }
    }

    /// Takes in the answer to one collection request: its cards join the
    /// resolved ones with their counts, the identifiers it did not match
    /// wait for single lookups, and the tokens its cards refer to are noted.
    /// Anything but a list of cards is an error.
    pub fn absorb_batch(&mut self, response: ApiObject) -> (r: Result<(), CardParseError>)
        requires
            old(self).wf(),
        ensures
            final(self).wf(),
            final(self).deck == old(self).deck,
            final(self).fetch_related_tokens == old(self).fetch_related_tokens,
            !(response is List) ==> r == Err::<(), CardParseError>(CardParseError::ObjectNotList(response)),
            response is List ==> (r is Ok <==> all_cards(list_data(response))),
            response is List && !all_cards(list_data(response)) ==> (r matches Err(CardParseError::ObjectNotCard(o))
                && is_first_non_card(list_data(response), o)),
            r is Ok ==> final(self).resolved@ == old(self).resolved@ + resolved_with_counts(
                old(self).deck@,
                list_cards(response),
            ),
            r is Ok ==> final(self).not_found@ == old(self).not_found@ + list_not_found(response),
            r is Ok ==> final(self).related_tokens@ == if old(self).fetch_related_tokens {
                with_cards_tokens(old(self).related_tokens@, list_cards(response))
            } else {
                old(self).related_tokens@
            },
    {
        let list = match response {
            ApiObject::List(list) => list,
            other => {
                return Err(CardParseError::ObjectNotList(other));
            },
        };
        let cards = match cards_of(list.data) {
            Ok(cards) => cards,
            Err(o) => {
                return Err(CardParseError::ObjectNotCard(o));
            },
        };
        if let Some(mut missing) = list.not_found {
            self.not_found.append(&mut missing);
        }
        let ghost tokens_before = self.related_tokens@;
        let ghost missing_now = self.not_found@;
        let mut i: usize = 0;
        while i < cards.len()
            invariant
                self.wf(),
                self.deck == old(self).deck,
                self.fetch_related_tokens == old(self).fetch_related_tokens,
                self.resolved == old(self).resolved,
                tokens_before == old(self).related_tokens@,
                self.not_found@ == missing_now,
                i <= cards@.len(),
                self.related_tokens@ == if old(self).fetch_related_tokens {
                    with_cards_tokens(tokens_before, cards@.take(i as int))
                } else {
                    tokens_before
                },
            decreases cards@.len() - i,
        {
            proof {
                assert(cards@.take(i + 1).drop_last() =~= cards@.take(i as int));
            }
            self.note_tokens(&cards[i]);
            i = i + 1;
        }
        assert(cards@.take(i as int) =~= cards@);
        let mut counted = get_counts_for_cards(&self.deck, cards);
        let ghost before = self.resolved@;
        let ghost added = counted@;
        self.resolved.append(&mut counted);
        assert forall|i: int| 0 <= i < self.resolved@.len() implies (#[trigger] self.resolved@[i]).count >= 1 by {
            if i >= before.len() {
                assert(self.resolved@[i] == added[i - before.len()]);
            }
        }
        Ok(())
    }

    /// Takes in the answer to the single lookup of `ident`, one that the
    /// collection requests did not match: the card joins the resolved ones
    /// with the count listed for `ident`, or one if none is. Anything but a
    /// card is an error.
    pub fn absorb_lookup(&mut self, ident: &CollectionCardIdentifier, response: ApiObject) -> (r: Result<(), CardParseError>)
        requires
            old(self).wf(),
        ensures
            final(self).wf(),
            final(self).deck == old(self).deck,
            final(self).fetch_related_tokens == old(self).fetch_related_tokens,
            final(self).not_found == old(self).not_found,
            match response {
                ApiObject::Card(c) => {
                    &&& r is Ok
                    &&& final(self).resolved@ == old(self).resolved@.push(ResolvedCard {
                        count: match lookup(old(self).deck@, ident.key()) {
                            Some(n) => n,
                            None => 1,
                        },
                        card: c,
                    })
                    &&& final(self).related_tokens@ == if old(self).fetch_related_tokens {
                        with_card_tokens(old(self).related_tokens@, c)
                    } else {
                        old(self).related_tokens@
                    }
                },
                _ => r == Err::<(), CardParseError>(CardParseError::ObjectNotCard(response)),
            },
    {
        let card = match response {
            ApiObject::Card(card) => card,
            other => {
                return Err(CardParseError::ObjectNotCard(other));
            },
        };
        let count = match self.deck.get(ident) {
            Some(n) => n,
            None => 1,
        };
        self.note_tokens(&card);
        self.resolved.push(ResolvedCard { count, card });
        Ok(())
    }

    /// Takes in the answers to all collection requests, in the order they
    /// came. All succeed exactly when every answer is a list of cards; then
    /// each card of each answer is resolved once, with its count, and every
    /// identifier the answers report unmatched waits for a single lookup.
    pub fn absorb_batches(&mut self, answers: Vec<ApiObject>) -> (r: Result<(), CardParseError>)
        requires
            old(self).wf(),
        ensures
            final(self).wf(),
            final(self).deck == old(self).deck,
            final(self).fetch_related_tokens == old(self).fetch_related_tokens,
            r is Ok <==> forall|i: int| 0 <= i < answers@.len() ==> is_card_list(#[trigger] answers@[i]),
            r is Ok ==> final(self).resolved@ == old(self).resolved@ + batch_resolved(old(self).deck@, answers@),
            r is Ok ==> final(self).resolved@.len() == old(self).resolved@.len() + batch_card_total(answers@),
            r is Ok ==> final(self).not_found@ == old(self).not_found@ + batch_not_found(answers@),
            r is Ok ==> final(self).related_tokens@ == if old(self).fetch_related_tokens {
                batch_tokens(old(self).related_tokens@, answers@)
            } else {
                old(self).related_tokens@
            },
    {
        let ghost all = answers@;
        let n = answers.len();
        let mut rest = answers;
        let mut i: usize = 0;
        while rest.len() > 0
            invariant
                self.wf(),
                self.deck == old(self).deck,
                self.fetch_related_tokens == old(self).fetch_related_tokens,
                all == answers@,
                all.len() == n,
                i + rest@.len() == n,
                rest@ == all.skip(i as int),
                forall|j: int| 0 <= j < i ==> is_card_list(#[trigger] all[j]),
                self.resolved@ == old(self).resolved@ + batch_resolved(old(self).deck@, all.take(i as int)),
                self.not_found@ == old(self).not_found@ + batch_not_found(all.take(i as int)),
                self.related_tokens@ == if old(self).fetch_related_tokens {
                    batch_tokens(old(self).related_tokens@, all.take(i as int))
                } else {
                    old(self).related_tokens@
                },
            decreases rest@.len(),
        {
            let answer = rest.remove(0);
            proof {
                assert(answer == all[i as int]);
                assert(all.take(i + 1).drop_last() =~= all.take(i as int));
                assert(all.take(i + 1).last() == answer);
            }
            let step = self.absorb_batch(answer);
            if step.is_err() {
                assert(!is_card_list(all[i as int]));
                return step;
            }
            i = i + 1;
            proof {
                assert(rest@ =~= all.skip(i as int));
                assert(self.resolved@ =~= old(self).resolved@ + batch_resolved(old(self).deck@, all.take(i as int)));
                assert(self.not_found@ =~= old(self).not_found@ + batch_not_found(all.take(i as int)));
            }
        }
        proof {
            assert(all.take(i as int) =~= all);
            lemma_batch_resolved_len(old(self).deck@, all);
        }
        Ok(())
    }

    /// Takes in the answers to the single lookups of the unmatched
    /// identifiers, answer `i` for identifier `i`. All succeed exactly when
    /// every answer is a card; then each identifier adds exactly one resolved
    /// card.
    pub fn absorb_lookups(&mut self, answers: Vec<ApiObject>) -> (r: Result<(), CardParseError>)
        requires
            old(self).wf(),
            answers@.len() == old(self).not_found@.len(),
        ensures
            final(self).wf(),
            final(self).deck == old(self).deck,
            final(self).fetch_related_tokens == old(self).fetch_related_tokens,
            final(self).not_found == old(self).not_found,
            r is Ok <==> forall|i: int| 0 <= i < answers@.len() ==> (#[trigger] answers@[i]) is Card,
            r is Ok ==> final(self).resolved@ == old(self).resolved@ + lookup_resolved(
                old(self).deck@,
                old(self).not_found@,
                answers@,
            ),
            r is Ok ==> final(self).resolved@.len() == old(self).resolved@.len() + old(self).not_found@.len(),
            r is Ok ==> final(self).related_tokens@ == if old(self).fetch_related_tokens {
                lookup_tokens(old(self).related_tokens@, answers@)
            } else {
                old(self).related_tokens@
            },
    {
        let ghost all = answers@;
        let n = answers.len();
        let mut rest = answers;
        let mut i: usize = 0;
        while rest.len() > 0
            invariant
                self.wf(),
                self.deck == old(self).deck,
                self.fetch_related_tokens == old(self).fetch_related_tokens,
                self.not_found == old(self).not_found,
                all == answers@,
                all.len() == n,
                n == self.not_found@.len(),
                i + rest@.len() == n,
                rest@ == all.skip(i as int),
                forall|j: int| 0 <= j < i ==> (#[trigger] all[j]) is Card,
                self.resolved@ == old(self).resolved@ + lookup_resolved(
                    old(self).deck@,
                    old(self).not_found@,
                    all.take(i as int),
                ),
                self.related_tokens@ == if old(self).fetch_related_tokens {
                    lookup_tokens(old(self).related_tokens@, all.take(i as int))
                } else {
                    old(self).related_tokens@
                },
            decreases rest@.len(),
        {
            let answer = rest.remove(0);
            proof {
                assert(answer == all[i as int]);
                assert(all.take(i + 1).drop_last() =~= all.take(i as int));
                assert(all.take(i + 1).last() == answer);
            }
            let ident = self.not_found[i].clone();
            let step = self.absorb_lookup(&ident, answer);
            if step.is_err() {
                assert(!(all[i as int] is Card));
                return step;
            }
            i = i + 1;
            proof {
                assert(rest@ =~= all.skip(i as int));
                assert(self.resolved@ =~= old(self).resolved@ + lookup_resolved(
                    old(self).deck@,
                    old(self).not_found@,
                    all.take(i as int),
                ));
            }
        }
        assert(all.take(i as int) =~= all);
        Ok(())
    }

    /// The tokens to fetch in a second resolution, if tokens are wanted and
    /// any were noted; they are taken out of the state.
    pub fn take_token_request(&mut self) -> (r: Option<DeckList>)
        requires
            old(self).wf(),
        ensures
            final(self).wf(),
            final(self).deck == old(self).deck,
            final(self).fetch_related_tokens == old(self).fetch_related_tokens,
            final(self).resolved == old(self).resolved,
            final(self).not_found == old(self).not_found,
            final(self).related_tokens@ == Map::<IdentKey, usize>::empty(),
            match r {
                Some(d) => d.wf() && old(self).fetch_related_tokens && d@ == old(self).related_tokens@
                    && d@ != Map::<IdentKey, usize>::empty(),
                None => !old(self).fetch_related_tokens || old(self).related_tokens@ == Map::<IdentKey, usize>::empty(),
            },
    {
        let mut taken = DeckList::new();
        core::mem::swap(&mut taken, &mut self.related_tokens);
        if self.fetch_related_tokens && !taken.is_empty() {
            Some(taken)
        } else {
            None
        }
    }

    /// Takes in the resolved tokens: the last of them with each oracle id is
    /// kept, those without an oracle id are dropped.
    pub fn absorb_tokens(&mut self, tokens: Vec<ResolvedCard>)
        requires
            old(self).wf(),
            forall|i: int| 0 <= i < tokens@.len() ==> (#[trigger] tokens@[i]).count >= 1,
        ensures
            final(self).wf(),
            final(self).deck == old(self).deck,
            final(self).fetch_related_tokens == old(self).fetch_related_tokens,
            final(self).not_found == old(self).not_found,
            final(self).related_tokens == old(self).related_tokens,
            final(self).resolved@ == old(self).resolved@ + dedup_tokens(tokens@),
    {
        let keep = kept_positions(&tokens);
        let ghost all = tokens@;
        let n = tokens.len();
        let mut rest = tokens;
        let mut i: usize = 0;
        assert(all.skip(0) =~= all);
        while rest.len() > 0
            invariant
                self.wf(),
                self.deck == old(self).deck,
                self.fetch_related_tokens == old(self).fetch_related_tokens,
                self.not_found == old(self).not_found,
                self.related_tokens == old(self).related_tokens,
                all.len() == n,
                forall|j: int| 0 <= j < n ==> (#[trigger] all[j]).count >= 1,
                keep@.len() == n,
                forall|j: int| 0 <= j < n ==> keep@[j] == kept_token(all, j),
                i + rest@.len() == n,
                rest@ == all.skip(i as int),
                self.resolved@ + dedup_tokens(all.skip(i as int)) == old(self).resolved@ + dedup_tokens(all),
            decreases rest@.len(),
        {
            let t = rest.remove(0);
            proof {
                let tail = all.skip(i as int);
                assert(tail.drop_first() =~= all.skip(i + 1));
                assert(kept_token(tail, 0) == kept_token(all, i as int)) by {
                    if kept_token(all, i as int) {
                        assert forall|j: int| 0 < j < tail.len() implies (#[trigger] tail[j]).card.oracle_id != tail[0].card.oracle_id by {
                            assert(tail[j] == all[i + j]);
                        }
                    }
                    if kept_token(tail, 0) {
                        assert forall|j: int| i < j < all.len() implies (#[trigger] all[j]).card.oracle_id != all[i as int].card.oracle_id by {
                            assert(tail[j - i] == all[j]);
                        }
                    }
                }
            }
            if keep[i] {
                self.resolved.push(t);
            }
            i = i + 1;
            proof {
                assert(self.resolved@ + dedup_tokens(all.skip(i as int)) =~= old(self).resolved@ + dedup_tokens(all));
            }
        }
        assert(dedup_tokens(all.skip(i as int)) =~= Seq::<ResolvedCard>::empty());
        assert(self.resolved@ =~= self.resolved@ + dedup_tokens(all.skip(i as int)));
    }
}

} // verus!

verus! {

/// Among the kept tokens no two share an oracle id and none lacks one; each
/// is one of the given tokens; and every oracle id among the given tokens is
/// kept.
pub proof fn lemma_dedup_tokens(s: Seq<ResolvedCard>)
    ensures
        forall|i: int| 0 <= i < dedup_tokens(s).len() ==> (#[trigger] dedup_tokens(s)[i]).card.oracle_id is Some,
        forall|i: int, j: int| 0 <= i < j < dedup_tokens(s).len() ==>
            (#[trigger] dedup_tokens(s)[i]).card.oracle_id != (#[trigger] dedup_tokens(s)[j]).card.oracle_id,
        forall|i: int| 0 <= i < dedup_tokens(s).len() ==> s.contains(#[trigger] dedup_tokens(s)[i]),
        forall|i: int| 0 <= i < s.len() && (#[trigger] s[i]).card.oracle_id is Some ==> exists|j: int|
            0 <= j < dedup_tokens(s).len() && (#[trigger] dedup_tokens(s)[j]).card.oracle_id == s[i].card.oracle_id,
    decreases s.len(),
{
    if s.len() > 0 {
        let rest = s.drop_first();
        lemma_dedup_tokens(rest);
        let d = dedup_tokens(s);
        let dr = dedup_tokens(rest);
        let head: Seq<ResolvedCard> = if kept_token(s, 0) { seq![s[0]] } else { Seq::empty() };
        assert(d == head + dr);
        assert forall|i: int| 0 <= i < d.len() implies s.contains(#[trigger] d[i]) by {
            if i < head.len() {
                assert(s[0] == d[i]);
            } else {
                assert(d[i] == dr[i - head.len()]);
                assert(rest.contains(dr[i - head.len()]));
                let k = choose|k: int| 0 <= k < rest.len() && rest[k] == dr[i - head.len()];
                assert(s[k + 1] == d[i]);
            }
        }
        assert forall|i: int| 0 <= i < d.len() implies (#[trigger] d[i]).card.oracle_id is Some by {
            if i >= head.len() {
                assert(d[i] == dr[i - head.len()]);
            }
        }
        assert forall|i: int, j: int| 0 <= i < j < d.len() implies (#[trigger] d[i]).card.oracle_id != (#[trigger] d[j]).card.oracle_id by {
            if i < head.len() {
                assert(d[j] == dr[j - head.len()]);
                assert(rest.contains(dr[j - head.len()]));
                let k = choose|k: int| 0 <= k < rest.len() && rest[k] == dr[j - head.len()];
                assert(s[k + 1] == rest[k]);
            } else {
                assert(d[i] == dr[i - head.len()]);
                assert(d[j] == dr[j - head.len()]);
            }
        }
        assert forall|i: int| 0 <= i < s.len() && (#[trigger] s[i]).card.oracle_id is Some implies exists|j: int|
            0 <= j < d.len() && (#[trigger] d[j]).card.oracle_id == s[i].card.oracle_id by {
            if i == 0 {
                if kept_token(s, 0) {
                    assert(d[0] == s[0]);
                } else {
                    let k = choose|k: int| 0 < k < s.len() && (#[trigger] s[k]).card.oracle_id == s[0].card.oracle_id;
                    assert(rest[k - 1] == s[k]);
                    let j = choose|j: int| 0 <= j < dr.len() && (#[trigger] dr[j]).card.oracle_id == rest[k - 1].card.oracle_id;
                    assert(d[j + head.len()] == dr[j]);
                }
            } else {
                assert(rest[i - 1] == s[i]);
                let j = choose|j: int| 0 <= j < dr.len() && (#[trigger] dr[j]).card.oracle_id == rest[i - 1].card.oracle_id;
                assert(d[j + head.len()] == dr[j]);
            }
        }
    }
}

} // verus!

verus! {

/// Resolved cards are equal when their counts are and their cards are the
/// same printing.
impl PartialEq for ResolvedCard {
    fn eq(&self, other: &ResolvedCard) -> (r: bool) {
        self.count == other.count && self.card.id == other.card.id
    }
}

impl vstd::std_specs::cmp::PartialEqSpecImpl for ResolvedCard {
    open spec fn obeys_eq_spec() -> bool {
        true
    }

    open spec fn eq_spec(&self, other: &ResolvedCard) -> bool {
        self.count == other.count && self.card.id == other.card.id
    }
}

impl Eq for ResolvedCard {}

} // verus!
