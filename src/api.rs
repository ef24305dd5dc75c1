//! Reading the catalogue's answers: errors, single lookups, pages of results.

use vstd::prelude::*;
use crate::api_classes::{ApiObject, Error};
use crate::card::Card;
use crate::identifier::CollectionCardIdentifier;

verus! {

/// Oracle ids and illustration ids cannot be used to fetch a single card.
#[derive(Debug)]
pub struct InvalidCardIdentifierError;

/// The catalogue answered with an error payload.
#[derive(Debug)]
pub struct ApiError {
    pub error: Error,
}

/// The catalogue answered with an object of another kind than expected.
#[derive(Debug)]
pub struct InvalidApiObjectError {
    pub expected: &'static str,
    pub received: ApiObject,
}

/// How the catalogue is asked for one card.
#[allow(inconsistent_fields)]
#[derive(Debug, PartialEq, Eq)]
pub enum CardLookup {
    /// By catalogue id.
    Id(u128),
    /// By Magic Online id.
    MtgoId(usize),
    /// By multiverse id.
    MultiverseId(usize),
    /// By the closest name, within a set when one is given.
    Named { fuzzy: String, set: Option<String> },
    /// By set code and collector number.
    CollectorNumber { set: String, collector_number: String },
}

/// The lookup that an identifier asks for, when it can be looked up alone.
pub open spec fn spec_card_lookup(ident: CollectionCardIdentifier) -> Option<CardLookup> {
    match ident {
        CollectionCardIdentifier::Id { id } => Some(CardLookup::Id(id)),
        CollectionCardIdentifier::MtgoId { mtgo_id } => Some(CardLookup::MtgoId(mtgo_id)),
        CollectionCardIdentifier::MultiverseId { multiverse_id } => Some(CardLookup::MultiverseId(multiverse_id)),
        CollectionCardIdentifier::OracleId { .. } => None,
        CollectionCardIdentifier::IllustrationId { .. } => None,
        CollectionCardIdentifier::Name { name } => Some(CardLookup::Named { fuzzy: name, set: None }),
        CollectionCardIdentifier::NameSet { name, set } => Some(CardLookup::Named { fuzzy: name, set: Some(set) }),
        CollectionCardIdentifier::CollectorNumberSet { collector_number, set } =>
            Some(CardLookup::CollectorNumber { set, collector_number }),
    }
}

/// The single-card lookup for `ident`; oracle and illustration ids are
/// refused.
pub fn card_lookup(ident: &CollectionCardIdentifier) -> (r: Result<CardLookup, InvalidCardIdentifierError>)
    ensures
        r is Err <==> !ident.is_lookup_kind(),
        r matches Ok(l) ==> spec_card_lookup(*ident) == Some(l),
{
    match ident {
        CollectionCardIdentifier::Id { id } => Ok(CardLookup::Id(*id)),
        CollectionCardIdentifier::MtgoId { mtgo_id } => Ok(CardLookup::MtgoId(*mtgo_id)),
        CollectionCardIdentifier::MultiverseId { multiverse_id } => Ok(CardLookup::MultiverseId(*multiverse_id)),
        CollectionCardIdentifier::OracleId { .. } => Err(InvalidCardIdentifierError),
        CollectionCardIdentifier::IllustrationId { .. } => Err(InvalidCardIdentifierError),
        CollectionCardIdentifier::Name { name } => Ok(CardLookup::Named { fuzzy: name.clone(), set: None }),
        CollectionCardIdentifier::NameSet { name, set } =>
            Ok(CardLookup::Named { fuzzy: name.clone(), set: Some(set.clone()) }),
        CollectionCardIdentifier::CollectorNumberSet { collector_number, set } =>
            Ok(CardLookup::CollectorNumber { set: set.clone(), collector_number: collector_number.clone() }),
    }
}

/// Turns an error payload into an error; any other object passes through.
pub fn check_response(object: ApiObject) -> (r: Result<ApiObject, ApiError>)
    ensures
        match object {
            ApiObject::Error(e) => r == Err::<ApiObject, ApiError>(ApiError { error: e }),
            _ => r == Ok::<ApiObject, ApiError>(object),
        },
{
    match object {
        ApiObject::Error(e) => Err(ApiError { error: e }),
        other => Ok(other),
    }
}

/// The card that a card object holds.
pub open spec fn card_of(o: ApiObject) -> Card
    recommends
        o is Card,
{
    match o {
        ApiObject::Card(c) => c,
        _ => arbitrary(),
    }
}

pub open spec fn all_cards(s: Seq<ApiObject>) -> bool {
    forall|i: int| 0 <= i < s.len() ==> (#[trigger] s[i]) is Card
}

/// `o` is the first object of `s` that is not a card.
pub open spec fn is_first_non_card(s: Seq<ApiObject>, o: ApiObject) -> bool {
    exists|i: int|
        0 <= i < s.len() && s[i] == o && !(o is Card) && forall|j: int| 0 <= j < i ==> (#[trigger] s[j]) is Card
}

/// The cards of `objects`, in order, or the first object that is no card.
pub fn cards_of(objects: Vec<ApiObject>) -> (r: Result<Vec<Card>, ApiObject>)
    ensures
        r is Ok <==> all_cards(objects@),
        r matches Ok(v) ==> v@ == objects@.map_values(|o: ApiObject| card_of(o)),
        r matches Err(o) ==> is_first_non_card(objects@, o),
{
    let ghost all = objects@;
    let n = objects.len();
    let mut rest = objects;
    let mut cards: Vec<Card> = Vec::new();
    let mut i: usize = 0;
    while rest.len() > 0
        invariant
            all.len() == n,
            all == objects@,
            i + rest@.len() == all.len(),
            rest@ == all.skip(i as int),
            cards@ == all.take(i as int).map_values(|o: ApiObject| card_of(o)),
            forall|j: int| 0 <= j < i ==> (#[trigger] all[j]) is Card,
        decreases rest@.len(),
    {
        let o = rest.remove(0);
        assert(o == all[i as int]);
        match o {
            ApiObject::Card(c) => {
                cards.push(c);
                i = i + 1;
                assert(rest@ =~= all.skip(i as int));
                assert(cards@ =~= all.take(i as int).map_values(|o: ApiObject| card_of(o)));
            },
            other => {
                assert(!(all[i as int] is Card));
                assert(!all_cards(all));
                assert(is_first_non_card(all, other));
                return Err(other);
            },
        }
    }
    assert(all.take(i as int) =~= all);
    Ok(cards)
}

/// The cards of a search; any object that is no card is refused.
pub fn all_printings(objects: Vec<ApiObject>) -> (r: Result<Vec<Card>, InvalidApiObjectError>)
    ensures
        r is Ok <==> all_cards(objects@),
        r matches Ok(v) ==> v@ == objects@.map_values(|o: ApiObject| card_of(o)),
        r matches Err(e) ==> e.expected == "Card" && is_first_non_card(objects@, e.received),
{
    match cards_of(objects) {
        Ok(v) => Ok(v),
        Err(o) => Err(InvalidApiObjectError { expected: "Card", received: o }),
    }
}

/// One page of a search: its objects, and where the next page is, if the
/// search goes on.
#[derive(Debug)]
pub struct Page {
    pub data: Vec<ApiObject>,
    pub next_page: Option<String>,
}

/// Why a page of a search could not be read.
#[derive(Debug)]
pub enum PageError {
    Api(ApiError),
    NotList(InvalidApiObjectError),
}

/// Reads one page of a search. A page that claims more results but gives no
/// link to them ends the search with its own objects.
pub fn read_page(object: ApiObject) -> (r: Result<Page, PageError>)
    ensures
        match object {
            ApiObject::Error(e) => r == Err::<Page, PageError>(PageError::Api(ApiError { error: e })),
            ApiObject::List(l) => r == Ok::<Page, PageError>(
                Page { data: l.data, next_page: if l.has_more == Some(true) { l.next_page } else { None } },
            ),
            _ => r == Err::<Page, PageError>(
                PageError::NotList(InvalidApiObjectError { expected: "List", received: object }),
            ),
        },
{
    match object {
        ApiObject::Error(e) => Err(PageError::Api(ApiError { error: e })),
        ApiObject::List(l) => {
            let next_page = match l.has_more {
                Some(true) => l.next_page,
                _ => None,
            };
            Ok(Page { data: l.data, next_page })
        },
        other => Err(PageError::NotList(InvalidApiObjectError { expected: "List", received: other })),
    }
}

} // verus!
