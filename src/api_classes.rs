//! The objects the catalogue answers with, reduced to what the deck logic
//! reads.

use vstd::prelude::*;
use vstd::string::StringExecFns;
use crate::card::{Card, CardFace, RelatedCard};
use crate::identifier::CollectionCardIdentifier;

verus! {

/// An answer of the catalogue. Only errors, lists and cards are read; the
/// other kinds are told apart for reporting.
#[derive(Debug)]
pub enum ApiObject {
    Error(Error),
    List(List),
    Card(Card),
    CardFace(CardFace),
    RelatedCard(RelatedCard),
    Deck,
    DeckEntry,
    CardDigest,
}

/// A list of objects, possibly one page of several, with the identifiers of
/// a collection request that matched no card.
#[derive(Debug)]
pub struct List {
    pub data: Vec<ApiObject>,
    pub not_found: Option<Vec<CollectionCardIdentifier>>,
    pub has_more: Option<bool>,
    pub next_page: Option<String>,
    pub total_cards: Option<usize>,
    pub warnings: Option<Vec<String>>,
}

/// An error payload of the catalogue.
#[derive(Debug)]
pub struct Error {
    pub status: usize,
    pub code: String,
    pub details: String,
    pub error_type: Option<String>,
    pub warnings: Option<String>,
}

/// The finish of a deck entry: none given, or its name.
#[derive(Debug)]
pub enum Finish {
    NoFinish(bool),
    Finish(String),
}

} // verus!

verus! {

impl Error {
    /// The text of an error: its type and warnings when given, then its
    /// details.
    pub open spec fn spec_describe(&self) -> Seq<char> {
        let details = "details: "@ + self.details@;
        match self.warnings {
            Some(w) => match self.error_type {
                Some(t) => "type: "@ + t@ + ", warnings: "@ + w@ + ", "@ + details,
                None => "warnings: "@ + w@ + ", "@ + details,
            },
            None => match self.error_type {
                Some(t) => "type: "@ + t@ + ", "@ + details,
                None => details,
            },
        }
    }

    pub fn describe(&self) -> (r: String)
        ensures
            r@ == self.spec_describe(),
    {
        let mut text = String::new();
        if let Some(t) = &self.error_type {
            text.append("type: ");
            text.append(t.as_str());
            text.append(", ");
        }
        if let Some(w) = &self.warnings {
            text.append("warnings: ");
            text.append(w.as_str());
            text.append(", ");
        }
        text.append("details: ");
        text.append(self.details.as_str());
        proof {
            assert(text@ =~= self.spec_describe()) by {
                reveal_strlit("type: ");
                reveal_strlit(", ");
                reveal_strlit("warnings: ");
                reveal_strlit(", warnings: ");
                reveal_strlit("details: ");
            }
        }
        text
    }
}

} // verus!
