//! Card records as the catalogue returns them, reduced to what the deck logic
//! reads, and the token heuristic.

use vstd::prelude::*;
use crate::ascii::{contains_folded, contains_ignore_ascii_case};

verus! {

/// The image links of one card or card face, one per image size.
#[derive(Debug)]
pub struct ImageUris {
    pub small: String,
    pub normal: String,
    pub large: String,
    pub art_crop: String,
    pub border_crop: String,
    pub png: String,
}

/// One face of a card with more than one.
#[derive(Debug)]
pub struct CardFace {
    pub name: String,
    pub image_uris: Option<ImageUris>,
}

/// A stub naming a card related to another one (a token it makes, a meld
/// partner, a combo piece).
#[derive(Debug)]
pub struct RelatedCard {
    pub id: u128,
    pub component: String,
    pub name: String,
    pub type_line: String,
}

/// One printing of a card.
#[derive(Debug)]
pub struct Card {
    pub id: u128,
    pub name: String,
    pub set: String,
    pub collector_number: String,
    pub mtgo_id: Option<usize>,
    pub multiverse_ids: Option<Vec<usize>>,
    pub oracle_id: Option<u128>,
    pub illustration_id: Option<u128>,
    pub type_line: Option<String>,
    pub all_parts: Option<Vec<RelatedCard>>,
    pub card_faces: Option<Vec<CardFace>>,
    pub image_uris: Option<ImageUris>,
    pub prints_search_uri: String,
    pub scryfall_uri: String,
}

pub open spec fn token_word() -> Seq<char> {
    seq!['t', 'o', 'k', 'e', 'n']
}

pub open spec fn emblem_word() -> Seq<char> {
    seq!['e', 'm', 'b', 'l', 'e', 'm']
}

pub open spec fn card_word() -> Seq<char> {
    seq!['c', 'a', 'r', 'd']
}

pub open spec fn checklist_word() -> Seq<char> {
    seq!['c', 'h', 'e', 'c', 'k', 'l', 'i', 's', 't']
}

/// The token heuristic on a type line and a name. A word of the type line
/// that holds "token", "emblem" or "card" (in any ASCII case) marks a token,
/// but "card" does not when the name holds "checklist". None of these words
/// holds white space, so a word of the line holds one exactly when the line
/// does.
pub open spec fn typeline_or_name_token(type_line: Seq<char>, name: Seq<char>) -> bool {
    ||| contains_folded(type_line, token_word())
    ||| contains_folded(type_line, emblem_word())
    ||| (contains_folded(type_line, card_word()) && !contains_folded(name, checklist_word()))
}

/// Applies the token heuristic to a type line and a card name.
pub fn is_typeline_or_name_token(type_line: &str, name: &str) -> (r: bool)
    ensures
        r == typeline_or_name_token(type_line@, name@),
{
    proof {
        reveal_strlit("token");
        reveal_strlit("emblem");
        reveal_strlit("card");
        reveal_strlit("checklist");
    }
    assert("token"@ =~= token_word());
    assert("emblem"@ =~= emblem_word());
    assert("card"@ =~= card_word());
    assert("checklist"@ =~= checklist_word());
    if contains_ignore_ascii_case(type_line, "token") {
        return true;
    }
    if contains_ignore_ascii_case(type_line, "emblem") {
        return true;
    }
    contains_ignore_ascii_case(type_line, "card") && !contains_ignore_ascii_case(name, "checklist")
}

/// Things that may be tokens or emblems rather than cards of a deck.
pub trait Token {
    spec fn spec_is_token(&self) -> bool;

    fn is_token(&self) -> (r: bool)
        ensures
            r == self.spec_is_token(),
    ;
}

impl Token for Card {
    /// A card is a token when it has a type line and the heuristic holds of it.
    open spec fn spec_is_token(&self) -> bool {
        match self.type_line {
            Some(t) => typeline_or_name_token(t@, self.name@),
            None => false,
        }
    }

    fn is_token(&self) -> (r: bool) {
        match &self.type_line {
            Some(t) => is_typeline_or_name_token(t.as_str(), self.name.as_str()),
            None => false,
        }
    }
}

impl Token for RelatedCard {
    /// A related card is a token when its component says so, or when the
    /// heuristic holds of its type line and name.
    open spec fn spec_is_token(&self) -> bool {
        self.component@ == token_word() || typeline_or_name_token(self.type_line@, self.name@)
    }

    fn is_token(&self) -> (r: bool) {
        proof {
            reveal_strlit("token");
        }
        assert("token"@ =~= token_word());
        let component: &str = self.component.as_str();
        if component.unicode_len() == 5 && component.get_char(0) == 't' && component.get_char(1) == 'o'
            && component.get_char(2) == 'k' && component.get_char(3) == 'e' && component.get_char(4) == 'n' {
            assert(self.component@ =~= token_word());
            return true;
        }
        is_typeline_or_name_token(self.type_line.as_str(), self.name.as_str())
    }
}

} // verus!

verus! {

impl Clone for ImageUris {
    fn clone(&self) -> (r: Self)
        ensures
            r == *self,
    {
        ImageUris {
            small: self.small.clone(),
            normal: self.normal.clone(),
            large: self.large.clone(),
            art_crop: self.art_crop.clone(),
            border_crop: self.border_crop.clone(),
            png: self.png.clone(),
        }
    }
}

fn clone_image_uris(u: &Option<ImageUris>) -> (r: Option<ImageUris>)
    ensures
        r == *u,
{
    match u {
        Some(x) => Some(x.clone()),
        None => None,
    }
}

impl Clone for CardFace {
    fn clone(&self) -> (r: Self)
        ensures
            r == *self,
    {
        CardFace { name: self.name.clone(), image_uris: clone_image_uris(&self.image_uris) }
    }
}

impl Clone for RelatedCard {
    fn clone(&self) -> (r: Self)
        ensures
            r == *self,
    {
        RelatedCard {
            id: self.id,
            component: self.component.clone(),
            name: self.name.clone(),
            type_line: self.type_line.clone(),
        }
    }
}

/// The contents of an optional vector.
pub open spec fn opt_seq<T>(o: Option<Vec<T>>) -> Option<Seq<T>> {
    match o {
        Some(v) => Some(v@),
        None => None,
    }
}

impl Card {
    /// `self` and `other` hold the same values, field by field.
    pub open spec fn same_record(&self, other: &Card) -> bool {
        &&& self.id == other.id
        &&& self.name == other.name
        &&& self.set == other.set
        &&& self.collector_number == other.collector_number
        &&& self.mtgo_id == other.mtgo_id
        &&& opt_seq(self.multiverse_ids) == opt_seq(other.multiverse_ids)
        &&& self.oracle_id == other.oracle_id
        &&& self.illustration_id == other.illustration_id
        &&& self.type_line == other.type_line
        &&& opt_seq(self.all_parts) == opt_seq(other.all_parts)
        &&& opt_seq(self.card_faces) == opt_seq(other.card_faces)
        &&& self.image_uris == other.image_uris
        &&& self.prints_search_uri == other.prints_search_uri
        &&& self.scryfall_uri == other.scryfall_uri
    }
}

impl Clone for Card {
    fn clone(&self) -> (r: Self)
        ensures
            r.same_record(self),
    {
        let multiverse_ids = match &self.multiverse_ids {
            Some(v) => {
                let c = v.clone();
                assert(c@ =~= v@);
                Some(c)
            },
            None => None,
        };
        let type_line = match &self.type_line {
            Some(t) => Some(t.clone()),
            None => None,
        };
        let all_parts = match &self.all_parts {
            Some(v) => {
                let c = v.clone();
                assert(c@ =~= v@);
                Some(c)
            },
            None => None,
        };
        let card_faces = match &self.card_faces {
            Some(v) => {
                let c = v.clone();
                assert(c@ =~= v@);
                Some(c)
            },
            None => None,
        };
        Card {
            id: self.id,
            name: self.name.clone(),
            set: self.set.clone(),
            collector_number: self.collector_number.clone(),
            mtgo_id: self.mtgo_id,
            multiverse_ids,
            oracle_id: self.oracle_id,
            illustration_id: self.illustration_id,
            type_line,
            all_parts,
            card_faces,
            image_uris: clone_image_uris(&self.image_uris),
            prints_search_uri: self.prints_search_uri.clone(),
            scryfall_uri: self.scryfall_uri.clone(),
        }
    }
}

} // verus!

verus! {

/// Two cards are the same printing when their ids are equal.
impl PartialEq for Card {
    fn eq(&self, other: &Card) -> (r: bool) {
        self.id == other.id
    }
}

impl vstd::std_specs::cmp::PartialEqSpecImpl for Card {
    open spec fn obeys_eq_spec() -> bool {
        true
    }

    open spec fn eq_spec(&self, other: &Card) -> bool {
        self.id == other.id
    }
}

impl Eq for Card {}

} // verus!
