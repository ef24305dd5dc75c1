//! The ways a card can be named in a request.

use vstd::prelude::*;
use crate::ascii::{eq_ignore_ascii_case, folded, lower_code};

verus! {

/// A reference to a card, as typed in a deck list or handed to the catalogue.
/// Catalogue ids (`Id`, `OracleId`, `IllustrationId`) are 128-bit UUID values.
#[derive(Debug)]
pub enum CollectionCardIdentifier {
    Id { id: u128 },
    MtgoId { mtgo_id: usize },
    MultiverseId { multiverse_id: usize },
    OracleId { oracle_id: u128 },
    IllustrationId { illustration_id: u128 },
    Name { name: String },
    NameSet { name: String, set: String },
    CollectorNumberSet { collector_number: String, set: String },
}

/// What an identifier means once the case of its text fields is set aside:
/// two identifiers are equal exactly when their keys are.
pub enum IdentKey {
    Id(u128),
    MtgoId(usize),
    MultiverseId(usize),
    OracleId(u128),
    IllustrationId(u128),
    Name(Seq<u32>),
    NameSet(Seq<u32>, Seq<u32>),
    CollectorNumberSet(Seq<u32>, Seq<u32>),
}

impl CollectionCardIdentifier {
    pub open spec fn key(&self) -> IdentKey {
        match self {
            CollectionCardIdentifier::Id { id } => IdentKey::Id(*id),
            CollectionCardIdentifier::MtgoId { mtgo_id } => IdentKey::MtgoId(*mtgo_id),
            CollectionCardIdentifier::MultiverseId { multiverse_id } => IdentKey::MultiverseId(*multiverse_id),
            CollectionCardIdentifier::OracleId { oracle_id } => IdentKey::OracleId(*oracle_id),
            CollectionCardIdentifier::IllustrationId { illustration_id } => IdentKey::IllustrationId(*illustration_id),
            CollectionCardIdentifier::Name { name } => IdentKey::Name(folded(name@)),
            CollectionCardIdentifier::NameSet { name, set } => IdentKey::NameSet(folded(name@), folded(set@)),
            CollectionCardIdentifier::CollectorNumberSet { collector_number, set } =>
                IdentKey::CollectorNumberSet(folded(collector_number@), folded(set@)),
        }
    }

    /// Whether the catalogue can look this identifier up on its own.
    pub open spec fn is_lookup_kind(&self) -> bool {
        !(self is OracleId || self is IllustrationId)
    }

    /// Whether `self` and `other` name the same card, ignoring ASCII case in
    /// names, set codes and collector numbers.
    pub fn same_as(&self, other: &CollectionCardIdentifier) -> (r: bool)
        ensures
            r == (self.key() == other.key()),
    {
        match (self, other) {
            (CollectionCardIdentifier::Id { id: a }, CollectionCardIdentifier::Id { id: b }) => *a == *b,
            (CollectionCardIdentifier::MtgoId { mtgo_id: a }, CollectionCardIdentifier::MtgoId { mtgo_id: b }) => *a == *b,
            (
                CollectionCardIdentifier::MultiverseId { multiverse_id: a },
                CollectionCardIdentifier::MultiverseId { multiverse_id: b },
            ) => *a == *b,
            (CollectionCardIdentifier::OracleId { oracle_id: a }, CollectionCardIdentifier::OracleId { oracle_id: b }) => *a == *b,
            (
                CollectionCardIdentifier::IllustrationId { illustration_id: a },
                CollectionCardIdentifier::IllustrationId { illustration_id: b },
            ) => *a == *b,
            (CollectionCardIdentifier::Name { name: a }, CollectionCardIdentifier::Name { name: b }) =>
                eq_ignore_ascii_case(a.as_str(), b.as_str()),
            (
                CollectionCardIdentifier::NameSet { name: a, set: sa },
                CollectionCardIdentifier::NameSet { name: b, set: sb },
            ) => eq_ignore_ascii_case(a.as_str(), b.as_str()) && eq_ignore_ascii_case(sa.as_str(), sb.as_str()),
            (
                CollectionCardIdentifier::CollectorNumberSet { collector_number: a, set: sa },
                CollectionCardIdentifier::CollectorNumberSet { collector_number: b, set: sb },
            ) => eq_ignore_ascii_case(a.as_str(), b.as_str()) && eq_ignore_ascii_case(sa.as_str(), sb.as_str()),
            _ => false,
        }
    }
}

impl PartialEq for CollectionCardIdentifier {
    fn eq(&self, other: &CollectionCardIdentifier) -> (r: bool) {
        self.same_as(other)
    }
}

impl vstd::std_specs::cmp::PartialEqSpecImpl for CollectionCardIdentifier {
    open spec fn obeys_eq_spec() -> bool {
        true
    }

    open spec fn eq_spec(&self, other: &CollectionCardIdentifier) -> bool {
        self.key() == other.key()
    }
}

impl Eq for CollectionCardIdentifier {}

impl Clone for CollectionCardIdentifier {
    fn clone(&self) -> (r: Self)
        ensures
            r == *self,
    {
        match self {
            CollectionCardIdentifier::Id { id } => CollectionCardIdentifier::Id { id: *id },
            CollectionCardIdentifier::MtgoId { mtgo_id } => CollectionCardIdentifier::MtgoId { mtgo_id: *mtgo_id },
            CollectionCardIdentifier::MultiverseId { multiverse_id } =>
                CollectionCardIdentifier::MultiverseId { multiverse_id: *multiverse_id },
            CollectionCardIdentifier::OracleId { oracle_id } => CollectionCardIdentifier::OracleId { oracle_id: *oracle_id },
            CollectionCardIdentifier::IllustrationId { illustration_id } =>
                CollectionCardIdentifier::IllustrationId { illustration_id: *illustration_id },
            CollectionCardIdentifier::Name { name } => CollectionCardIdentifier::Name { name: name.clone() },
            CollectionCardIdentifier::NameSet { name, set } =>
                CollectionCardIdentifier::NameSet { name: name.clone(), set: set.clone() },
            CollectionCardIdentifier::CollectorNumberSet { collector_number, set } =>
                CollectionCardIdentifier::CollectorNumberSet { collector_number: collector_number.clone(), set: set.clone() },
        }
    }
}

} // verus!

verus! {

/// Two texts that differ only in the ASCII case of their letters.
pub open spec fn same_but_case(a: Seq<char>, b: Seq<char>) -> bool {
    a.len() == b.len() && forall|i: int| 0 <= i < a.len() ==> lower_code(#[trigger] a[i]) == lower_code(b[i])
}

/// Names, names with sets, and collector numbers with sets are equal exactly
/// when their texts differ at most in ASCII case.
pub proof fn lemma_text_identifiers_ignore_case(x: CollectionCardIdentifier, y: CollectionCardIdentifier)
    ensures
        (x is Name && y is Name) ==> (x.key() == y.key() <==> same_but_case(x->Name_name@, y->Name_name@)),
        (x is NameSet && y is NameSet) ==> (x.key() == y.key() <==> same_but_case(x->NameSet_name@, y->NameSet_name@)
            && same_but_case(x->NameSet_set@, y->NameSet_set@)),
        (x is CollectorNumberSet && y is CollectorNumberSet) ==> (x.key() == y.key() <==> same_but_case(
            x->CollectorNumberSet_collector_number@,
            y->CollectorNumberSet_collector_number@,
        ) && same_but_case(x->CollectorNumberSet_set@, y->CollectorNumberSet_set@)),
{
    assert forall|a: Seq<char>, b: Seq<char>| #[trigger] folded(a) == #[trigger] folded(b) <==> same_but_case(a, b) by {
        if same_but_case(a, b) {
            assert(folded(a) =~= folded(b));
        }
        if folded(a) == folded(b) {
            assert(folded(a).len() == a.len());
            assert forall|i: int| 0 <= i < a.len() implies lower_code(#[trigger] a[i]) == lower_code(b[i]) by {
                assert(folded(a)[i] == folded(b)[i]);
            }
        }
    }
}

} // verus!
