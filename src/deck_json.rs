//! Reading a deck list from the catalogue's own deck export, once its JSON
//! has been turned into sections of entries.

use vstd::prelude::*;
use crate::api_classes::Finish;
use crate::deck_list::DeckList;
use crate::images::basic_land_prefix;
use crate::identifier::{CollectionCardIdentifier, IdentKey};

verus! {

/// The card that a deck entry was matched to.
#[derive(Debug)]
pub struct CardDigest {
    pub id: u128,
    pub name: String,
    pub type_line: String,
    pub front_image: String,
    pub back_image: Option<String>,
}

/// One line of an exported deck.
#[derive(Debug)]
pub struct DeckEntry {
    pub count: usize,
    pub raw_text: String,
    pub found: bool,
    pub finish: Option<Finish>,
    pub card_digest: Option<CardDigest>,
}

/// A named section of an exported deck, such as the main deck or the side
/// board.
#[derive(Debug)]
pub struct DeckSection {
    pub name: String,
    pub entries: Vec<DeckEntry>,
}

pub open spec fn maybeboard() -> Seq<char> {
    seq!['m', 'a', 'y', 'b', 'e', 'b', 'o', 'a', 'r', 'd']
}

/// `m` with each matched entry of `entries` listed by card id, later
/// entries replacing earlier ones; entries of no copies add nothing.
pub open spec fn with_entries(m: Map<IdentKey, usize>, entries: Seq<DeckEntry>) -> Map<IdentKey, usize>
    decreases entries.len(),
{
    if entries.len() == 0 {
        m
    } else {
        let before = with_entries(m, entries.drop_last());
        let e = entries.last();
        match e.card_digest {
            Some(d) => if e.count > 0 {
                before.insert(IdentKey::Id(d.id), e.count)
            } else {
                before
            },
            None => before,
        }
    }
}

/// The deck that the sections list, leaving out the "maybeboard" section.
pub open spec fn deck_of_sections(sections: Seq<DeckSection>) -> Map<IdentKey, usize>
    decreases sections.len(),
{
    if sections.len() == 0 {
        Map::empty()
    } else {
        let before = deck_of_sections(sections.drop_last());
        let s = sections.last();
        if s.name@ == maybeboard() {
            before
        } else {
            with_entries(before, s.entries@)
        }
    }
}

fn is_maybeboard(name: &str) -> (r: bool)
    ensures
        r == (name@ == maybeboard()),
{
    proof {
        reveal_strlit("maybeboard");
    }
    let target: &str = "maybeboard";
    assert(target@ =~= maybeboard());
    let n = name.unicode_len();
    if n != 10 {
        return false;
    }
    let mut i: usize = 0;
    while i < 10
        invariant
            name@.len() == 10,
            target@ == maybeboard(),
            i <= 10,
            forall|j: int| 0 <= j < i ==> name@[j] == target@[j],
        decreases 10 - i,
    {
        if name.get_char(i) != target.get_char(i) {
            return false;
        }
        i = i + 1;
    }
    assert(name@ =~= maybeboard());
    true
}

/// The deck list of an exported deck: each entry matched to a card counts
/// under that card's id, except in the "maybeboard" section.
pub fn deck_list_from_sections(sections: &Vec<DeckSection>) -> (r: DeckList)
    ensures
        r.wf(),
        r@ == deck_of_sections(sections@),
{
    let mut deck = DeckList::new();
    let mut i: usize = 0;
    while i < sections.len()
        invariant
            i <= sections@.len(),
            deck.wf(),
            deck@ == deck_of_sections(sections@.take(i as int)),
        decreases sections@.len() - i,
    {
        proof {
            assert(sections@.take(i + 1).drop_last() =~= sections@.take(i as int));
        }
        let section = &sections[i];
        if !is_maybeboard(section.name.as_str()) {
            let ghost start = deck@;
            let mut k: usize = 0;
            while k < section.entries.len()
                invariant
                    k <= section.entries@.len(),
                    deck.wf(),
                    deck@ == with_entries(start, section.entries@.take(k as int)),
                decreases section.entries@.len() - k,
            {
                proof {
                    assert(section.entries@.take(k + 1).drop_last() =~= section.entries@.take(k as int));
                }
                let entry = &section.entries[k];
                if let Some(digest) = &entry.card_digest {
                    if entry.count > 0 {
                        deck.insert(CollectionCardIdentifier::Id { id: digest.id }, entry.count);
                    }
                }
                k = k + 1;
            }
            assert(section.entries@.take(k as int) =~= section.entries@);
        }
        i = i + 1;
    }
    assert(sections@.take(i as int) =~= sections@);
    deck
}

} // verus!

verus! {

/// A digest of a basic land: its type line starts with "Basic Land".
pub open spec fn digest_is_basic_land(d: CardDigest) -> bool {
    d.type_line@.len() >= 10 && d.type_line@.take(10) == basic_land_prefix()
}

/// The images of one entry with its count: the front, then the back if
/// any, of a matched entry that is not a basic land left out.
pub open spec fn entry_piece(e: DeckEntry, exclude_basic_lands: bool) -> Seq<(Seq<char>, usize)> {
    match e.card_digest {
        Some(d) => if exclude_basic_lands && digest_is_basic_land(d) {
            Seq::empty()
        } else {
            seq![(d.front_image@, e.count)] + match d.back_image {
                Some(b) => seq![(b@, e.count)],
                None => Seq::empty(),
            }
        },
        None => Seq::empty(),
    }
}

/// The images of `entries`, entry after entry.
pub open spec fn entry_images(entries: Seq<DeckEntry>, exclude_basic_lands: bool) -> Seq<(Seq<char>, usize)>
    decreases entries.len(),
{
    if entries.len() == 0 {
        Seq::empty()
    } else {
        entry_images(entries.drop_last(), exclude_basic_lands) + entry_piece(entries.last(), exclude_basic_lands)
    }
}

/// The images of the sections, in order, leaving out the "maybeboard".
pub open spec fn section_images(sections: Seq<DeckSection>, exclude_basic_lands: bool) -> Seq<(Seq<char>, usize)>
    decreases sections.len(),
{
    if sections.len() == 0 {
        Seq::empty()
    } else {
        let s = sections.last();
        section_images(sections.drop_last(), exclude_basic_lands) + if s.name@ == maybeboard() {
            Seq::empty()
        } else {
            entry_images(s.entries@, exclude_basic_lands)
        }
    }
}

pub open spec fn image_counts_view(v: Seq<(String, usize)>) -> Seq<(Seq<char>, usize)> {
    v.map_values(|p: (String, usize)| (p.0@, p.1))
}

fn digest_basic_land(d: &CardDigest) -> (r: bool)
    ensures
        r == digest_is_basic_land(*d),
{
    proof {
        reveal_strlit("Basic Land");
    }
    let prefix: &str = "Basic Land";
    assert(prefix@ =~= basic_land_prefix());
    let s: &str = d.type_line.as_str();
    if s.unicode_len() < 10 {
        return false;
    }
    let mut i: usize = 0;
    while i < 10
        invariant
            s@ == d.type_line@,
            s@.len() >= 10,
            prefix@ == basic_land_prefix(),
            i <= 10,
            forall|j: int| 0 <= j < i ==> s@[j] == prefix@[j],
        decreases 10 - i,
    {
        if s.get_char(i) != prefix.get_char(i) {
            assert(s@.take(10)[i as int] != basic_land_prefix()[i as int]);
            return false;
        }
        i = i + 1;
    }
    assert(s@.take(10) =~= basic_land_prefix());
    true
}

/// The image links of an exported deck with the copies asked for: the front
/// and back of each matched card, outside the "maybeboard" section, leaving
/// out basic lands when `exclude_basic_lands` holds.
pub fn images_from_sections(sections: &Vec<DeckSection>, exclude_basic_lands: bool) -> (r: Vec<(String, usize)>)
    ensures
        image_counts_view(r@) == section_images(sections@, exclude_basic_lands),
{
    let mut out: Vec<(String, usize)> = Vec::new();
    let mut i: usize = 0;
    while i < sections.len()
        invariant
            i <= sections@.len(),
            image_counts_view(out@) == section_images(sections@.take(i as int), exclude_basic_lands),
        decreases sections@.len() - i,
    {
        proof {
            assert(sections@.take(i + 1).drop_last() =~= sections@.take(i as int));
        }
        let section = &sections[i];
        let ghost before = out@;
        if !is_maybeboard(section.name.as_str()) {
            let mut k: usize = 0;
            while k < section.entries.len()
                invariant
                    k <= section.entries@.len(),
                    image_counts_view(out@) == image_counts_view(before) + entry_images(section.entries@.take(k as int), exclude_basic_lands),
                decreases section.entries@.len() - k,
            {
                proof {
                    assert(section.entries@.take(k + 1).drop_last() =~= section.entries@.take(k as int));
                }
                let entry = &section.entries[k];
                let ghost pre = out@;
                proof {
                    let t = section.entries@.take(k + 1);
                    assert(t.last() == *entry);
                }
                if let Some(digest) = &entry.card_digest {
                    if !(exclude_basic_lands && digest_basic_land(digest)) {
                        out.push((digest.front_image.clone(), entry.count));
                        if let Some(back) = &digest.back_image {
                            out.push((back.clone(), entry.count));
                        }
                    }
                }
                assert(image_counts_view(out@) =~= image_counts_view(pre) + entry_piece(*entry, exclude_basic_lands));
                k = k + 1;
                assert(image_counts_view(out@) =~= image_counts_view(before) + entry_images(section.entries@.take(k as int), exclude_basic_lands));
            }
            assert(section.entries@.take(k as int) =~= section.entries@);
        }
        i = i + 1;
        assert(image_counts_view(out@) =~= section_images(sections@.take(i as int), exclude_basic_lands));
    }
    assert(sections@.take(i as int) =~= sections@);
    out
}

} // verus!
