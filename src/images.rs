//! Picking the image links of resolved cards.

use vstd::prelude::*;
use crate::card::{Card, CardFace, ImageUris};

verus! {

/// The image sizes the catalogue offers.
#[derive(Debug, Clone, Copy, PartialEq, Eq, Structural)]
pub enum ImageUriType {
    Small,
    Normal,
    Large,
    ArtCrop,
    BorderCrop,
    Png,
}

/// The link of the given size.
pub open spec fn image_of(images: ImageUris, image_type: ImageUriType) -> String {
    match image_type {
        ImageUriType::Small => images.small,
        ImageUriType::Normal => images.normal,
        ImageUriType::Large => images.large,
        ImageUriType::ArtCrop => images.art_crop,
        ImageUriType::BorderCrop => images.border_crop,
        ImageUriType::Png => images.png,
    }
}

fn extract_image(images: &ImageUris, image_type: ImageUriType) -> (r: String)
    ensures
        r == image_of(*images, image_type),
{
    match image_type {
        ImageUriType::Small => images.small.clone(),
        ImageUriType::Normal => images.normal.clone(),
        ImageUriType::Large => images.large.clone(),
        ImageUriType::ArtCrop => images.art_crop.clone(),
        ImageUriType::BorderCrop => images.border_crop.clone(),
        ImageUriType::Png => images.png.clone(),
    }
}

pub open spec fn basic_land_prefix() -> Seq<char> {
    seq!['B', 'a', 's', 'i', 'c', ' ', 'L', 'a', 'n', 'd']
}

/// A card whose type line starts with "Basic Land".
pub open spec fn is_basic_land(card: Card) -> bool {
    match card.type_line {
        Some(t) => t@.len() >= 10 && t@.take(10) == basic_land_prefix(),
        None => false,
    }
}

/// The links of the given size of those faces that have images, in order.
pub open spec fn face_images(faces: Seq<CardFace>, image_type: ImageUriType) -> Seq<String>
    decreases faces.len(),
{
    if faces.len() == 0 {
        Seq::empty()
    } else {
        face_images(faces.drop_last(), image_type) + match faces.last().image_uris {
            Some(u) => seq![image_of(u, image_type)],
            None => Seq::empty(),
        }
    }
}

/// The links of a card: those of its faces, then its own.
pub open spec fn card_images(card: Card, image_type: ImageUriType) -> Seq<String> {
    (match card.card_faces {
        Some(f) => face_images(f@, image_type),
        None => Seq::empty(),
    }) + match card.image_uris {
        Some(u) => seq![image_of(u, image_type)],
        None => Seq::empty(),
    }
}

/// Each card with its links, in order, leaving out cards without any, and
/// basic lands when asked to.
pub open spec fn image_list(cards: Seq<Card>, exclude_basic_lands: bool, image_type: ImageUriType) -> Seq<(Card, Seq<String>)>
    decreases cards.len(),
{
    if cards.len() == 0 {
        Seq::empty()
    } else {
        let c = cards.last();
        image_list(cards.drop_last(), exclude_basic_lands, image_type) + if (exclude_basic_lands && is_basic_land(c))
            || card_images(c, image_type).len() == 0 {
            Seq::empty()
        } else {
            seq![(c, card_images(c, image_type))]
        }
    }
}

fn is_basic_land_type(card: &Card) -> (r: bool)
    ensures
        r == is_basic_land(*card),
{
    proof {
        reveal_strlit("Basic Land");
    }
    assert("Basic Land"@ =~= basic_land_prefix());
    match &card.type_line {
        Some(t) => {
            let s: &str = t.as_str();
            let prefix: &str = "Basic Land";
            if s.unicode_len() < 10 {
                return false;
            }
            assert(is_basic_land(*card) == (s@.take(10) == basic_land_prefix()));
            let mut i: usize = 0;
            while i < 10
                invariant
                    s@ == t@,
                    s@.len() >= 10,
                    is_basic_land(*card) == (s@.take(10) == basic_land_prefix()),
                    prefix@ == basic_land_prefix(),
                    i <= 10,
                    forall|j: int| 0 <= j < i ==> s@[j] == prefix@[j],
                decreases 10 - i,
            {
                if s.get_char(i) != prefix.get_char(i) {
                    assert(s@.take(10)[i as int] != basic_land_prefix()[i as int]);
                    return false;
                }
                i = i + 1;
            }
            assert(s@.take(10) =~= basic_land_prefix());
            true
        },
        None => false,
    }
}

fn images_of_card(card: &Card, image_type: ImageUriType) -> (r: Vec<String>)
    ensures
        r@ == card_images(*card, image_type),
{
    let mut urls: Vec<String> = Vec::new();
    if let Some(faces) = &card.card_faces {
        let mut i: usize = 0;
        while i < faces.len()
            invariant
                i <= faces@.len(),
                urls@ == face_images(faces@.take(i as int), image_type),
            decreases faces@.len() - i,
        {
            proof {
                assert(faces@.take(i + 1).drop_last() =~= faces@.take(i as int));
            }
            if let Some(u) = &faces[i].image_uris {
                urls.push(extract_image(u, image_type));
            }
            i = i + 1;
            assert(urls@ =~= face_images(faces@.take(i as int), image_type));
        }
        assert(faces@.take(i as int) =~= faces@);
    }
    let ghost from_faces = urls@;
    if let Some(u) = &card.image_uris {
        urls.push(extract_image(u, image_type));
    }
    assert(urls@ =~= card_images(*card, image_type));
    urls
}

pub open spec fn pairs_view(v: Seq<(Card, Vec<String>)>) -> Seq<(Card, Seq<String>)> {
    v.map_values(|p: (Card, Vec<String>)| (p.0, p.1@))
}

/// Each card with its image links of the given size (those of its faces, then
/// its own), leaving out cards that have none, and basic lands when
/// `exclude_basic_lands` holds.
pub fn extract_images(cards: Vec<Card>, exclude_basic_lands: bool, image_type: ImageUriType) -> (r: Vec<(Card, Vec<String>)>)
    ensures
        pairs_view(r@) == image_list(cards@, exclude_basic_lands, image_type),
{
    let ghost all = cards@;
    let n = cards.len();
    let mut rest = cards;
    let mut out: Vec<(Card, Vec<String>)> = Vec::new();
    let mut i: usize = 0;
    while rest.len() > 0
        invariant
            all.len() == n,
            i + rest@.len() == n,
            rest@ == all.skip(i as int),
            pairs_view(out@) == image_list(all.take(i as int), exclude_basic_lands, image_type),
        decreases rest@.len(),
    {
        let card = rest.remove(0);
        proof {
            assert(card == all[i as int]);
            assert(all.take(i + 1).drop_last() =~= all.take(i as int));
        }
        let skip = exclude_basic_lands && is_basic_land_type(&card);
        let urls = images_of_card(&card, image_type);
        if !skip && urls.len() > 0 {
            out.push((card, urls));
        }
        i = i + 1;
        assert(rest@ =~= all.skip(i as int));
        assert(pairs_view(out@) =~= image_list(all.take(i as int), exclude_basic_lands, image_type));
    }
    assert(all.take(i as int) =~= all);
    out
}

} // verus!
