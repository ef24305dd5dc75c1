use scryfall::card::{Card, CardFace, ImageUris, RelatedCard, Token};
use scryfall::card::is_typeline_or_name_token;
use scryfall::deck_diff::deck_diff;
use scryfall::images::{extract_images, ImageUriType};
use scryfall::resolve::ResolvedCard;
use std::cmp::Ordering;

fn card(id: u128, name: &str, type_line: Option<&str>) -> Card {
    Card {
        id,
        name: name.to_string(),
        set: "m21".to_string(),
        collector_number: "10".to_string(),
        mtgo_id: None,
        multiverse_ids: None,
        oracle_id: None,
        illustration_id: None,
        type_line: type_line.map(|t| t.to_string()),
        all_parts: None,
        card_faces: None,
        image_uris: None,
        prints_search_uri: String::new(),
        scryfall_uri: String::new(),
    }
}

fn resolved(count: usize, id: u128) -> ResolvedCard {
    ResolvedCard { count, card: card(id, "A", Some("Instant")) }
}

fn ids(cards: &[Card]) -> Vec<u128> {
    let mut v: Vec<u128> = cards.iter().map(|c| c.id).collect();
    v.sort();
    v
}

#[test]
fn diff_with_itself_changes_nothing() {
    let deck = vec![resolved(2, 1), resolved(3, 2)];
    let same = vec![resolved(2, 1), resolved(3, 2)];
    let d = deck_diff(deck, same);
    assert!(d.added.is_empty());
    assert!(d.removed.is_empty());
    assert_eq!(ids(&d.unchanged), vec![1, 1, 2, 2, 2]);
}

#[test]
fn diff_one_more_copy() {
    let d = deck_diff(vec![resolved(2, 1)], vec![resolved(3, 1)]);
    assert_eq!(ids(&d.added), vec![1]);
    assert!(d.removed.is_empty());
    assert_eq!(ids(&d.unchanged), vec![1, 1, 1]);
}

#[test]
fn diff_two_fewer_copies() {
    let d = deck_diff(vec![resolved(3, 1)], vec![resolved(1, 1)]);
    assert_eq!(ids(&d.removed), vec![1, 1]);
    assert!(d.added.is_empty());
    assert_eq!(ids(&d.unchanged), vec![1, 1, 1]);
}

#[test]
fn diff_of_different_cards() {
    let d = deck_diff(vec![resolved(1, 1)], vec![resolved(2, 2)]);
    assert_eq!(ids(&d.added), vec![2, 2]);
    assert_eq!(ids(&d.removed), vec![1]);
    assert_eq!(ids(&d.unchanged), vec![1, 2, 2]);
    let empty = deck_diff(vec![], vec![]);
    assert!(empty.unchanged.is_empty() && empty.added.is_empty() && empty.removed.is_empty());
}

#[test]
fn token_heuristic() {
    assert!(is_typeline_or_name_token("Legendary Creature — Token", "Ragavan"));
    assert!(!is_typeline_or_name_token("Checklist Card", "Checklist Card"));
    assert!(is_typeline_or_name_token("Emblem", "Emblem — Chandra"));
    assert!(is_typeline_or_name_token("Token Creature — Goblin", "Goblin"));
    assert!(is_typeline_or_name_token("Card", "Helper Card"));
    assert!(!is_typeline_or_name_token("Card", "Innistrad CHECKLIST"));
    assert!(!is_typeline_or_name_token("Legendary Creature — Goblin", "Krenko"));
    assert!(!is_typeline_or_name_token("", ""));
    let part = RelatedCard { id: 1, component: "token".to_string(), name: "Bird".to_string(), type_line: "Creature".to_string() };
    assert!(part.is_token());
    let combo = RelatedCard { id: 2, component: "combo_piece".to_string(), name: "Bird".to_string(), type_line: "Creature".to_string() };
    assert!(!combo.is_token());
    assert!(card(3, "Treasure", Some("Token Artifact — Treasure")).is_token());
    assert!(!card(4, "Treasure", None).is_token());
}

#[test]
fn tokens_sort_after_cards_then_by_name() {
    let token = card(1, "Angel", Some("Token Creature — Angel"));
    let bolt = card(2, "Lightning Bolt", Some("Instant"));
    let abrade = card(3, "Abrade", Some("Instant"));
    assert_eq!(token.compare(&bolt), Ordering::Greater);
    assert_eq!(bolt.compare(&token), Ordering::Less);
    assert_eq!(abrade.compare(&bolt), Ordering::Less);
    assert_eq!(bolt.compare(&bolt), Ordering::Equal);
    assert_eq!(card(4, "Ab", None).compare(&card(5, "Abc", None)), Ordering::Less);
    let mut v = vec![
        ResolvedCard { count: 1, card: token },
        ResolvedCard { count: 1, card: bolt },
        ResolvedCard { count: 1, card: abrade },
    ];
    v.sort_by(|a, b| a.compare(b));
    let names: Vec<&str> = v.iter().map(|c| c.card.name.as_str()).collect();
    assert_eq!(names, vec!["Abrade", "Lightning Bolt", "Angel"]);
}

fn uris(tag: &str) -> ImageUris {
    ImageUris {
        small: format!("{tag}/small"),
        normal: format!("{tag}/normal"),
        large: format!("{tag}/large"),
        art_crop: format!("{tag}/art"),
        border_crop: format!("{tag}/border"),
        png: format!("{tag}/png"),
    }
}

#[test]
fn images_of_faces_then_card() {
    let mut two_faced = card(1, "Delver", Some("Creature"));
    two_faced.card_faces = Some(vec![
        CardFace { name: "Front".to_string(), image_uris: Some(uris("front")) },
        CardFace { name: "Back".to_string(), image_uris: Some(uris("back")) },
    ]);
    let mut land = card(2, "Forest", Some("Basic Land — Forest"));
    land.image_uris = Some(uris("forest"));
    let bare = card(3, "Missing", Some("Instant"));
    let mut bolt = card(4, "Bolt", None);
    bolt.image_uris = Some(uris("bolt"));
    let cards = vec![two_faced.clone(), land.clone(), bare.clone(), bolt.clone()];
    let all = extract_images(cards, false, ImageUriType::Png);
    let got: Vec<(u128, Vec<String>)> = all.into_iter().map(|(c, u)| (c.id, u)).collect();
    assert_eq!(
        got,
        vec![
            (1, vec!["front/png".to_string(), "back/png".to_string()]),
            (2, vec!["forest/png".to_string()]),
            (4, vec!["bolt/png".to_string()]),
        ]
    );
    let no_lands = extract_images(vec![two_faced, land, bare, bolt], true, ImageUriType::Small);
    let got: Vec<(u128, Vec<String>)> = no_lands.into_iter().map(|(c, u)| (c.id, u)).collect();
    assert_eq!(
        got,
        vec![(1, vec!["front/small".to_string(), "back/small".to_string()]), (4, vec!["bolt/small".to_string()])]
    );
}

use scryfall::proxies::{current_printing_index, expand_by_count};

#[test]
fn expansion_repeats_each_card_by_count() {
    let deck = vec![resolved(2, 1), resolved(0, 2), resolved(3, 3)];
    let cards = expand_by_count(&deck);
    let got: Vec<u128> = cards.iter().map(|c| c.id).collect();
    assert_eq!(got, vec![1, 1, 3, 3, 3]);
    assert!(expand_by_count(&vec![]).is_empty());
}

#[test]
fn current_printing_is_found_by_image() {
    let printings = vec![
        (card(1, "Opt", None), vec!["a/front".to_string()]),
        (card(2, "Opt", None), vec!["b/front".to_string(), "b/back".to_string()]),
        (card(3, "Opt", None), vec!["b/back".to_string()]),
    ];
    assert_eq!(current_printing_index(&printings, &"b/back".to_string()), Some(1));
    assert_eq!(current_printing_index(&printings, &"a/front".to_string()), Some(0));
    assert_eq!(current_printing_index(&printings, &"c/front".to_string()), None);
}
