use scryfall::api_classes::Error;
use scryfall::deck_json::{deck_list_from_sections, images_from_sections, CardDigest, DeckEntry, DeckSection};
use scryfall::identifier::CollectionCardIdentifier;

fn entry(count: usize, id: Option<u128>) -> DeckEntry {
    DeckEntry {
        count,
        raw_text: "line".to_string(),
        found: id.is_some(),
        finish: None,
        card_digest: id.map(|id| CardDigest {
            id,
            name: "Card".to_string(),
            type_line: "Instant".to_string(),
            front_image: format!("front/{id}"),
            back_image: None,
        }),
    }
}

#[test]
fn export_sections_except_maybeboard() {
    let sections = vec![
        DeckSection { name: "mainboard".to_string(), entries: vec![entry(4, Some(1)), entry(2, None), entry(1, Some(2))] },
        DeckSection { name: "maybeboard".to_string(), entries: vec![entry(3, Some(3))] },
        DeckSection { name: "sideboard".to_string(), entries: vec![entry(2, Some(4)), entry(0, Some(5))] },
    ];
    let deck = deck_list_from_sections(&sections);
    assert_eq!(deck.identifiers().len(), 3);
    assert_eq!(deck.get(&CollectionCardIdentifier::Id { id: 1 }), Some(4));
    assert_eq!(deck.get(&CollectionCardIdentifier::Id { id: 2 }), Some(1));
    assert_eq!(deck.get(&CollectionCardIdentifier::Id { id: 3 }), None);
    assert_eq!(deck.get(&CollectionCardIdentifier::Id { id: 4 }), Some(2));
    assert_eq!(deck.get(&CollectionCardIdentifier::Id { id: 5 }), None);
}

#[test]
fn error_text_lists_type_warnings_details() {
    let mut e = Error {
        status: 400,
        code: "bad_request".to_string(),
        details: "Query was bad".to_string(),
        error_type: None,
        warnings: None,
    };
    assert_eq!(e.describe(), "details: Query was bad");
    e.error_type = Some("ambiguous".to_string());
    assert_eq!(e.describe(), "type: ambiguous, details: Query was bad");
    e.warnings = Some("careful".to_string());
    assert_eq!(e.describe(), "type: ambiguous, warnings: careful, details: Query was bad");
    e.error_type = None;
    assert_eq!(e.describe(), "warnings: careful, details: Query was bad");
}

#[test]
fn export_images_with_counts() {
    let mut land = entry(10, Some(7));
    if let Some(d) = land.card_digest.as_mut() {
        d.type_line = "Basic Land — Island".to_string();
    }
    let mut flip = entry(1, Some(8));
    if let Some(d) = flip.card_digest.as_mut() {
        d.back_image = Some("back/8".to_string());
    }
    let sections = vec![
        DeckSection { name: "mainboard".to_string(), entries: vec![entry(4, Some(1)), land, entry(2, None), flip] },
        DeckSection { name: "maybeboard".to_string(), entries: vec![entry(3, Some(3))] },
    ];
    assert_eq!(
        images_from_sections(&sections, true),
        vec![("front/1".to_string(), 4), ("front/8".to_string(), 1), ("back/8".to_string(), 1)]
    );
    assert_eq!(
        images_from_sections(&sections, false),
        vec![("front/1".to_string(), 4), ("front/7".to_string(), 10), ("front/8".to_string(), 1), ("back/8".to_string(), 1)]
    );
}
