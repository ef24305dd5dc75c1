use scryfall::deck_list::DeckList;
use scryfall::deck_text::{deck_list_from_captures, parse_count, parse_txt_data, DeckParseError};
use scryfall::identifier::CollectionCardIdentifier;

const TEST_CARDS: &str = "\
Main
1 [LCI] Anim Pakal, Thousandth Moon
12 Needleverge Pathway // Pillarverge Pathway
//Main
1 [LCI#223] Anim Pakal, Thousandth Moon <cost={WU}{U}> #test comment
1 Lae'zel, Vlaakith's Champion (CLB) 29
1 Wake the Reflections (PLST) MM3-28
1 Toby, Beastie Befriender (PDSK) 35p
";

fn ground_truth() -> Vec<(CollectionCardIdentifier, usize)> {
    vec![
        (CollectionCardIdentifier::NameSet { name: "Anim Pakal, Thousandth Moon".to_string(), set: "LCI".to_string() }, 1),
        (CollectionCardIdentifier::Name { name: "Needleverge Pathway // Pillarverge Pathway".to_string() }, 12),
        (CollectionCardIdentifier::CollectorNumberSet { collector_number: "223".to_string(), set: "LCI".to_string() }, 1),
        (CollectionCardIdentifier::CollectorNumberSet { collector_number: "29".to_string(), set: "CLB".to_string() }, 1),
        (CollectionCardIdentifier::CollectorNumberSet { collector_number: "MM3-28".to_string(), set: "PLST".to_string() }, 1),
        (CollectionCardIdentifier::CollectorNumberSet { collector_number: "35p".to_string(), set: "PDSK".to_string() }, 1),
    ]
}

fn check_against_ground_truth(test_card_map: &DeckList) {
    let truth = ground_truth();
    assert_eq!(test_card_map.identifiers().len(), truth.len());
    for (card, count) in truth {
        assert_eq!(
            test_card_map.get(&card).unwrap_or_else(|| panic!("Parsed card data should contain {:?}\nParsed card data: {:?}", card, test_card_map.identifiers())),
            count
        );
    }
}

#[test]
fn deck_formats_test_parsing() {
    let test_card_map = parse_txt_data(TEST_CARDS).expect("Parsing of test card data failed");
    check_against_ground_truth(&test_card_map);
}

#[test]
fn deck_parsers_test_parsing() {
    let test_card_map = parse_txt_data(TEST_CARDS).expect("Parsing of test card data failed");
    check_against_ground_truth(&test_card_map);
}

#[test]
fn foil_marker_and_zero_counts() {
    let deck = parse_txt_data("2 Opt (XLN) 65 *F*\n0 Shock\n3 shock\n").expect("parsing failed");
    let opt = CollectionCardIdentifier::CollectorNumberSet { collector_number: "65".to_string(), set: "xln".to_string() };
    assert_eq!(deck.get(&opt), Some(2));
    assert_eq!(deck.get(&CollectionCardIdentifier::Name { name: "Shock".to_string() }), Some(3));
    assert_eq!(deck.identifiers().len(), 2);
}

#[test]
fn oversized_count_is_refused() {
    match parse_txt_data("99999999999999999999999 Opt\n") {
        Err(DeckParseError::InvalidCount(digits)) => assert_eq!(digits, "99999999999999999999999"),
        other => panic!("expected a count error, got {:?}", other.map(|d| d.identifiers().len())),
    }
}

#[test]
fn counts_read_ascii_digits_only() {
    assert_eq!(parse_count("0"), Some(0));
    assert_eq!(parse_count("12"), Some(12));
    assert_eq!(parse_count("18446744073709551615"), Some(usize::MAX));
    assert_eq!(parse_count("18446744073709551616"), None);
    assert_eq!(parse_count(""), None);
    assert_eq!(parse_count("1a"), None);
    assert_eq!(parse_count("+1"), None);
}

#[test]
fn captures_missing_groups_are_skipped() {
    let caps = vec![
        vec![Some("x".to_string()), Some("4".to_string()), None, None, Some("Opt".to_string())],
        vec![Some("x".to_string()), None, None, None, Some("Shock".to_string())],
        vec![Some("x".to_string()), Some("2".to_string())],
        vec![Some("x".to_string()), Some("1".to_string()), None, None, Some("Bolt".to_string()), Some("m10".to_string())],
    ];
    let deck = deck_list_from_captures(&caps).expect("captures should read");
    assert_eq!(deck.identifiers().len(), 2);
    assert_eq!(deck.get(&CollectionCardIdentifier::Name { name: "opt".to_string() }), Some(4));
    assert_eq!(
        deck.get(&CollectionCardIdentifier::NameSet { name: "Bolt".to_string(), set: "M10".to_string() }),
        Some(1)
    );
}

use scryfall::api::CardLookup;
use scryfall::request::{collection_body, request_for};

#[test]
fn lookup_paths_and_queries() {
    let r = request_for(&CardLookup::Id(0xa1a2a3a4b1b2c1c2d1d2d3d4d5d6d7d8));
    assert_eq!(r.path, "cards/a1a2a3a4-b1b2-c1c2-d1d2-d3d4d5d6d7d8");
    assert!(r.query.is_empty());
    assert_eq!(request_for(&CardLookup::MtgoId(12345)).path, "cards/mtgo/12345");
    assert_eq!(request_for(&CardLookup::MultiverseId(0)).path, "cards/multiverse/0");
    assert_eq!(request_for(&CardLookup::MultiverseId(usize::MAX)).path, format!("cards/multiverse/{}", usize::MAX));
    assert_eq!(request_for(&CardLookup::MtgoId(90)).path, "cards/mtgo/90");
    let named = request_for(&CardLookup::Named { fuzzy: "Opt".to_string(), set: Some("xln".to_string()) });
    assert_eq!(named.path, "cards/named");
    assert_eq!(named.query, vec![("fuzzy".to_string(), "Opt".to_string()), ("set".to_string(), "xln".to_string())]);
    let numbered = request_for(&CardLookup::CollectorNumber { set: "plst".to_string(), collector_number: "MM3-28".to_string() });
    assert_eq!(numbered.path, "cards/plst/MM3-28");
}

#[test]
fn collection_body_lists_identifiers() {
    let ids = vec![
        CollectionCardIdentifier::Id { id: 0xa1a2a3a4b1b2c1c2d1d2d3d4d5d6d7d8 },
        CollectionCardIdentifier::MtgoId { mtgo_id: 7 },
        CollectionCardIdentifier::Name { name: "Say \"hi\"\\\n".to_string() },
        CollectionCardIdentifier::NameSet { name: "Opt".to_string(), set: "xln".to_string() },
        CollectionCardIdentifier::CollectorNumberSet { collector_number: "65".to_string(), set: "xln".to_string() },
    ];
    let body = collection_body(&ids);
    assert_eq!(
        body,
        "{\"identifiers\":[{\"id\":\"a1a2a3a4-b1b2-c1c2-d1d2-d3d4d5d6d7d8\"},{\"mtgo_id\":7},{\"name\":\"Say \\\"hi\\\"\\\\\\n\"},{\"set\":\"xln\",\"name\":\"Opt\"},{\"set\":\"xln\",\"collector_number\":\"65\"}]}"
    );
    assert_eq!(collection_body(&vec![]), "{\"identifiers\":[]}");
    let parsed: serde_json::Value = serde_json::from_str(&body).unwrap();
    assert_eq!(parsed["identifiers"][2]["name"], "Say \"hi\"\\\n");
}

#[test]
fn identifiers_describe_themselves() {
    assert_eq!(CollectionCardIdentifier::Id { id: 1 }.describe(), "Id(00000000-0000-0000-0000-000000000001)");
    assert_eq!(CollectionCardIdentifier::MultiverseId { multiverse_id: 409574 }.describe(), "MultiverseId(409574)");
    assert_eq!(
        CollectionCardIdentifier::CollectorNumberSet { collector_number: "35p".to_string(), set: "PDSK".to_string() }.describe(),
        "CollectorNumberSet(35p, PDSK)"
    );
    assert_eq!(CollectionCardIdentifier::NameSet { name: "Opt".to_string(), set: "XLN".to_string() }.describe(), "NameSet(Opt, XLN)");
}
