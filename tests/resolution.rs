use scryfall::api::{all_printings, card_lookup, check_response, read_page, CardLookup, PageError};
use scryfall::api_classes::{ApiObject, Error, List};
use scryfall::batch::plan_batches;
use scryfall::card::{Card, RelatedCard};
use scryfall::deck_list::DeckList;
use scryfall::identifier::CollectionCardIdentifier;
use scryfall::reconcile::count_for;
use scryfall::resolve::{get_counts_for_cards, CardParseError, ResolvedCard, Resolution};

fn card(id: u128, name: &str) -> Card {
    Card {
        id,
        name: name.to_string(),
        set: "lea".to_string(),
        collector_number: "1".to_string(),
        mtgo_id: None,
        multiverse_ids: None,
        oracle_id: None,
        illustration_id: None,
        type_line: Some("Instant".to_string()),
        all_parts: None,
        card_faces: None,
        image_uris: None,
        prints_search_uri: String::new(),
        scryfall_uri: String::new(),
    }
}

fn name(n: &str) -> CollectionCardIdentifier {
    CollectionCardIdentifier::Name { name: n.to_string() }
}

fn list(data: Vec<ApiObject>, not_found: Option<Vec<CollectionCardIdentifier>>) -> ApiObject {
    ApiObject::List(List { data, not_found, has_more: None, next_page: None, total_cards: None, warnings: None })
}

fn error_payload() -> Error {
    Error { status: 404, code: "not_found".to_string(), details: "No card".to_string(), error_type: None, warnings: None }
}

#[test]
fn names_compare_without_case() {
    assert!(name("lightning bolt") == name("Lightning Bolt"));
    let a = CollectionCardIdentifier::NameSet { name: "Anim Pakal".to_string(), set: "lci".to_string() };
    let b = CollectionCardIdentifier::NameSet { name: "ANIM PAKAL".to_string(), set: "LCI".to_string() };
    assert!(a == b);
    let c = CollectionCardIdentifier::CollectorNumberSet { collector_number: "35P".to_string(), set: "pdsk".to_string() };
    let d = CollectionCardIdentifier::CollectorNumberSet { collector_number: "35p".to_string(), set: "PDSK".to_string() };
    assert!(c == d);
    assert!(name("lightning bolt") != name("lightning bolts"));
    assert!(CollectionCardIdentifier::Id { id: 1 } != CollectionCardIdentifier::OracleId { oracle_id: 1 });
    assert!(name("Émile") != name("émile"));
}

#[test]
fn deck_list_keys_ignore_case() {
    let mut deck = DeckList::new();
    assert!(deck.is_empty());
    deck.insert(name("Lightning Bolt"), 4);
    deck.insert(name("lightning bolt"), 2);
    assert_eq!(deck.get(&name("LIGHTNING BOLT")), Some(2));
    assert_eq!(deck.identifiers().len(), 1);
    assert_eq!(deck.get(&name("Shock")), None);
    assert!(!deck.is_empty());
}

#[test]
fn count_follows_priority_order() {
    let mut c = card(7, "Lightning Bolt");
    c.mtgo_id = Some(11);
    c.multiverse_ids = Some(vec![20, 21]);
    c.oracle_id = Some(30);
    let mut deck = DeckList::new();
    deck.insert(name("lightning bolt"), 4);
    deck.insert(CollectionCardIdentifier::OracleId { oracle_id: 30 }, 5);
    deck.insert(CollectionCardIdentifier::MultiverseId { multiverse_id: 21 }, 6);
    assert_eq!(count_for(&deck, &c), Some(6));
    deck.insert(CollectionCardIdentifier::MultiverseId { multiverse_id: 20 }, 8);
    assert_eq!(count_for(&deck, &c), Some(8));
    deck.insert(CollectionCardIdentifier::CollectorNumberSet { collector_number: "1".to_string(), set: "LEA".to_string() }, 3);
    assert_eq!(count_for(&deck, &c), Some(3));
    deck.insert(CollectionCardIdentifier::Id { id: 7 }, 2);
    assert_eq!(count_for(&deck, &c), Some(2));
    let empty = DeckList::new();
    assert_eq!(count_for(&empty, &c), None);
}

#[test]
fn name_and_set_win_over_name() {
    let c = card(7, "Lightning Bolt");
    let mut deck = DeckList::new();
    deck.insert(name("Lightning Bolt"), 4);
    deck.insert(CollectionCardIdentifier::NameSet { name: "Lightning Bolt".to_string(), set: "LEA".to_string() }, 1);
    assert_eq!(count_for(&deck, &c), Some(1));
}

#[test]
fn unlisted_cards_count_once() {
    let mut deck = DeckList::new();
    deck.insert(name("Shock"), 3);
    let r = get_counts_for_cards(&deck, vec![card(1, "Shock"), card(2, "Opt")]);
    assert_eq!(r.len(), 2);
    assert_eq!(r[0].count, 3);
    assert_eq!(r[1].count, 1);
    assert_eq!(r[1].card.id, 2);
}

#[test]
fn batches_are_even_and_bounded() {
    for (n, expected) in [(0usize, vec![]), (1, vec![1]), (75, vec![75]), (76, vec![38, 38]), (150, vec![75, 75]), (151, vec![51, 50, 50])] {
        let ids: Vec<CollectionCardIdentifier> = (0..n).map(|i| CollectionCardIdentifier::MtgoId { mtgo_id: i }).collect();
        let batches = plan_batches(&ids);
        let sizes: Vec<usize> = batches.iter().map(|b| b.len()).collect();
        assert_eq!(sizes, expected);
        assert_eq!(batches.len(), n.div_ceil(75));
        let flat: Vec<CollectionCardIdentifier> = batches.into_iter().flatten().collect();
        assert!(flat == ids);
    }
}

#[test]
fn batch_of_cards_is_counted_and_misses_are_kept() {
    let mut deck = DeckList::new();
    deck.insert(name("Shock"), 3);
    deck.insert(name("Opt"), 2);
    deck.insert(name("Nonsense"), 1);
    let mut r = Resolution::new(deck, false);
    let answer = list(
        vec![ApiObject::Card(card(1, "Shock")), ApiObject::Card(card(2, "Opt"))],
        Some(vec![name("Nonsense")]),
    );
    assert!(r.absorb_batch(answer).is_ok());
    assert_eq!(r.resolved.len(), 2);
    assert_eq!(r.resolved[0].count, 3);
    assert_eq!(r.resolved[1].count, 2);
    assert_eq!(r.not_found.len(), 1);
    assert!(r.not_found[0] == name("nonsense"));
    let lookup = card_lookup(&r.not_found[0].clone()).unwrap();
    assert_eq!(lookup, CardLookup::Named { fuzzy: "Nonsense".to_string(), set: None });
    assert!(r.absorb_lookup(&name("Nonsense"), ApiObject::Card(card(3, "Nonsuch"))).is_ok());
    assert_eq!(r.resolved.len(), 3);
    assert_eq!(r.resolved[2].count, 1);
    assert!(r.take_token_request().is_none());
}

#[test]
fn lookup_of_unlisted_identifier_counts_once() {
    let mut r = Resolution::new(DeckList::new(), false);
    assert!(r.absorb_lookup(&name("Opt"), ApiObject::Card(card(3, "Opt"))).is_ok());
    assert_eq!(r.resolved[0].count, 1);
}

#[test]
fn wrong_objects_are_errors() {
    let mut r = Resolution::new(DeckList::new(), false);
    match r.absorb_batch(ApiObject::Card(card(1, "Shock"))) {
        Err(CardParseError::ObjectNotList(ApiObject::Card(c))) => assert_eq!(c.id, 1),
        _ => panic!("expected a list error"),
    }
    match r.absorb_batch(list(vec![ApiObject::Card(card(1, "Shock")), ApiObject::Deck], None)) {
        Err(CardParseError::ObjectNotCard(ApiObject::Deck)) => {},
        _ => panic!("expected a card error"),
    }
    match r.absorb_lookup(&name("Shock"), ApiObject::DeckEntry) {
        Err(CardParseError::ObjectNotCard(ApiObject::DeckEntry)) => {},
        _ => panic!("expected a card error"),
    }
}

#[test]
fn oracle_and_illustration_ids_cannot_be_looked_up() {
    assert!(card_lookup(&CollectionCardIdentifier::OracleId { oracle_id: 5 }).is_err());
    assert!(card_lookup(&CollectionCardIdentifier::IllustrationId { illustration_id: 5 }).is_err());
    assert_eq!(card_lookup(&CollectionCardIdentifier::Id { id: 5 }).unwrap(), CardLookup::Id(5));
    assert_eq!(card_lookup(&CollectionCardIdentifier::MtgoId { mtgo_id: 6 }).unwrap(), CardLookup::MtgoId(6));
    assert_eq!(
        card_lookup(&CollectionCardIdentifier::MultiverseId { multiverse_id: 7 }).unwrap(),
        CardLookup::MultiverseId(7)
    );
    assert_eq!(
        card_lookup(&CollectionCardIdentifier::NameSet { name: "Opt".to_string(), set: "xln".to_string() }).unwrap(),
        CardLookup::Named { fuzzy: "Opt".to_string(), set: Some("xln".to_string()) }
    );
    assert_eq!(
        card_lookup(&CollectionCardIdentifier::CollectorNumberSet { collector_number: "65".to_string(), set: "xln".to_string() })
            .unwrap(),
        CardLookup::CollectorNumber { set: "xln".to_string(), collector_number: "65".to_string() }
    );
}

#[test]
fn error_payloads_become_errors() {
    match check_response(ApiObject::Error(error_payload())) {
        Err(e) => assert_eq!(e.error.status, 404),
        Ok(_) => panic!("expected an error"),
    }
    assert!(check_response(ApiObject::Card(card(1, "Opt"))).is_ok());
}

#[test]
fn page_without_link_ends_search() {
    let page = ApiObject::List(List {
        data: vec![ApiObject::Card(card(1, "Opt"))],
        not_found: None,
        has_more: Some(true),
        next_page: None,
        total_cards: None,
        warnings: None,
    });
    let p = read_page(page).unwrap();
    assert_eq!(p.data.len(), 1);
    assert!(p.next_page.is_none());
}

#[test]
fn pages_follow_links_only_when_more_remain() {
    let more = ApiObject::List(List {
        data: vec![],
        not_found: None,
        has_more: Some(true),
        next_page: Some("https://example.org/2".to_string()),
        total_cards: None,
        warnings: None,
    });
    assert_eq!(read_page(more).unwrap().next_page, Some("https://example.org/2".to_string()));
    let last = ApiObject::List(List {
        data: vec![],
        not_found: None,
        has_more: Some(false),
        next_page: Some("https://example.org/3".to_string()),
        total_cards: None,
        warnings: None,
    });
    assert!(read_page(last).unwrap().next_page.is_none());
    assert!(matches!(read_page(ApiObject::Error(error_payload())), Err(PageError::Api(_))));
    assert!(matches!(read_page(ApiObject::Card(card(1, "Opt"))), Err(PageError::NotList(_))));
}

#[test]
fn printings_must_all_be_cards() {
    let ok = all_printings(vec![ApiObject::Card(card(1, "Opt")), ApiObject::Card(card(2, "Opt"))]).unwrap();
    assert_eq!(ok.len(), 2);
    assert_eq!(ok[1].id, 2);
    let err = all_printings(vec![ApiObject::Card(card(1, "Opt")), ApiObject::CardDigest]).unwrap_err();
    assert_eq!(err.expected, "Card");
    assert!(matches!(err.received, ApiObject::CardDigest));
}

fn token_part(id: u128, component: &str, type_line: &str) -> RelatedCard {
    RelatedCard { id, component: component.to_string(), name: "Goblin".to_string(), type_line: type_line.to_string() }
}

#[test]
fn tokens_are_noted_once_and_requested() {
    let mut maker = card(1, "Krenko");
    maker.all_parts = Some(vec![
        token_part(50, "token", "Creature"),
        token_part(51, "combo_piece", "Legendary Creature"),
        token_part(50, "token", "Creature"),
    ]);
    let mut other = card(2, "Goblin Maker");
    other.all_parts = Some(vec![token_part(52, "combo_piece", "Emblem")]);
    let mut r = Resolution::new(DeckList::new(), true);
    assert!(r.absorb_batch(list(vec![ApiObject::Card(maker), ApiObject::Card(other)], None)).is_ok());
    let request = r.take_token_request().unwrap();
    assert_eq!(request.identifiers().len(), 2);
    assert_eq!(request.get(&CollectionCardIdentifier::Id { id: 50 }), Some(1));
    assert_eq!(request.get(&CollectionCardIdentifier::Id { id: 52 }), Some(1));
    assert_eq!(request.get(&CollectionCardIdentifier::Id { id: 51 }), None);
    assert!(r.take_token_request().is_none());
}

#[test]
fn tokens_are_deduplicated_by_oracle_id() {
    let mut a = card(60, "Goblin");
    a.oracle_id = Some(900);
    let mut b = card(61, "Goblin");
    b.oracle_id = Some(900);
    let c = card(62, "Odd Token");
    let mut d = card(63, "Treasure");
    d.oracle_id = Some(901);
    let mut r = Resolution::new(DeckList::new(), true);
    r.absorb_tokens(vec![
        ResolvedCard { count: 1, card: a },
        ResolvedCard { count: 1, card: b },
        ResolvedCard { count: 1, card: c },
        ResolvedCard { count: 1, card: d },
    ]);
    let ids: Vec<u128> = r.resolved.iter().map(|t| t.card.id).collect();
    assert_eq!(ids, vec![61, 63]);
}

#[test]
fn every_identifier_is_resolved_once() {
    let mut deck = DeckList::new();
    deck.insert(name("Shock"), 3);
    deck.insert(name("Opt"), 2);
    deck.insert(name("Bolt"), 4);
    deck.insert(name("Missing One"), 2);
    deck.insert(name("Missing Two"), 1);
    let mut r = Resolution::new(deck, false);
    let answers = vec![
        list(vec![ApiObject::Card(card(1, "Shock")), ApiObject::Card(card(2, "Opt"))], Some(vec![name("Missing One")])),
        list(vec![ApiObject::Card(card(3, "Bolt"))], Some(vec![name("Missing Two")])),
    ];
    assert!(r.absorb_batches(answers).is_ok());
    assert_eq!(r.resolved.len(), 3);
    assert_eq!(r.not_found.len(), 2);
    let lookups = vec![ApiObject::Card(card(4, "Missing Won")), ApiObject::Card(card(5, "Missing Too"))];
    assert!(r.absorb_lookups(lookups).is_ok());
    let counts: Vec<(u128, usize)> = r.resolved.iter().map(|c| (c.card.id, c.count)).collect();
    assert_eq!(counts, vec![(1, 3), (2, 2), (3, 4), (4, 2), (5, 1)]);
}

#[test]
fn a_wrong_answer_fails_the_whole_round() {
    let mut r = Resolution::new(DeckList::new(), false);
    let answers = vec![list(vec![ApiObject::Card(card(1, "Shock"))], None), ApiObject::Card(card(2, "Opt"))];
    assert!(matches!(r.absorb_batches(answers), Err(CardParseError::ObjectNotList(_))));
    let mut r = Resolution::new(DeckList::new(), false);
    assert!(r.absorb_batches(vec![list(vec![], Some(vec![name("A")]))]).is_ok());
    assert!(matches!(r.absorb_lookups(vec![ApiObject::Deck]), Err(CardParseError::ObjectNotCard(ApiObject::Deck))));
}
