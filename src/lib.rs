//! Deck resolution against a remote card catalogue, and comparison of two
//! resolved decks.

pub mod ascii;
pub mod identifier;
pub mod card;
pub mod deck_list;
pub mod reconcile;
pub mod api_classes;
pub mod batch;
pub mod api;
pub mod resolve;
pub mod deck_diff;
pub mod images;
pub mod order;
pub mod deck_text;
pub mod deck_json;
pub mod proxies;
pub mod request;
