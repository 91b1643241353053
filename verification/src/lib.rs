//! Contact ranking, contact persistence rules and the Telegram peer cache of a
//! desktop assistant, verified with Verus.

pub mod collect;
pub mod context;
pub mod errors;
pub mod history;
pub mod hydration;
pub mod json;
pub mod listing;
pub mod messages;
pub mod models;
pub mod names;
pub mod order;
pub mod peer_cache;
pub mod peer_metadata;
pub mod recent;
pub mod replies;
pub mod requests;
pub mod sampling;
pub mod saved;
pub mod score;
pub mod sources;
pub mod text;
pub mod text_map;
pub mod window;
