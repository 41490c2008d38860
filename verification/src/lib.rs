//! A terminal companion for a game's achievement data: typed resources
//! fetched from a remote gateway, a disk-backed cache with per-kind expiry,
//! a read-through client that fetches only what the cache cannot answer,
//! and the state of the interface built on top. The cache file format and
//! the response decoding are implemented here, byte by byte: the cache
//! file's parser is proved inverse to its serializer, and the responses are
//! read under the looser grammar the gateway speaks.

pub mod api;
pub mod bookmarks;
pub mod cache;
pub mod checkbox;
pub mod client;
pub mod codec;
pub mod combinators;
pub mod endpoints;
pub mod events;
mod ext;
pub mod fetch;
pub mod input;
pub mod json;
pub mod list_selection;
pub mod reader;
pub mod response;
pub mod state;
pub mod text_box;
pub mod tracks;
pub mod views;
pub mod writer;

pub use cache::Cache;
pub use cache::CachedItem;
