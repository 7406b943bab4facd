//! Turns the items of a syndication feed into short posts.
//!
//! The crate holds the parts that decide something: splitting an HTML body
//! into text and link segments, fitting those segments into a character
//! budget while keeping byte-exact link spans, the bounded record of the
//! items that were already posted, and the per-item decisions of a posting
//! cycle. Fetching, posting and file access belong to the caller.

pub mod compose;
pub mod compose_laws;
pub mod driver;
pub mod driver_laws;
pub mod ledger;
pub mod ledger_store;
pub mod markup;
pub mod richtext;
pub mod rss_ext;
pub mod text;
pub mod xrpc_client;
