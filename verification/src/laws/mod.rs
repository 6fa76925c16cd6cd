//! What holds of the library across its functions, and of each of them beyond
//! how it goes about its work.

pub mod bind;
pub mod controls;
pub mod counting;
pub mod entries;
pub mod extended;
pub mod filter;
pub mod ldif;
pub mod matching;
pub mod messages;
pub mod monitoring;
pub mod order;
pub mod paging;
pub mod schema;
pub mod scope;
pub mod search;
pub mod server;
pub mod startup;
pub mod texts;
pub mod urls;
pub mod write;
