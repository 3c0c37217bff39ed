//! A multi-protocol mail retrieval library: mailbox hierarchies, session
//! state, fetch queries and body-structure walking, with machine-checked
//! contracts.

pub mod address;
pub mod attachment;
pub mod body_structure;
pub mod builder;
pub mod cache;
pub mod config;
pub mod content;
pub mod discover;
pub mod error;
pub mod fetch;
pub mod flag;
pub mod folder;
pub mod headers;
pub mod hierarchy;
pub mod mailbox;
pub mod maildir;
pub mod message;
pub mod pairs;
pub mod parser;
pub mod part_number;
pub mod pop;
pub mod protocol;
pub mod query;
pub mod session;
pub mod text;
pub mod tree;
