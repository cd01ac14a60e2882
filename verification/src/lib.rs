//! Bridge library between a structured RPC chat protocol and a tag-markup
//! based upstream messaging protocol.
//!
//! The core pieces are a markup parser with an exact-inverse serializer
//! (`element`, `parser`), a bidirectional converter between the markup tree
//! and the served protocol's typed message elements (`kritor`, `convert`),
//! the upstream event schema and its conversion into served events
//! (`schema`), a latest-value broadcast slot (`watch`), the event connection
//! state machine (`conn`), and the upstream RPC client's request preparation
//! and status mapping (`client`).

pub mod client;
pub mod config;
pub mod conn;
pub mod convert;
pub mod element;
pub mod kritor;
pub mod parser;
pub mod roundtrip;
pub mod schema;
pub mod text;
pub mod watch;
