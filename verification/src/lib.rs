//! Nostos keeps a local store in step with a server.
//!
//! A client holds rows, applies the changes that the server sends, and queues its own
//! writes until they are sent. Contracts say what the functions return or change, and
//! the contracts are proved. The laws that span several functions are public proof
//! functions whose names start with `law_`.

// Texts, numbers, JSON and ordered collections.
pub mod text;
pub mod numbers;
pub mod json;
pub mod json_order;
pub mod ordered;
pub mod names;
pub mod sorting;
pub mod fnv;
pub mod base64url;
pub mod digest;

// Clocks, merged payloads, positions and changes.
pub mod hlc;
pub mod crdt;
pub mod counter;
pub mod merge_laws;
pub mod lsn;
pub mod events;

// Who is asking, and which rows they see.
pub mod principal;
pub mod session;
pub mod predicate;
pub mod match_laws;
pub mod lexer;
pub mod predicate_compile;
pub mod parse_laws;
pub mod predicate_json;
pub mod scope;
pub mod scope_laws;
pub mod rules;
pub mod rules_laws;
pub mod rules_validity;

// The store of a client, and what changes it.
pub mod storage;
pub mod outbox;
pub mod patch;
pub mod in_memory;
pub mod apply;
pub mod store_laws;
pub mod pull;
pub mod pull_snapshot;
pub mod snapshot_laws;
pub mod appwrite_pull;
pub mod pull_laws;
pub mod verdicts;
pub mod conformance;
pub mod attachments;

// The client in a browser.
pub mod transport;
pub mod engine;
pub mod socket;
pub mod client_laws;
pub mod sqlite_store;
pub mod sqlite_laws;

// The service that accounts are held with.
pub mod tier;
pub mod identity;
pub mod auth;
pub mod records;
pub mod license;
pub mod stripe;
pub mod payments;
pub mod routes;
pub mod config;
pub mod cloud_laws;
pub mod refusal_laws;
pub mod shape_laws;
pub mod value_laws;

// What the errors say.
pub mod messages;
