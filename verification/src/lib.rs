//! Parakeet: a messenger core that sends over Matrix by default and falls back
//! to SMS, reconciling the two copies of one logical message into one.

pub mod text;
pub mod seqs;
pub mod id;
pub mod peer;
pub mod sms_frame;
pub mod message;
pub mod outbox;
pub mod reconcile;
pub mod error;
pub mod async_state;
pub mod clock;
pub mod connectivity;
pub mod schema;
pub mod view;
pub mod directory;
pub mod activity;
pub mod ids;
pub mod store;
pub mod transport;
pub mod ports;
pub mod client;
pub mod ingest;
pub mod send;
pub mod matrix_fake;
pub mod sms_fake;
pub mod feed;
pub mod demo;
