//! An in-memory key-value store spoken to over TCP with a length-prefixed
//! binary protocol: the wire codec, the command model, the store, and the
//! readiness-driven connection state machine that ties them together.
//!
//! Every integer on the wire is a 4-byte little-endian `u32`. A request whose
//! bytes cannot be decoded is answered with `StatusCodes::ServerErr` and a
//! message that says what was missing; the connection stays open. A missing
//! key is answered with `StatusCodes::ClientErr`.

pub mod client;
pub mod command;
pub mod connection;
pub mod convert;
pub mod frame;
pub mod request;
pub mod response;
pub mod server;
pub mod store;
pub mod text;
pub mod wire;

pub use client::Exchange;
pub use command::Command;
pub use connection::{classify, Connection, Interest, IoErrorKind, IoOutcome, Phase};
pub use convert::{Extract, OutOf};
pub use frame::{FrameReader, Layout};
pub use request::{DecodeError, EncodeError, Field, Request};
pub use response::{RawResponse, Response, StatusCodes};
pub use server::{Server, CLIENT_TOKEN, SERVER_TOKEN};
pub use store::Store;
