//! TLS parsing over raw bytes, with no I/O.
//!
//! `grease`, `cipher` and `version` are leaves; `record` and `extensions`
//! are mid-level; `client_hello`, `server_hello` and `certificate` compose
//! them; `builder` is the inverse direction (serialization).

pub mod builder;
pub mod certificate;
pub mod bytes;
pub mod cipher;
pub mod client_hello;
pub mod extensions;
pub mod grease;
pub mod record;
pub mod roundtrip;
pub mod server_hello;
pub mod version;

pub use extensions::{Extension, KeyShareEntry};
pub use grease::{filter_grease, is_grease};
pub use record::{ContentType, TlsRecord};
pub use version::{real_version, TlsVersion};
pub use client_hello::ClientHello;
pub use server_hello::ServerHello;
pub use builder::ClientHelloBuilder;
