//! A verified DNS wire-format codec and the decision core of an iterative
//! resolver.
//!
//! The codec encodes outgoing query packets and decodes incoming responses
//! (header, questions, resource records), including decompression of
//! pointer-encoded domain names. It is a pure transformation over byte
//! buffers; the UDP transport that carries the packets lives outside this
//! library.
//!
//! Domain names are handled as dotted byte strings (`Vec<u8>`); the library
//! restricts label content to ASCII and rejects anything else while
//! decoding.

pub mod bytes;
pub mod header;
pub mod name;
pub mod packet;
pub mod query;
pub mod question;
pub mod record;
pub mod resolve;
pub mod types;

pub use types::DnsError;
pub use types::DnsResult;
pub use types::Ipv4;
