//! DNS messages on the wire: header, questions and resource records of the
//! five supported types, encoded to and decoded from their octet form.
//!
//! Every encoder states the exact octets it produces and every decoder the
//! exact value, remainder or failure it returns, over the mathematical models
//! that the modules define beside their types.
//!
//! - [`dns`] holds the types with their models and encoders, and what is
//!   proved of the two directions together: what is written reads back, and
//!   what is cut short fails as truncated.
//! - [`parser`] holds the decoders.
//! - [`resolver`] builds the query of a lookup.
//! - [`wire`] holds the integers that all of them are made of.

pub mod dns;
pub mod error;
pub mod parser;
pub mod resolver;
mod text;
pub mod wire;

pub use error::CodecError;
