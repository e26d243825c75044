//! Decoding a JSON array of objects from a stream that arrives in pieces.
//!
//! [`decoder::JsonArrayStream`] takes the text of the stream chunk by chunk
//! and hands out the text of each object as soon as it is complete, without
//! ever holding more than the object in progress. [`model`] says what it
//! does, character by character; [`grammar`] says what an array of objects
//! is, without the decoder; [`laws`] proves that the two agree, and that the
//! cuts between chunks do not show.
//!
//! [`assembler::TextAssembler`] makes text of the bytes of a stream, whose
//! pieces may end inside a character. [`session::Session`] holds the
//! decisions of a run that reads such a stream, decodes its records and
//! counts them. [`octets`] holds the arithmetic on the octets of addresses.
pub mod assembler;
pub mod decoder;
pub mod grammar;
pub mod laws;
pub mod model;
pub mod octets;
pub mod session;
pub mod text;
