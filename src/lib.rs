//! Wire-protocol core of a client for a RESP-style key-value server: a command
//! encoder that frames arguments as an array of bulk strings, and a decoder that
//! reads one reply value from a byte buffer.
//!
//! - [`types`]: the reply and error model, and the conversion of typed values
//!   into command arguments;
//! - [`args`]: the conversions for integers, booleans, bytes, text, sequences,
//!   options, arrays and tuples;
//! - [`cmd`]: commands, batches and their wire form;
//! - [`parser`]: the decoder, stated as spec functions and proved against them;
//! - [`roundtrip`]: the proofs that the decoder reads back what is encoded;
//! - [`text`]: decimal text, and the text functions of std that the decoder uses.
pub mod args;
pub mod cmd;
pub mod parser;
pub mod roundtrip;
pub mod text;
pub mod types;
