//! A minimal, read-only IMAP client core: tagged request/response framing,
//! literal octet blocks, quoted-string encoding, and the post-processing for
//! the retrieve / parse / list / mime operations. All protocol logic is
//! verified; socket and terminal I/O live outside the library.

pub mod args;
pub mod bytes_util;
pub mod cli_args;
pub mod engine;
pub mod envelope;
pub mod error;
pub mod framer;
pub mod ops;
pub mod protocol;
pub mod quote;
