//! Universally Unique Lexicographically Sortable Identifiers: a 128-bit value
//! made of a 48-bit millisecond timestamp and an 80-bit random payload, its
//! 26-character Crockford base-32 text form, and a generator whose successive
//! values are strictly increasing.
//!
//! - `codec` converts between a value, its two fields and its text; `bytes`
//!   between a value and its 16 bytes; `alphabet` holds the symbols.
//! - `generator` hands out values in increasing order; `batch` asks it for
//!   many at a time and writes them.
//! - `inspect` takes a text apart for display; `pinned` settles the timestamp
//!   that a run is pinned to.
//! - `laws` states what holds of these together: round trips, orders, and
//!   the strict growth of generated values. `digits` holds the arithmetic
//!   behind them.
//! - `trusted` holds the contracts of the code that is called and not
//!   verified here: the clock and the random number generator behind
//!   `ulid::Ulid::new`, the RFC 3339 parser and writer of `chrono`, and
//!   `String::push`.

pub mod alphabet;
pub mod batch;
pub mod bytes;
pub mod codec;
pub mod digits;
pub mod error;
pub mod generator;
pub mod inspect;
pub mod laws;
pub mod pinned;
pub mod trusted;

pub use batch::{generate_ulids, Batch};
pub use bytes::{from_bytes, to_bytes, BYTES_LEN};
pub use codec::{decode, encode, join, render, split, MAX_RANDOM, MAX_TIMESTAMP, TEXT_LEN};
pub use error::UlidError;
pub use generator::Generator;
pub use inspect::{describe, inspect_ulid, random_hex, Inspection};
pub use pinned::{millis_to_timestamp, resolve_timestamp, ResolveError};
