//! Deserialization of CBOR.
//!
//! [`de`] holds the deserializer: it reads one value at a time off some bytes, as
//! the kind of value that the caller asks for or as the one that shows itself.
//! What it reads is stated in [`state`] over the bytes as [`wire`] describes
//! them. [`accept`] decides what a header means to each kind of value, and is of
//! use with any source of headers; [`decoder`] takes headers and strings off the
//! bytes.
//!
//! [`decisions`] and [`meaning`] state what each decision and each read comes to,
//! header by header.
//! [`laws`], [`reads`], [`encode`] and [`depth`] state what holds between the
//! reads: what one leaves for the next, that the bytes it takes decide it, that
//! values are read back as they are written, and what comes of the limit on how
//! deep values may be nested. [`visit`] states what follows of a whole value,
//! whoever reads it.

pub mod accept;
pub mod access;
pub mod answers;
pub mod bignum;
pub mod budget;
pub mod chunks;
pub mod de;
pub mod decisions;
pub mod decoder;
pub mod depth;
pub mod encode;
pub mod error;
pub mod header;
pub mod laws;
pub mod meaning;
pub mod overflow;
pub mod prefix;
pub mod reads;
pub mod state;
pub mod visit;
pub mod wire;
