//! Compact, comparison-cheap string handles ("atoms").
//!
//! A short string lives inside an eight-byte inline buffer; a longer one
//! lives in a shared, reference-counted heap record that an interning store
//! deduplicates by content. The handle is a plain sum type, an eight-byte
//! word or an `Arc`, so it takes two machine words rather than one.
pub mod atom;
pub mod heap;
pub mod store;
pub mod tags;

pub use atom::Atom;
pub use heap::{fx_str_hash, Header, HeapAtom};
pub use store::{interned, AtomStore, STORE_CAPACITY};
pub use tags::{Tag, TaggedValue, MAX_INLINE_LEN};
