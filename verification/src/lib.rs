//! An interned, reference-counted string handle.
//!
//! A [`table::Table`] maps text to canonical, shared entries and tracks one
//! reference count per entry.  An [`atom::Atom`] is a handle owning one unit
//! of reference count on one entry; it exposes hashing, comparison against
//! native strings, and extraction of the stored UTF-16 code units.  Text is
//! stored as UTF-16; the encoding and decoding between Rust characters and
//! code units is defined and proved in [`utf16`].

pub mod atom;
pub mod table;
pub mod utf16;
