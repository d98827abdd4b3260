//! Byte views of structured values whose layout contains padding.
//!
//! The storage of a value may hold bytes that belong to no field. Such a
//! byte holds nothing that may be read until something has been written
//! there. This crate writes a fixed byte, the sentinel, into each of them
//! and leaves the data alone, so that the whole storage can be read as
//! bytes.
//!
//! A type tells where its fields lie by implementing [`PaddingBane`]. The
//! integers and other types without padding are in [`pod`], arrays and
//! transparent wrappers in [`adapters`]. A composite type gives a
//! [`TypedField`] for each of its fields and fills its padding by
//! [`init_struct_padding`], or by [`fill_gaps`] and every
//! [`TypedField::init_padding`] in turn:
//!
//! ```text
//! struct Example { a: u8, b: u64, c: u16 }   // a at 0, b at 8, c at 16, 24 bytes
//!
//! impl PaddingBane for Example {
//!     type Fields = Cons<u8, Cons<u64, Cons<u16, Nil>>>;
//!
//!     fn get_fields(&self) -> Self::Fields {
//!         // offset and size of each field, with the metadata of its type
//!     }
//!
//!     fn init_padding<B: ByteCell>(fields: Self::Fields, bytes: &mut [B]) {
//!         let mut raw = [Field { offset: 0, size: 0 }; 3];
//!         init_struct_padding(&fields, &mut raw, bytes);
//!     }
//! }
//! ```
//!
//! The byte views are in [`view`]: [`value_bytes`] for the storage of one
//! value, [`slice_bytes`] for that of several in a row. After either, the
//! bytes `01 ?? ?? ?? ?? ?? ?? ?? 02 00 00 00 00 00 00 00 03 00 ?? ?? ?? ?? ?? ??`
//! of an `Example` read `01 fe fe fe fe fe fe fe 02 00 00 00 00 00 00 00 03 00 fe fe fe fe fe fe`.

pub mod adapters;
pub mod cell;
pub mod composite;
pub mod field;
pub mod gaps;
pub mod padding;
pub mod pod;
pub mod view;

pub use cell::{ByteCell, SENTINEL};
pub use composite::{init_struct_padding, Cons, FieldList, Nil};
pub use field::{is_well_formed, Field};
pub use gaps::{fill_gaps, fill_range, sort_by_offset};
pub use padding::{init_each, PaddingBane, TypedField};
pub use view::{slice_bytes, value_bytes, SafeBytes};
