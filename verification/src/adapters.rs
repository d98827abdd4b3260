//! Containers that add no bytes of their own: arrays, whose elements lie
//! one after another, and wrappers that are laid out as what they hold.

use crate::cell::ByteCell;
use crate::padding::{init_each, is_data_of_each, PaddingBane};
use core::mem::ManuallyDrop;
use core::num::Wrapping;
use vstd::prelude::*;

verus! {

/// `core::num::Wrapping`, of which nothing but the type is known here.
#[verifier::external_type_specification]
#[verifier::external_body]
#[verifier::reject_recursive_types(T)]
pub struct ExWrapping<T>(Wrapping<T>);

/// The field `0` of a `Wrapping`. Nothing is claimed of what it holds.
#[verifier::external_body]
fn wrapped<T>(wrapping: &Wrapping<T>) -> (inner: &T) {
    &wrapping.0
}

/// An array has the metadata of its elements, none where it has no element.
/// Its storage is that of its elements, one after another, and its padding
/// is the padding inside each element.
impl<T: PaddingBane, const N: usize> PaddingBane for [T; N] {
    type Fields = Option<T::Fields>;

    open spec fn layout() -> Self::Fields {
        if N == 0 {
            None
        } else {
            Some(T::layout())
        }
    }

    open spec fn size() -> nat {
        (N * T::size()) as nat
    }

    open spec fn is_data(i: int) -> bool {
        is_data_of_each::<T>(i)
    }

    fn get_fields(&self) -> (fields: Self::Fields) {
        if N == 0 {
            None
        } else {
            Some(self[0].get_fields())
        }
    }

    fn init_padding<B: ByteCell>(fields: Self::Fields, bytes: &mut [B]) {
        match fields {
            Some(of_element) => {
                init_each::<T, B>(of_element, N, bytes);
            },
            None => {},
        }
    }
}

/// The storage of a `ManuallyDrop` is that of what it holds.
impl<T: PaddingBane> PaddingBane for ManuallyDrop<T> {
    type Fields = T::Fields;

    open spec fn layout() -> Self::Fields {
        T::layout()
    }

    open spec fn size() -> nat {
        T::size()
    }

    open spec fn is_data(i: int) -> bool {
        T::is_data(i)
    }

    fn get_fields(&self) -> (fields: Self::Fields) {
        (&**self).get_fields()
    }

    fn init_padding<B: ByteCell>(fields: Self::Fields, bytes: &mut [B]) {
        T::init_padding(fields, bytes);
    }
}

/// The storage of a `Wrapping` is that of what it holds.
impl<T: PaddingBane> PaddingBane for Wrapping<T> {
    type Fields = T::Fields;

    open spec fn layout() -> Self::Fields {
        T::layout()
    }

    open spec fn size() -> nat {
        T::size()
    }

    open spec fn is_data(i: int) -> bool {
        T::is_data(i)
    }

    fn get_fields(&self) -> (fields: Self::Fields) {
        wrapped(self).get_fields()
    }

    fn init_padding<B: ByteCell>(fields: Self::Fields, bytes: &mut [B]) {
        T::init_padding(fields, bytes);
    }
}

} // verus!
