//! The base cases: types that are data in every byte.
//!
//! Each has a marker as its metadata and nothing to fill.

use crate::cell::ByteCell;
use crate::padding::PaddingBane;
use core::marker::{PhantomData, PhantomPinned};
use core::sync::atomic::{
    AtomicI16, AtomicI32, AtomicI64, AtomicI8, AtomicIsize, AtomicU16, AtomicU32, AtomicU64,
    AtomicU8, AtomicUsize,
};
use vstd::prelude::*;

verus! {

/// `core::marker::PhantomPinned`, of which nothing but the type is known
/// here.
#[verifier::external_type_specification]
#[verifier::external_body]
pub struct ExPhantomPinned(PhantomPinned);

impl PaddingBane for () {
    type Fields = PhantomData<()>;

    open spec fn layout() -> Self::Fields {
        PhantomData
    }

    open spec fn is_data(i: int) -> bool {
        true
    }

    fn get_fields(&self) -> (fields: Self::Fields) {
        PhantomData
    }

    fn init_padding<B: ByteCell>(fields: Self::Fields, bytes: &mut [B]) {
    }
}

impl PaddingBane for bool {
    type Fields = PhantomData<bool>;

    open spec fn layout() -> Self::Fields {
        PhantomData
    }

    open spec fn is_data(i: int) -> bool {
        true
    }

    fn get_fields(&self) -> (fields: Self::Fields) {
        PhantomData
    }

    fn init_padding<B: ByteCell>(fields: Self::Fields, bytes: &mut [B]) {
    }
}

impl PaddingBane for u8 {
    type Fields = PhantomData<u8>;

    open spec fn layout() -> Self::Fields {
        PhantomData
    }

    open spec fn is_data(i: int) -> bool {
        true
    }

    fn get_fields(&self) -> (fields: Self::Fields) {
        PhantomData
    }

    fn init_padding<B: ByteCell>(fields: Self::Fields, bytes: &mut [B]) {
    }
}

impl PaddingBane for i8 {
    type Fields = PhantomData<i8>;

    open spec fn layout() -> Self::Fields {
        PhantomData
    }

    open spec fn is_data(i: int) -> bool {
        true
    }

    fn get_fields(&self) -> (fields: Self::Fields) {
        PhantomData
    }

    fn init_padding<B: ByteCell>(fields: Self::Fields, bytes: &mut [B]) {
    }
}

impl PaddingBane for u16 {
    type Fields = PhantomData<u16>;

    open spec fn layout() -> Self::Fields {
        PhantomData
    }

    open spec fn is_data(i: int) -> bool {
        true
    }

    fn get_fields(&self) -> (fields: Self::Fields) {
        PhantomData
    }

    fn init_padding<B: ByteCell>(fields: Self::Fields, bytes: &mut [B]) {
    }
}

impl PaddingBane for i16 {
    type Fields = PhantomData<i16>;

    open spec fn layout() -> Self::Fields {
        PhantomData
    }

    open spec fn is_data(i: int) -> bool {
        true
    }

    fn get_fields(&self) -> (fields: Self::Fields) {
        PhantomData
    }

    fn init_padding<B: ByteCell>(fields: Self::Fields, bytes: &mut [B]) {
    }
}

impl PaddingBane for u32 {
    type Fields = PhantomData<u32>;

    open spec fn layout() -> Self::Fields {
        PhantomData
    }

    open spec fn is_data(i: int) -> bool {
        true
    }

    fn get_fields(&self) -> (fields: Self::Fields) {
        PhantomData
    }

    fn init_padding<B: ByteCell>(fields: Self::Fields, bytes: &mut [B]) {
    }
}

impl PaddingBane for i32 {
    type Fields = PhantomData<i32>;

    open spec fn layout() -> Self::Fields {
        PhantomData
    }

    open spec fn is_data(i: int) -> bool {
        true
    }

    fn get_fields(&self) -> (fields: Self::Fields) {
        PhantomData
    }

    fn init_padding<B: ByteCell>(fields: Self::Fields, bytes: &mut [B]) {
    }
}

impl PaddingBane for u64 {
    type Fields = PhantomData<u64>;

    open spec fn layout() -> Self::Fields {
        PhantomData
    }

    open spec fn is_data(i: int) -> bool {
        true
    }

    fn get_fields(&self) -> (fields: Self::Fields) {
        PhantomData
    }

    fn init_padding<B: ByteCell>(fields: Self::Fields, bytes: &mut [B]) {
    }
}

impl PaddingBane for i64 {
    type Fields = PhantomData<i64>;

    open spec fn layout() -> Self::Fields {
        PhantomData
    }

    open spec fn is_data(i: int) -> bool {
        true
    }

    fn get_fields(&self) -> (fields: Self::Fields) {
        PhantomData
    }

    fn init_padding<B: ByteCell>(fields: Self::Fields, bytes: &mut [B]) {
    }
}

impl PaddingBane for usize {
    type Fields = PhantomData<usize>;

    open spec fn layout() -> Self::Fields {
        PhantomData
    }

    open spec fn is_data(i: int) -> bool {
        true
    }

    fn get_fields(&self) -> (fields: Self::Fields) {
        PhantomData
    }

    fn init_padding<B: ByteCell>(fields: Self::Fields, bytes: &mut [B]) {
    }
}

impl PaddingBane for isize {
    type Fields = PhantomData<isize>;

    open spec fn layout() -> Self::Fields {
        PhantomData
    }

    open spec fn is_data(i: int) -> bool {
        true
    }

    fn get_fields(&self) -> (fields: Self::Fields) {
        PhantomData
    }

    fn init_padding<B: ByteCell>(fields: Self::Fields, bytes: &mut [B]) {
    }
}

impl PaddingBane for u128 {
    type Fields = PhantomData<u128>;

    open spec fn layout() -> Self::Fields {
        PhantomData
    }

    open spec fn is_data(i: int) -> bool {
        true
    }

    fn get_fields(&self) -> (fields: Self::Fields) {
        PhantomData
    }

    fn init_padding<B: ByteCell>(fields: Self::Fields, bytes: &mut [B]) {
    }
}

impl PaddingBane for i128 {
    type Fields = PhantomData<i128>;

    open spec fn layout() -> Self::Fields {
        PhantomData
    }

    open spec fn is_data(i: int) -> bool {
        true
    }

    fn get_fields(&self) -> (fields: Self::Fields) {
        PhantomData
    }

    fn init_padding<B: ByteCell>(fields: Self::Fields, bytes: &mut [B]) {
    }
}

impl PaddingBane for AtomicU8 {
    type Fields = PhantomData<AtomicU8>;

    open spec fn layout() -> Self::Fields {
        PhantomData
    }

    open spec fn is_data(i: int) -> bool {
        true
    }

    fn get_fields(&self) -> (fields: Self::Fields) {
        PhantomData
    }

    fn init_padding<B: ByteCell>(fields: Self::Fields, bytes: &mut [B]) {
    }
}

impl PaddingBane for AtomicI8 {
    type Fields = PhantomData<AtomicI8>;

    open spec fn layout() -> Self::Fields {
        PhantomData
    }

    open spec fn is_data(i: int) -> bool {
        true
    }

    fn get_fields(&self) -> (fields: Self::Fields) {
        PhantomData
    }

    fn init_padding<B: ByteCell>(fields: Self::Fields, bytes: &mut [B]) {
    }
}

impl PaddingBane for AtomicU16 {
    type Fields = PhantomData<AtomicU16>;

    open spec fn layout() -> Self::Fields {
        PhantomData
    }

    open spec fn is_data(i: int) -> bool {
        true
    }

    fn get_fields(&self) -> (fields: Self::Fields) {
        PhantomData
    }

    fn init_padding<B: ByteCell>(fields: Self::Fields, bytes: &mut [B]) {
    }
}

impl PaddingBane for AtomicI16 {
    type Fields = PhantomData<AtomicI16>;

    open spec fn layout() -> Self::Fields {
        PhantomData
    }

    open spec fn is_data(i: int) -> bool {
        true
    }

    fn get_fields(&self) -> (fields: Self::Fields) {
        PhantomData
    }

    fn init_padding<B: ByteCell>(fields: Self::Fields, bytes: &mut [B]) {
    }
}

impl PaddingBane for AtomicU32 {
    type Fields = PhantomData<AtomicU32>;

    open spec fn layout() -> Self::Fields {
        PhantomData
    }

    open spec fn is_data(i: int) -> bool {
        true
    }

    fn get_fields(&self) -> (fields: Self::Fields) {
        PhantomData
    }

    fn init_padding<B: ByteCell>(fields: Self::Fields, bytes: &mut [B]) {
    }
}

impl PaddingBane for AtomicI32 {
    type Fields = PhantomData<AtomicI32>;

    open spec fn layout() -> Self::Fields {
        PhantomData
    }

    open spec fn is_data(i: int) -> bool {
        true
    }

    fn get_fields(&self) -> (fields: Self::Fields) {
        PhantomData
    }

    fn init_padding<B: ByteCell>(fields: Self::Fields, bytes: &mut [B]) {
    }
}

impl PaddingBane for AtomicU64 {
    type Fields = PhantomData<AtomicU64>;

    open spec fn layout() -> Self::Fields {
        PhantomData
    }

    open spec fn is_data(i: int) -> bool {
        true
    }

    fn get_fields(&self) -> (fields: Self::Fields) {
        PhantomData
    }

    fn init_padding<B: ByteCell>(fields: Self::Fields, bytes: &mut [B]) {
    }
}

impl PaddingBane for AtomicI64 {
    type Fields = PhantomData<AtomicI64>;

    open spec fn layout() -> Self::Fields {
        PhantomData
    }

    open spec fn is_data(i: int) -> bool {
        true
    }

    fn get_fields(&self) -> (fields: Self::Fields) {
        PhantomData
    }

    fn init_padding<B: ByteCell>(fields: Self::Fields, bytes: &mut [B]) {
    }
}

impl PaddingBane for AtomicUsize {
    type Fields = PhantomData<AtomicUsize>;

    open spec fn layout() -> Self::Fields {
        PhantomData
    }

    open spec fn is_data(i: int) -> bool {
        true
    }

    fn get_fields(&self) -> (fields: Self::Fields) {
        PhantomData
    }

    fn init_padding<B: ByteCell>(fields: Self::Fields, bytes: &mut [B]) {
    }
}

impl PaddingBane for AtomicIsize {
    type Fields = PhantomData<AtomicIsize>;

    open spec fn layout() -> Self::Fields {
        PhantomData
    }

    open spec fn is_data(i: int) -> bool {
        true
    }

    fn get_fields(&self) -> (fields: Self::Fields) {
        PhantomData
    }

    fn init_padding<B: ByteCell>(fields: Self::Fields, bytes: &mut [B]) {
    }
}

impl<T> PaddingBane for PhantomData<T> {
    type Fields = PhantomData<PhantomData<T>>;

    open spec fn layout() -> Self::Fields {
        PhantomData
    }

    open spec fn is_data(i: int) -> bool {
        true
    }

    fn get_fields(&self) -> (fields: Self::Fields) {
        PhantomData
    }

    fn init_padding<B: ByteCell>(fields: Self::Fields, bytes: &mut [B]) {
    }
}

impl PaddingBane for PhantomPinned {
    type Fields = PhantomData<PhantomPinned>;

    open spec fn layout() -> Self::Fields {
        PhantomData
    }

    open spec fn is_data(i: int) -> bool {
        true
    }

    fn get_fields(&self) -> (fields: Self::Fields) {
        PhantomData
    }

    fn init_padding<B: ByteCell>(fields: Self::Fields, bytes: &mut [B]) {
    }
}

} // verus!
