//! The layout-aware contract: what a type must tell about its fields, and
//! what filling its padding means.

use crate::cell::{is_padded, unknown, ByteCell, SENTINEL};
use crate::field::Field;
use vstd::arithmetic::div_mod::lemma_fundamental_div_mod_converse;
use vstd::layout::size_of;
use vstd::prelude::*;

verus! {

/// A type that can fill the padding in the storage of its values.
///
/// Whoever implements it vouches that `layout`, `size` and `is_data`
/// describe how values of the type lie in memory. An implementation outside
/// verified code gives `Fields`, `get_fields` and `init_padding` and nothing
/// else: it vouches that there are a `layout` and an `is_data` of which the
/// contracts hold.
pub trait PaddingBane: Sized {
    /// What is known about the fields of the type.
    type Fields: Copy;

    /// The metadata of the type. It is one value and depends on the type
    /// alone; which value, an implementation may say.
    open spec fn layout() -> Self::Fields {
        unknown::<Self, Self::Fields>()
    }

    /// The number of bytes in the storage of a value: what `size_of` gives,
    /// unless an implementation counts them in another way.
    open spec fn size() -> nat {
        size_of::<Self>()
    }

    /// Whether byte `i` of a value holds data of some field, however deeply
    /// nested, and not padding. It depends on the type alone; which bytes
    /// are data, an implementation may say.
    open spec fn is_data(i: int) -> bool {
        unknown::<Self, spec_fn(int) -> bool>()(i)
    }

    /// Reads the metadata off a value. Every value of the type gives the
    /// same.
    fn get_fields(&self) -> (fields: Self::Fields)
        ensures
            fields == Self::layout(),
    ;

    /// Writes the sentinel into every padding byte of `bytes`, the storage
    /// of one value, and leaves the data as it is.
    fn init_padding<B: ByteCell>(fields: Self::Fields, bytes: &mut [B])
        requires
            fields == Self::layout(),
            old(bytes)@.len() == Self::size(),
        ensures
            is_padded(old(bytes)@, final(bytes)@, |i: int| Self::is_data(i)),
    ;
}

/// Whether `after` is the storage `before` of a value of `T` with its
/// padding filled.
pub open spec fn is_padded_as<T: PaddingBane, B: ByteCell>(before: Seq<B>, after: Seq<B>) -> bool {
    is_padded(before, after, |i: int| T::is_data(i))
}

/// Whether byte `i` of a run of values of `T` holds data.
pub open spec fn is_data_of_each<T: PaddingBane>(i: int) -> bool {
    T::is_data(i % T::size() as int)
}

/// One field of a value: where it lies, and the metadata of its own type.
pub struct TypedField<T: PaddingBane> {
    pub raw: Field,
    pub sub: T::Fields,
}

impl<T: PaddingBane> Clone for TypedField<T> {
    fn clone(&self) -> (copy: Self)
        ensures
            copy == *self,
    {
        TypedField { raw: self.raw, sub: self.sub }
    }
}

impl<T: PaddingBane> Copy for TypedField<T> {

}

impl<T: PaddingBane> TypedField<T> {
    /// Whether this describes a field of type `T`.
    pub open spec fn valid(self) -> bool {
        self.sub == T::layout() && self.raw.size == T::size()
    }

    /// The field with its type forgotten: where it lies, and which of its
    /// own bytes are data.
    pub open spec fn part(self) -> (Field, spec_fn(int) -> bool) {
        (self.raw, |i: int| T::is_data(i))
    }

    /// Whether byte `i` of the parent is left as it is when the padding of
    /// this field is filled: it lies outside the field, or is data of it.
    pub open spec fn keeps(self, i: int) -> bool {
        !self.raw.contains(i) || T::is_data(i - self.raw.offset)
    }

    /// Fills the padding inside this field, in the storage of its parent.
    pub fn init_padding<B: ByteCell>(&self, bytes: &mut [B])
        requires
            self.valid(),
            self.raw.end() <= old(bytes)@.len(),
        ensures
            is_padded(old(bytes)@, final(bytes)@, |i: int| self.keeps(i)),
    {
        let ghost whole = bytes@;
        let (_, rest) = bytes.split_at_mut(self.raw.offset);
        let (window, _) = rest.split_at_mut(self.raw.size);
        let ghost part = window@;
        T::init_padding(self.sub, window);
        proof {
            assert forall|i: int| 0 <= i < whole.len() implies if self.keeps(i) {
                #[trigger] bytes@[i] == whole[i]
            } else {
                bytes@[i].byte() == Some(SENTINEL)
            } by {
                if self.raw.contains(i) {
                    assert(part[i - self.raw.offset] == whole[i]);
                }
            }
        }
    }
}

/// Fills the padding in each of `count` values of `T` that lie one after
/// another in `bytes`. Each value takes an equal share of `bytes`.
pub fn init_each<T: PaddingBane, B: ByteCell>(fields: T::Fields, count: usize, bytes: &mut [B])
    requires
        fields == T::layout(),
        old(bytes)@.len() == count * T::size(),
    ensures
        is_padded(old(bytes)@, final(bytes)@, |i: int| is_data_of_each::<T>(i)),
{
    if count == 0 {
        return ;
    }
    let len = bytes.len();
    let size = len / count;
    proof {
        assert(count * T::size() == T::size() * count) by (nonlinear_arith);
        lemma_fundamental_div_mod_converse(len as int, count as int, T::size() as int, 0);
    }
    let mut k: usize = 0;
    while k < count
        invariant
            k <= count,
            fields == T::layout(),
            size == T::size(),
            len == bytes@.len() == old(bytes)@.len() == count * size,
            forall|i: int|
                0 <= i < len ==> if i < k * size && !is_data_of_each::<T>(i) {
                    (#[trigger] bytes@[i]).byte() == Some(SENTINEL)
                } else {
                    bytes@[i] == old(bytes)@[i]
                },
        decreases count - k,
    {
        assert(0 <= k * size && k * size + size <= count * size) by (nonlinear_arith)
            requires
                0 <= k < count,
                0 <= size,
        ;
        assert((k + 1) * size == k * size + size) by (nonlinear_arith);
        let element = TypedField::<T> { raw: Field { offset: k * size, size }, sub: fields };
        element.init_padding(bytes);
        proof {
            assert forall|i: int| 0 <= i < len implies if i < (k + 1) * size && !is_data_of_each::<T>(
                i,
            ) {
                (#[trigger] bytes@[i]).byte() == Some(SENTINEL)
            } else {
                bytes@[i] == old(bytes)@[i]
            } by {
                if element.raw.contains(i) {
                    lemma_fundamental_div_mod_converse(i, size as int, k as int, i - k * size);
                }
            }
        }
        k += 1;
    }
}

} // verus!
