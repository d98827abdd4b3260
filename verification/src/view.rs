//! The byte view: the storage of a value, or of a run of values, handed out
//! for reading once every padding byte in it is defined.
//!
//! Verified code cannot look at the storage of an arbitrary value, so the
//! storage comes in as a buffer of cells. Where the value is itself made of
//! bytes the buffer is the value, and `SafeBytes` is implemented here.

use crate::cell::{
    all_defined, data_defined, is_padded, lemma_padded_is_defined, lemma_padded_twice, unknown,
    ByteCell, SENTINEL,
};
use crate::padding::{init_each, is_data_of_each, is_padded_as, PaddingBane};
use vstd::prelude::*;

verus! {

/// Types that can show their bytes with all padding defined.
///
/// An implementation outside verified code gives `safe_bytes` and nothing
/// else: it vouches that there are `bytes` of which the contract holds.
pub trait SafeBytes {
    /// The bytes that the value shows: its data as it is stored, and the
    /// sentinel for every padding byte. They depend on the value alone;
    /// which bytes they are, an implementation may say.
    open spec fn bytes(&self) -> Seq<u8> {
        unknown::<Self, spec_fn(&Self) -> Seq<u8>>()(self)
    }

    /// Fills the padding of the value and returns its bytes. The value
    /// shows the same bytes afterwards: a second call returns what the
    /// first returned.
    fn safe_bytes(&mut self) -> (view: &[u8])
        ensures
            view@ == old(self).bytes(),
            final(self).bytes() == old(self).bytes(),
    ;
}

/// The byte view of one value of `T` whose storage is `bytes`: the storage
/// with the padding filled. Where every data byte of the storage was
/// defined, every byte of the view is.
pub fn value_bytes<'a, T: PaddingBane, B: ByteCell>(fields: T::Fields, bytes: &'a mut [B]) -> (view:
    &'a [B])
    requires
        fields == T::layout(),
        old(bytes)@.len() == T::size(),
    ensures
        is_padded_as::<T, B>(old(bytes)@, view@),
        final(bytes)@ == view@,
        data_defined(old(bytes)@, |i: int| T::is_data(i)) ==> all_defined(view@),
{
    T::init_padding(fields, bytes);
    proof {
        if data_defined(old(bytes)@, |i: int| T::is_data(i)) {
            lemma_padded_is_defined(old(bytes)@, bytes@, |i: int| T::is_data(i));
        }
    }
    bytes
}

/// The cells of the `k`-th of the values of `size` bytes each that lie one
/// after another in `bytes`.
pub open spec fn element<B>(bytes: Seq<B>, k: int, size: nat) -> Seq<B> {
    bytes.subrange(k * size, k * size + size)
}

/// The byte view of `count` values of `T` that lie one after another in
/// `bytes`: the storage of each with its padding filled. `fields` is the
/// metadata read off the first of them; where there is no value, nothing is
/// read and nothing is written. Where every data byte of the storage was
/// defined, every byte of the view is.
pub fn slice_bytes<'a, T: PaddingBane, B: ByteCell>(
    fields: Option<T::Fields>,
    count: usize,
    bytes: &'a mut [B],
) -> (view: &'a [B])
    requires
        old(bytes)@.len() == count * T::size(),
        count > 0 ==> fields == Some(T::layout()),
    ensures
        is_padded(old(bytes)@, view@, |i: int| is_data_of_each::<T>(i)),
        final(bytes)@ == view@,
        count == 0 ==> view@.len() == 0,
        forall|k: int|
            0 <= k < count ==> is_padded_as::<T, B>(
                #[trigger] element(old(bytes)@, k, T::size()),
                element(view@, k, T::size()),
            ),
        data_defined(old(bytes)@, |i: int| is_data_of_each::<T>(i)) ==> all_defined(view@),
{
    if count > 0 {
        match fields {
            Some(of_first) => {
                init_each::<T, B>(of_first, count, bytes);
            },
            None => {},
        }
    }
    proof {
        assert forall|k: int| 0 <= k < count implies is_padded_as::<T, B>(
            #[trigger] element(old(bytes)@, k, T::size()),
            element(bytes@, k, T::size()),
        ) by {
            lemma_each_element::<T, B>(old(bytes)@, bytes@, count as nat, k);
        }
        if data_defined(old(bytes)@, |i: int| is_data_of_each::<T>(i)) {
            lemma_padded_is_defined(old(bytes)@, bytes@, |i: int| is_data_of_each::<T>(i));
        }
    }
    bytes
}

/// In the byte view of a run of values, the storage of each value is the
/// byte view of that value alone.
pub proof fn lemma_each_element<T: PaddingBane, B: ByteCell>(
    before: Seq<B>,
    after: Seq<B>,
    count: nat,
    k: int,
)
    requires
        before.len() == count * T::size(),
        is_padded(before, after, |i: int| is_data_of_each::<T>(i)),
        0 <= k < count,
    ensures
        is_padded_as::<T, B>(
            element(before, k, T::size()),
            element(after, k, T::size()),
        ),
{
    let size = T::size() as int;
    assert(0 <= k * size && k * size + size <= count * size) by (nonlinear_arith)
        requires
            0 <= k < count,
            0 <= size,
    ;
    let one_before = element(before, k, T::size());
    let one_after = element(after, k, T::size());
    assert forall|j: int| 0 <= j < one_before.len() implies if T::is_data(j) {
        #[trigger] one_after[j] == one_before[j]
    } else {
        one_after[j].byte() == Some(SENTINEL)
    } by {
        vstd::arithmetic::div_mod::lemma_fundamental_div_mod_converse(k * size + j, size, k, j);
        assert(one_after[j] == after[k * size + j]);
    }
}

/// The byte view of a value whose byte view was taken shows the same
/// bytes: taking the view a second time changes nothing.
pub proof fn lemma_view_twice<T: PaddingBane, B: ByteCell>(
    storage: Seq<B>,
    first: Seq<B>,
    second: Seq<B>,
)
    requires
        is_padded_as::<T, B>(storage, first),
        is_padded_as::<T, B>(first, second),
    ensures
        is_padded_as::<T, B>(storage, second),
        second.len() == first.len(),
        forall|i: int| 0 <= i < first.len() ==> (#[trigger] second[i]).byte() == first[i].byte(),
{
    lemma_padded_twice(storage, first, second, |i: int| T::is_data(i));
}

/// The byte view of a run of values whose byte view was taken shows the
/// same bytes.
pub proof fn lemma_slice_view_twice<T: PaddingBane, B: ByteCell>(
    storage: Seq<B>,
    first: Seq<B>,
    second: Seq<B>,
)
    requires
        is_padded(storage, first, |i: int| is_data_of_each::<T>(i)),
        is_padded(first, second, |i: int| is_data_of_each::<T>(i)),
    ensures
        is_padded(storage, second, |i: int| is_data_of_each::<T>(i)),
        second.len() == first.len(),
        forall|i: int| 0 <= i < first.len() ==> (#[trigger] second[i]).byte() == first[i].byte(),
{
    lemma_padded_twice(storage, first, second, |i: int| is_data_of_each::<T>(i));
}

/// A slice of bytes is its own storage, and all of it is data.
impl SafeBytes for [u8] {
    open spec fn bytes(&self) -> Seq<u8> {
        self@
    }

    fn safe_bytes(&mut self) -> (view: &[u8])
        ensures
            final(self)@ == old(self)@,
    {
        let count = self.len();
        let fields = if count == 0 {
            None
        } else {
            Some(self[0].get_fields())
        };
        proof {
            broadcast use vstd::layout::layout_of_primitives;

        }
        slice_bytes::<u8, u8>(fields, count, self)
    }
}

/// An array of bytes is its own storage, and all of it is data.
impl<const N: usize> SafeBytes for [u8; N] {
    open spec fn bytes(&self) -> Seq<u8> {
        self@
    }

    fn safe_bytes(&mut self) -> (view: &[u8])
        ensures
            final(self)@ == old(self)@,
    {
        let fields = self.get_fields();
        proof {
            broadcast use vstd::layout::layout_of_primitives;

        }
        value_bytes::<[u8; N], u8>(fields, self)
    }
}

} // verus!
