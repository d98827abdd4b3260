//! The cells that storage is made of, and what it means for storage to have
//! its padding filled.
//!
//! A padding byte holds nothing that may be read, so storage is not a
//! sequence of bytes but of cells that hold a byte or nothing yet. The
//! passes of this crate only write cells. They run on `MaybeUninit<u8>`,
//! which is what the storage of a value is made of, and on `u8`, where every
//! cell holds a byte from the start.

use core::marker::PhantomData;
use core::mem::MaybeUninit;
use vstd::prelude::*;
use vstd::std_specs::maybe_uninit::MaybeUninitAdditionalSpecFns;

verus! {

/// The byte written into padding.
pub const SENTINEL: u8 = 0xfe;

/// A value of `V` that goes with the type `T`. It is one value, and that is
/// all that is known of it. It stands for what an implementation outside
/// verified code does not say.
pub open spec fn unknown<T: ?Sized, V>() -> V {
    arbitrary::<(PhantomData<T>, V)>().1
}

/// One byte of storage.
pub trait ByteCell: Sized {
    /// The byte that the cell holds, if it holds one.
    spec fn byte(self) -> Option<u8>;

    /// A cell that holds `byte`.
    fn holding(byte: u8) -> (cell: Self)
        ensures
            cell.byte() == Some(byte),
    ;
}

impl ByteCell for u8 {
    open spec fn byte(self) -> Option<u8> {
        Some(self)
    }

    fn holding(byte: u8) -> (cell: Self) {
        byte
    }
}

impl ByteCell for MaybeUninit<u8> {
    open spec fn byte(self) -> Option<u8> {
        self.as_option()
    }

    fn holding(byte: u8) -> (cell: Self) {
        MaybeUninit::new(byte)
    }
}

/// Whether `after` is `before` with its padding filled, where `data` tells
/// the data from the padding: every data cell is the cell it was, and every
/// other cell holds the sentinel.
pub open spec fn is_padded<B: ByteCell>(
    before: Seq<B>,
    after: Seq<B>,
    data: spec_fn(int) -> bool,
) -> bool {
    &&& after.len() == before.len()
    &&& forall|i: int|
        0 <= i < before.len() ==> if data(i) {
            #[trigger] after[i] == before[i]
        } else {
            after[i].byte() == Some(SENTINEL)
        }
}

/// Whether every cell holds a byte.
pub open spec fn all_defined<B: ByteCell>(cells: Seq<B>) -> bool {
    forall|i: int| 0 <= i < cells.len() ==> (#[trigger] cells[i]).byte() is Some
}

/// Whether every data cell holds a byte.
pub open spec fn data_defined<B: ByteCell>(cells: Seq<B>, data: spec_fn(int) -> bool) -> bool {
    forall|i: int| 0 <= i < cells.len() && data(i) ==> (#[trigger] cells[i]).byte() is Some
}

/// Storage whose data cells hold bytes holds a byte in every cell once its
/// padding is filled.
pub proof fn lemma_padded_is_defined<B: ByteCell>(
    before: Seq<B>,
    after: Seq<B>,
    data: spec_fn(int) -> bool,
)
    requires
        is_padded(before, after, data),
        data_defined(before, data),
    ensures
        all_defined(after),
{
    assert forall|i: int| 0 <= i < after.len() implies (#[trigger] after[i]).byte() is Some by {
        if data(i) {
            assert(after[i] == before[i]);
        }
    }
}

/// Two ways of filling the padding of one storage show the same bytes.
pub proof fn lemma_padded_alike<B: ByteCell>(
    before: Seq<B>,
    one: Seq<B>,
    other: Seq<B>,
    data: spec_fn(int) -> bool,
)
    requires
        is_padded(before, one, data),
        is_padded(before, other, data),
    ensures
        other.len() == one.len(),
        forall|i: int| 0 <= i < one.len() ==> (#[trigger] other[i]).byte() == one[i].byte(),
{
    assert forall|i: int| 0 <= i < one.len() implies (#[trigger] other[i]).byte()
        == one[i].byte() by {
        if data(i) {
            assert(other[i] == before[i] && one[i] == before[i]);
        }
    }
}

/// Filling the padding of storage whose padding is filled changes no byte:
/// the second result shows what the first shows.
pub proof fn lemma_padded_twice<B: ByteCell>(
    before: Seq<B>,
    once: Seq<B>,
    twice: Seq<B>,
    data: spec_fn(int) -> bool,
)
    requires
        is_padded(before, once, data),
        is_padded(once, twice, data),
    ensures
        is_padded(before, twice, data),
        forall|i: int| 0 <= i < once.len() ==> (#[trigger] twice[i]).byte() == once[i].byte(),
{
    assert forall|i: int| 0 <= i < once.len() implies (#[trigger] twice[i]).byte()
        == once[i].byte() by {
        if data(i) {
            assert(twice[i] == once[i]);
        }
    }
}

} // verus!
