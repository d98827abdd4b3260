//! The top-level pass over one value: put its fields in walking order and
//! write the sentinel into every byte that lies between or after them.

use crate::cell::{is_padded, ByteCell, SENTINEL};
use crate::field::{covered, lemma_rearranged, lemma_sorted_chain, precedes, sorted, well_formed, Field};
use vstd::prelude::*;
use vstd::seq_lib::{to_multiset_contains, to_multiset_update};

verus! {

/// Writes the sentinel into `bytes[start..end]`.
pub fn fill_range<B: ByteCell>(bytes: &mut [B], start: usize, end: usize)
    requires
        start <= end <= old(bytes)@.len(),
    ensures
        is_padded(old(bytes)@, final(bytes)@, |i: int| !(start <= i < end)),
{
    let mut i: usize = start;
    while i < end
        invariant
            start <= i <= end <= bytes@.len(),
            is_padded(old(bytes)@, bytes@, |j: int| !(start <= j < i)),
        decreases end - i,
    {
        bytes[i] = B::holding(SENTINEL);
        i += 1;
    }
}

/// Puts `fields` in walking order: ascending offset, and among fields at one
/// offset the smaller first.
pub fn sort_by_offset(fields: &mut [Field])
    ensures
        final(fields)@.to_multiset() == old(fields)@.to_multiset(),
        sorted(final(fields)@),
{
    let n = fields.len();
    let mut i: usize = 1;
    while i < n
        invariant
            fields@.len() == n,
            1 <= i,
            fields@.to_multiset() == old(fields)@.to_multiset(),
            forall|a: int, b: int|
                0 <= a <= b < i && b < n ==> (#[trigger] fields@[a]).before(#[trigger] fields@[b]),
        decreases n - i,
    {
        let mut j: usize = i;
        while j > 0
            invariant
                fields@.len() == n,
                j <= i < n,
                fields@.to_multiset() == old(fields)@.to_multiset(),
                forall|a: int, b: int|
                    0 <= a <= b <= i && a != j && b != j ==> (#[trigger] fields@[a]).before(
                        #[trigger] fields@[b],
                    ),
                forall|b: int| j < b <= i ==> fields@[j as int].before(#[trigger] fields@[b]),
            ensures
                j == 0 || fields@[j - 1].before(fields@[j as int]),
            decreases j,
        {
            let lower = fields[j - 1];
            let upper = fields[j];
            if precedes(lower, upper) {
                break ;
            }
            let ghost pending = fields@;
            fields[j - 1] = upper;
            proof {
                to_multiset_update(pending, j - 1, upper);
            }
            let ghost half = fields@;
            fields[j] = lower;
            proof {
                to_multiset_update(half, j as int, lower);
                assert(pending[j - 1] == lower);
                to_multiset_contains(pending, lower);
                assert(fields@.to_multiset() =~= pending.to_multiset()) by {
                    broadcast use vstd::multiset::group_multiset_axioms;

                }
            }
            j -= 1;
        }
        i += 1;
    }
}

/// Sorts `fields` and writes the sentinel into every byte of `bytes` that
/// none of them covers: the gap before each field that begins after the end
/// of the one before, and what follows the last.
pub fn fill_gaps<B: ByteCell>(fields: &mut [Field], bytes: &mut [B])
    requires
        well_formed(old(fields)@, old(bytes)@.len() as int),
    ensures
        is_padded(old(bytes)@, final(bytes)@, |i: int| covered(old(fields)@, i)),
        final(fields)@.to_multiset() == old(fields)@.to_multiset(),
        sorted(final(fields)@),
{
    sort_by_offset(fields);
    let len = bytes.len();
    let count = fields.len();
    proof {
        lemma_rearranged(old(fields)@, fields@, len as int);
    }
    let mut offset: usize = 0;
    let mut k: usize = 0;
    while k < count
        invariant
            k <= count == fields@.len(),
            len == bytes@.len() == old(bytes)@.len(),
            well_formed(fields@, len as int),
            sorted(fields@),
            offset <= len,
            forall|j: int| 0 <= j < k ==> (#[trigger] fields@[j]).end() <= offset,
            forall|j: int| k <= j < count ==> offset <= (#[trigger] fields@[j]).offset,
            forall|i: int|
                0 <= i < len ==> if i < offset && !covered(fields@, i) {
                    (#[trigger] bytes@[i]).byte() == Some(SENTINEL)
                } else {
                    bytes@[i] == old(bytes)@[i]
                },
        decreases count - k,
    {
        let field = fields[k];
        let ghost cursor = offset;
        if field.offset > offset {
            fill_range(bytes, offset, field.offset);
        }
        offset = field.offset + field.size;
        proof {
            assert forall|j: int| k < j < count implies offset <= (#[trigger] fields@[j]).offset by {
                lemma_sorted_chain(fields@, len as int, k as int, j);
            }
            assert forall|i: int| cursor <= i < field.offset implies !covered(fields@, i) by {
                if covered(fields@, i) {
                    let j = choose|j: int| 0 <= j < fields@.len() && (#[trigger] fields@[j]).contains(i);
                    if j < k {
                        assert(fields@[j].end() <= cursor);
                    } else if j > k {
                        lemma_sorted_chain(fields@, len as int, k as int, j);
                    }
                }
            }
            assert forall|i: int| field.offset <= i < offset implies covered(fields@, i) by {
                assert(fields@[k as int].contains(i));
            }
        }
        k += 1;
    }
    if len > offset {
        fill_range(bytes, offset, len);
    }
    proof {
        assert forall|i: int| offset <= i < len implies !covered(fields@, i) by {
            if covered(fields@, i) {
                let j = choose|j: int| 0 <= j < fields@.len() && (#[trigger] fields@[j]).contains(i);
                assert(fields@[j].end() <= offset);
            }
        }
    }
}

} // verus!
