//! The fields of a composite value, as a list of typed fields of any
//! length, and the whole pass over such a value: fill the gaps between the
//! fields, then the padding inside each of them.
//!
//! A list is either `Nil` or a `Cons` of a typed field and a list: the
//! fields `a`, `b` are `Cons { head: a, tail: Cons { head: b, tail: Nil } }`.

use crate::cell::{is_padded, lemma_padded_alike, ByteCell, SENTINEL};
use crate::field::{covered, sorted, well_formed, Field};
use crate::gaps::fill_gaps;
use crate::padding::{PaddingBane, TypedField};
use vstd::prelude::*;

verus! {

/// What matters of one field once its type is forgotten: where it lies, and
/// which of its own bytes, counted from its start, are data.
pub type Part = (Field, spec_fn(int) -> bool);

/// Where the fields lie.
pub open spec fn raw_of(parts: Seq<Part>) -> Seq<Field> {
    Seq::new(parts.len(), |k: int| parts[k].0)
}

/// Whether byte `i` of the value is data of the `k`-th field.
pub open spec fn is_data_of(parts: Seq<Part>, k: int, i: int) -> bool {
    parts[k].0.contains(i) && (parts[k].1)(i - parts[k].0.offset)
}

/// Whether byte `i` of the value is data of one of the fields.
pub open spec fn is_data_in(parts: Seq<Part>, i: int) -> bool {
    exists|k: int| 0 <= k < parts.len() && #[trigger] is_data_of(parts, k, i)
}

/// The cells of `bytes` in the place of `field`.
pub open spec fn place<B>(bytes: Seq<B>, field: Field) -> Seq<B> {
    bytes.subrange(field.offset as int, field.end())
}

/// Whether `after` holds, in the place of each field, the storage of that
/// field in `before` with the padding of the field filled.
pub open spec fn each_padded<B: ByteCell>(parts: Seq<Part>, before: Seq<B>, after: Seq<B>) -> bool {
    forall|k: int|
        0 <= k < parts.len() ==> is_padded(
            place(before, (#[trigger] parts[k]).0),
            place(after, parts[k].0),
            parts[k].1,
        )
}

/// Whether `after` holds the sentinel in every padding byte inside each
/// field.
pub open spec fn interior_filled<B: ByteCell>(parts: Seq<Part>, after: Seq<B>) -> bool {
    forall|k: int, i: int|
        0 <= k < parts.len() && (#[trigger] parts[k]).0.contains(i) && !(parts[k].1)(
            i - parts[k].0.offset,
        ) ==> (#[trigger] after[i]).byte() == Some(SENTINEL)
}

/// A list of the typed fields of one value.
pub trait FieldList {
    /// The fields, in the order of the list.
    spec fn parts(&self) -> Seq<Part>;

    /// Whether each entry describes a field of its type.
    spec fn valid(&self) -> bool;

    /// Writes where the fields lie into `out`, from the place `at` on.
    fn write_raw(&self, out: &mut [Field], at: usize)
        requires
            at + self.parts().len() <= old(out)@.len(),
        ensures
            final(out)@ == old(out)@.subrange(0, at as int) + raw_of(self.parts()) + old(
                out,
            )@.subrange(at + self.parts().len(), old(out)@.len() as int),
    ;

    /// Fills the padding inside each field, in the storage of the value.
    fn init_fields<B: ByteCell>(&self, bytes: &mut [B])
        requires
            self.valid(),
            well_formed(raw_of(self.parts()), old(bytes)@.len() as int),
        ensures
            is_padded(
                old(bytes)@,
                final(bytes)@,
                |i: int| !covered(raw_of(self.parts()), i) || is_data_in(self.parts(), i),
            ),
    ;
}

/// The list of no fields.
#[derive(Clone, Copy)]
pub struct Nil;

/// The list of the field `head` and the fields of `tail`.
pub struct Cons<A: PaddingBane, R> {
    pub head: TypedField<A>,
    pub tail: R,
}

impl<A: PaddingBane, R: Copy> Clone for Cons<A, R> {
    fn clone(&self) -> (copy: Self)
        ensures
            copy == *self,
    {
        Cons { head: self.head, tail: self.tail }
    }
}

impl<A: PaddingBane, R: Copy> Copy for Cons<A, R> {

}

impl FieldList for Nil {
    open spec fn parts(&self) -> Seq<Part> {
        Seq::empty()
    }

    open spec fn valid(&self) -> bool {
        true
    }

    fn write_raw(&self, out: &mut [Field], at: usize) {
        assert(out@ =~= out@.subrange(0, at as int) + raw_of(self.parts()) + out@.subrange(
            at + self.parts().len(),
            out@.len() as int,
        ));
    }

    fn init_fields<B: ByteCell>(&self, bytes: &mut [B]) {
    }
}

impl<A: PaddingBane, R: FieldList> FieldList for Cons<A, R> {
    open spec fn parts(&self) -> Seq<Part> {
        seq![self.head.part()] + self.tail.parts()
    }

    open spec fn valid(&self) -> bool {
        self.head.valid() && self.tail.valid()
    }

    fn write_raw(&self, out: &mut [Field], at: usize) {
        out[at] = self.head.raw;
        self.tail.write_raw(out, at + 1);
        assert(out@ =~= old(out)@.subrange(0, at as int) + raw_of(self.parts()) + old(
            out,
        )@.subrange(at + self.parts().len(), old(out)@.len() as int));
    }

    fn init_fields<B: ByteCell>(&self, bytes: &mut [B]) {
        let ghost len = bytes@.len() as int;
        let ghost head = self.head.part();
        let ghost tail = self.tail.parts();
        proof {
            lemma_tail_well_formed(head, tail, len);
        }
        self.head.init_padding(bytes);
        self.tail.init_fields(bytes);
        proof {
            assert forall|i: int| 0 <= i < len implies if !covered(raw_of(self.parts()), i)
                || is_data_in(self.parts(), i) {
                #[trigger] bytes@[i] == old(bytes)@[i]
            } else {
                bytes@[i].byte() == Some(SENTINEL)
            } by {
                lemma_parts_split(head, tail, i);
                lemma_head_apart(head, tail, len, i);
                lemma_data_is_covered(tail, i);
            }
        }
    }
}

/// A byte is covered by a list, or is data in it, exactly if that holds of
/// its first field or of the rest of the list.
pub proof fn lemma_parts_split(head: Part, tail: Seq<Part>, i: int)
    ensures
        covered(raw_of(seq![head] + tail), i) <==> head.0.contains(i) || covered(raw_of(tail), i),
        is_data_in(seq![head] + tail, i) <==> (head.0.contains(i) && (head.1)(i - head.0.offset))
            || is_data_in(tail, i),
{
    let all = seq![head] + tail;
    if covered(raw_of(all), i) {
        let k = choose|k: int| 0 <= k < raw_of(all).len() && (#[trigger] raw_of(all)[k]).contains(i);
        if k > 0 {
            assert(raw_of(tail)[k - 1].contains(i));
        }
    }
    if head.0.contains(i) {
        assert(raw_of(all)[0].contains(i));
    }
    if covered(raw_of(tail), i) {
        let k = choose|k: int|
            0 <= k < raw_of(tail).len() && (#[trigger] raw_of(tail)[k]).contains(i);
        assert(raw_of(all)[k + 1].contains(i));
    }
    if is_data_in(all, i) {
        let k = choose|k: int| 0 <= k < all.len() && #[trigger] is_data_of(all, k, i);
        if k > 0 {
            assert(is_data_of(tail, k - 1, i));
        }
    }
    if head.0.contains(i) && (head.1)(i - head.0.offset) {
        assert(is_data_of(all, 0, i));
    }
    if is_data_in(tail, i) {
        let k = choose|k: int| 0 <= k < tail.len() && #[trigger] is_data_of(tail, k, i);
        assert(is_data_of(all, k + 1, i));
    }
}

/// What follows the first field of a well-formed list is well formed.
pub proof fn lemma_tail_well_formed(head: Part, tail: Seq<Part>, len: int)
    requires
        well_formed(raw_of(seq![head] + tail), len),
    ensures
        well_formed(raw_of(tail), len),
        head.0.end() <= len,
{
    let all = raw_of(seq![head] + tail);
    assert(all[0] == head.0);
    assert forall|k: int| 0 <= k < raw_of(tail).len() implies (#[trigger] raw_of(tail)[k]).end()
        <= len by {
        assert(all[k + 1] == raw_of(tail)[k]);
    }
    assert forall|j: int, k: int| 0 <= j < k < raw_of(tail).len() implies (#[trigger] raw_of(
        tail,
    )[j]).apart(#[trigger] raw_of(tail)[k]) by {
        assert(all[j + 1] == raw_of(tail)[j]);
        assert(all[k + 1] == raw_of(tail)[k]);
    }
}

/// No byte of the first field of a well-formed list belongs to a later one.
pub proof fn lemma_head_apart(head: Part, tail: Seq<Part>, len: int, i: int)
    requires
        well_formed(raw_of(seq![head] + tail), len),
    ensures
        !(head.0.contains(i) && covered(raw_of(tail), i)),
{
    let all = raw_of(seq![head] + tail);
    if head.0.contains(i) && covered(raw_of(tail), i) {
        let k = choose|k: int|
            0 <= k < raw_of(tail).len() && (#[trigger] raw_of(tail)[k]).contains(i);
        assert(all[0].apart(all[k + 1]));
    }
}

/// Data lies inside fields.
pub proof fn lemma_data_is_covered(parts: Seq<Part>, i: int)
    ensures
        is_data_in(parts, i) ==> covered(raw_of(parts), i),
{
    if is_data_in(parts, i) {
        let k = choose|k: int| 0 <= k < parts.len() && #[trigger] is_data_of(parts, k, i);
        assert(raw_of(parts)[k].contains(i));
    }
}

/// A byte in the place of a field is data of the value exactly if it is
/// data of that field.
pub proof fn lemma_data_of_its_field(parts: Seq<Part>, len: int, k: int, i: int)
    requires
        well_formed(raw_of(parts), len),
        0 <= k < parts.len(),
        parts[k].0.contains(i),
    ensures
        is_data_in(parts, i) <==> (parts[k].1)(i - parts[k].0.offset),
{
    if is_data_in(parts, i) {
        let m = choose|m: int| 0 <= m < parts.len() && #[trigger] is_data_of(parts, m, i);
        if m < k {
            assert(raw_of(parts)[m].apart(raw_of(parts)[k]));
        } else if k < m {
            assert(raw_of(parts)[k].apart(raw_of(parts)[m]));
        }
    }
    if (parts[k].1)(i - parts[k].0.offset) {
        assert(is_data_of(parts, k, i));
    }
}

/// Fills all padding of one composite value whose fields are `fields` and
/// whose storage is `bytes`: sorts the fields by offset, writes the sentinel
/// into the gap before each field and after the last, and then fills the
/// padding inside each field. `raw` is room for one descriptor for each
/// field; what it holds at first does not matter, and it is left holding
/// the fields in the order in which they were walked.
///
/// Afterwards every byte that is data of a field is as it was and every
/// other byte holds the sentinel; in the place of each field stands what
/// filling the padding of that field alone gives.
pub fn init_struct_padding<L: FieldList, B: ByteCell>(
    fields: &L,
    raw: &mut [Field],
    bytes: &mut [B],
)
    requires
        fields.valid(),
        well_formed(raw_of(fields.parts()), old(bytes)@.len() as int),
        old(raw)@.len() == fields.parts().len(),
    ensures
        is_padded(old(bytes)@, final(bytes)@, |i: int| is_data_in(fields.parts(), i)),
        each_padded(fields.parts(), old(bytes)@, final(bytes)@),
        interior_filled(fields.parts(), final(bytes)@),
        final(raw)@.to_multiset() == raw_of(fields.parts()).to_multiset(),
        sorted(final(raw)@),
{
    fields.write_raw(raw, 0);
    fill_gaps(raw, bytes);
    fields.init_fields(bytes);
    proof {
        assert forall|i: int| 0 <= i < bytes@.len() implies if is_data_in(fields.parts(), i) {
            #[trigger] bytes@[i] == old(bytes)@[i]
        } else {
            bytes@[i].byte() == Some(SENTINEL)
        } by {
            lemma_data_is_covered(fields.parts(), i);
        }
        lemma_fields_keep_their_view(fields.parts(), old(bytes)@, bytes@);
    }
}

/// Once the padding of a composite value is filled, the storage in the
/// place of each field is what filling the padding of that field alone
/// gives, and the padding inside each field holds the sentinel.
pub proof fn lemma_fields_keep_their_view<B: ByteCell>(
    parts: Seq<Part>,
    before: Seq<B>,
    after: Seq<B>,
)
    requires
        well_formed(raw_of(parts), before.len() as int),
        is_padded(before, after, |i: int| is_data_in(parts, i)),
    ensures
        each_padded(parts, before, after),
        interior_filled(parts, after),
{
    let len = before.len() as int;
    assert forall|k: int| 0 <= k < parts.len() implies is_padded(
        place(before, (#[trigger] parts[k]).0),
        place(after, parts[k].0),
        parts[k].1,
    ) by {
        let field = parts[k].0;
        assert(raw_of(parts)[k].end() <= len);
        let before_here = place(before, field);
        let after_here = place(after, field);
        assert forall|j: int| 0 <= j < before_here.len() implies if (parts[k].1)(j) {
            #[trigger] after_here[j] == before_here[j]
        } else {
            after_here[j].byte() == Some(SENTINEL)
        } by {
            lemma_data_of_its_field(parts, len, k, j + field.offset);
        }
    }
    assert forall|k: int, i: int|
        0 <= k < parts.len() && (#[trigger] parts[k]).0.contains(i) && !(parts[k].1)(
            i - parts[k].0.offset,
        ) implies (#[trigger] after[i]).byte() == Some(SENTINEL) by {
        assert(raw_of(parts)[k].end() <= len);
        lemma_data_of_its_field(parts, len, k, i);
    }
}

/// Once the padding of a composite value is filled, the place of each field
/// shows the bytes that the byte view of that field, taken from its own
/// storage alone, shows.
pub proof fn lemma_field_shows_its_own_view<B: ByteCell>(
    parts: Seq<Part>,
    before: Seq<B>,
    after: Seq<B>,
    k: int,
    alone: Seq<B>,
)
    requires
        well_formed(raw_of(parts), before.len() as int),
        is_padded(before, after, |i: int| is_data_in(parts, i)),
        0 <= k < parts.len(),
        is_padded(place(before, parts[k].0), alone, parts[k].1),
    ensures
        alone.len() == parts[k].0.size,
        forall|j: int|
            0 <= j < alone.len() ==> (#[trigger] after[parts[k].0.offset + j]).byte()
                == alone[j].byte(),
{
    lemma_fields_keep_their_view(parts, before, after);
    let field = parts[k].0;
    assert(raw_of(parts)[k].end() <= before.len());
    lemma_padded_alike(place(before, field), alone, place(after, field), parts[k].1);
    assert forall|j: int| 0 <= j < alone.len() implies (#[trigger] after[field.offset + j]).byte()
        == alone[j].byte() by {
        assert(place(after, field)[j] == after[field.offset + j]);
    }
}

/// Once the padding of a composite value is filled, every byte that is not
/// data of a field holds the sentinel, and so does every byte that lies in
/// no field at all; every byte that is data is as it was.
pub proof fn lemma_padding_holds_sentinel<B: ByteCell>(
    parts: Seq<Part>,
    before: Seq<B>,
    after: Seq<B>,
    i: int,
)
    requires
        is_padded(before, after, |j: int| is_data_in(parts, j)),
        0 <= i < before.len(),
    ensures
        !is_data_in(parts, i) ==> after[i].byte() == Some(SENTINEL),
        !covered(raw_of(parts), i) ==> after[i].byte() == Some(SENTINEL),
        is_data_in(parts, i) ==> after[i] == before[i],
{
    lemma_data_is_covered(parts, i);
}

} // verus!
