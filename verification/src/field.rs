//! Field descriptors: where one field lies inside its parent's bytes, and
//! what it means for a list of them to describe a layout.

use vstd::prelude::*;
use vstd::seq_lib::{to_multiset_contains, to_multiset_remove};

verus! {

/// Offset and size of one field, in bytes from the start of its parent.
#[derive(Clone, Copy)]
pub struct Field {
    pub offset: usize,
    pub size: usize,
}

impl Field {
    /// The position just past the field's last byte.
    pub open spec fn end(self) -> int {
        self.offset + self.size
    }

    /// Whether byte `i` of the parent belongs to this field.
    pub open spec fn contains(self, i: int) -> bool {
        self.offset <= i < self.offset + self.size
    }

    /// Whether one of the two fields ends at or before the start of the other.
    pub open spec fn apart(self, other: Field) -> bool {
        self.end() <= other.offset || other.end() <= self.offset
    }

    /// The order in which fields are walked: ascending offset, and among
    /// fields at one offset the smaller first, so that an empty field never
    /// follows a field that starts where it lies.
    pub open spec fn before(self, other: Field) -> bool {
        self.offset < other.offset || (self.offset == other.offset && self.size <= other.size)
    }
}

/// Whether byte `i` belongs to one of `fields`.
pub open spec fn covered(fields: Seq<Field>, i: int) -> bool {
    exists|k: int| 0 <= k < fields.len() && (#[trigger] fields[k]).contains(i)
}

/// Whether `fields` can be the fields of a value of `len` bytes: each lies
/// within the value, and no two overlap.
pub open spec fn well_formed(fields: Seq<Field>, len: int) -> bool {
    &&& forall|k: int| 0 <= k < fields.len() ==> (#[trigger] fields[k]).end() <= len
    &&& forall|j: int, k: int|
        0 <= j < k < fields.len() ==> (#[trigger] fields[j]).apart(#[trigger] fields[k])
}

/// Whether `fields` is in walking order.
pub open spec fn sorted(fields: Seq<Field>) -> bool {
    forall|j: int, k: int|
        0 <= j <= k < fields.len() ==> (#[trigger] fields[j]).before(#[trigger] fields[k])
}

/// Whether `a` comes before `b` in walking order.
pub fn precedes(a: Field, b: Field) -> (r: bool)
    ensures
        r == a.before(b),
{
    a.offset < b.offset || (a.offset == b.offset && a.size <= b.size)
}

/// Whether one of `a` and `b` ends at or before the start of the other.
/// Both end within what a `usize` can count.
fn lie_apart(a: Field, b: Field) -> (r: bool)
    requires
        a.end() <= usize::MAX,
        b.end() <= usize::MAX,
    ensures
        r == a.apart(b),
{
    a.offset + a.size <= b.offset || b.offset + b.size <= a.offset
}

/// Whether `fields` can be the fields of a value of `len` bytes. Code that
/// is not verified can ask this before it hands the fields over.
pub fn is_well_formed(fields: &[Field], len: usize) -> (ok: bool)
    ensures
        ok == well_formed(fields@, len as int),
{
    let count = fields.len();
    let mut k: usize = 0;
    while k < count
        invariant
            k <= count == fields@.len(),
            forall|j: int| 0 <= j < k ==> (#[trigger] fields@[j]).end() <= len,
        decreases count - k,
    {
        let field = fields[k];
        if field.size > len || field.offset > len - field.size {
            assert(fields@[k as int].end() > len);
            return false;
        }
        k += 1;
    }
    let mut j: usize = 0;
    while j < count
        invariant
            j <= count == fields@.len(),
            forall|k: int| 0 <= k < count ==> (#[trigger] fields@[k]).end() <= len,
            forall|a: int, b: int|
                0 <= a < b < count && a < j ==> (#[trigger] fields@[a]).apart(#[trigger] fields@[b]),
        decreases count - j,
    {
        let mut k: usize = j + 1;
        while k < count
            invariant
                j < k <= count == fields@.len(),
                forall|k: int| 0 <= k < count ==> (#[trigger] fields@[k]).end() <= len,
                forall|b: int| j < b < k ==> fields@[j as int].apart(#[trigger] fields@[b]),
            decreases count - k,
        {
            if !lie_apart(fields[j], fields[k]) {
                assert(!fields@[j as int].apart(fields@[k as int]));
                return false;
            }
            k += 1;
        }
        j += 1;
    }
    true
}

/// A value that stands at two places of a sequence occurs at least twice in
/// its multiset.
proof fn lemma_twice_in_seq(s: Seq<Field>, j: int, k: int)
    requires
        0 <= j < k < s.len(),
        s[j] == s[k],
    ensures
        s.to_multiset().count(s[j]) >= 2,
{
    broadcast use vstd::multiset::group_multiset_axioms;

    let rest = s.remove(j);
    to_multiset_remove(s, j);
    assert(rest[k - 1] == s[k]);
    assert(rest.contains(s[j]));
    to_multiset_contains(rest, s[j]);
}

/// A value that occurs at least twice in the multiset of a sequence stands
/// at two places of it.
proof fn lemma_twice_in_multiset(s: Seq<Field>, f: Field) -> (places: (int, int))
    requires
        s.to_multiset().count(f) >= 2,
    ensures
        0 <= places.0 < places.1 < s.len(),
        s[places.0] == f,
        s[places.1] == f,
{
    broadcast use vstd::multiset::group_multiset_axioms;

    to_multiset_contains(s, f);
    let p = choose|p: int| 0 <= p < s.len() && s[p] == f;
    let rest = s.remove(p);
    to_multiset_remove(s, p);
    to_multiset_contains(rest, f);
    let q = choose|q: int| 0 <= q < rest.len() && rest[q] == f;
    if q < p {
        (q, p)
    } else {
        (p, q + 1)
    }
}

/// What stands at a place of `a` stands at some place of a rearrangement
/// `b` of `a`.
proof fn lemma_same_members(a: Seq<Field>, b: Seq<Field>, k: int)
    requires
        a.to_multiset() == b.to_multiset(),
        0 <= k < a.len(),
    ensures
        exists|m: int| 0 <= m < b.len() && #[trigger] b[m] == a[k],
{
    assert(a.contains(a[k]));
    to_multiset_contains(a, a[k]);
    to_multiset_contains(b, a[k]);
    let m = choose|m: int| 0 <= m < b.len() && b[m] == a[k];
    assert(b[m] == a[k]);
}

/// Two different places of `b` hold what two different places of `a` hold,
/// where `b` is a rearrangement of `a`.
proof fn lemma_two_places(a: Seq<Field>, b: Seq<Field>, j: int, k: int) -> (places: (int, int))
    requires
        a.to_multiset() == b.to_multiset(),
        0 <= j < k < b.len(),
    ensures
        0 <= places.0 < a.len(),
        0 <= places.1 < a.len(),
        places.0 != places.1,
        a[places.0] == b[j],
        a[places.1] == b[k],
{
    if b[j] == b[k] {
        lemma_twice_in_seq(b, j, k);
        lemma_twice_in_multiset(a, b[j])
    } else {
        assert(b.contains(b[j]) && b.contains(b[k]));
        to_multiset_contains(b, b[j]);
        to_multiset_contains(b, b[k]);
        to_multiset_contains(a, b[j]);
        to_multiset_contains(a, b[k]);
        let p = choose|p: int| 0 <= p < a.len() && a[p] == b[j];
        let q = choose|q: int| 0 <= q < a.len() && a[q] == b[k];
        (p, q)
    }
}

/// Rearranging a list of fields changes neither whether it is well formed
/// nor which bytes it covers.
pub proof fn lemma_rearranged(a: Seq<Field>, b: Seq<Field>, len: int)
    requires
        a.to_multiset() == b.to_multiset(),
    ensures
        well_formed(a, len) ==> well_formed(b, len),
        forall|i: int| covered(a, i) <==> covered(b, i),
{
    assert forall|i: int| covered(a, i) <==> covered(b, i) by {
        if covered(a, i) {
            let k = choose|k: int| 0 <= k < a.len() && (#[trigger] a[k]).contains(i);
            lemma_same_members(a, b, k);
        }
        if covered(b, i) {
            let k = choose|k: int| 0 <= k < b.len() && (#[trigger] b[k]).contains(i);
            lemma_same_members(b, a, k);
        }
    }
    if well_formed(a, len) {
        assert forall|k: int| 0 <= k < b.len() implies (#[trigger] b[k]).end() <= len by {
            lemma_same_members(b, a, k);
        }
        assert forall|j: int, k: int| 0 <= j < k < b.len() implies (#[trigger] b[j]).apart(
            #[trigger] b[k],
        ) by {
            let (p, q) = lemma_two_places(a, b, j, k);
            if p < q {
                assert(a[p].apart(a[q]));
            } else {
                assert(a[q].apart(a[p]));
            }
        }
    }
}

/// In a well-formed list in walking order each field ends at or before the
/// start of every later one.
pub proof fn lemma_sorted_chain(fields: Seq<Field>, len: int, j: int, k: int)
    requires
        well_formed(fields, len),
        sorted(fields),
        0 <= j < k < fields.len(),
    ensures
        fields[j].end() <= fields[k].offset,
{
    assert(fields[j].apart(fields[k]) && fields[j].before(fields[k]));
}

} // verus!
