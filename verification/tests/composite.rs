use safe_bytes::{
    init_each, init_struct_padding, slice_bytes, value_bytes, ByteCell, Cons, Field, FieldList,
    Nil, PaddingBane, TypedField,
};

const NOWHERE: Field = Field { offset: 0, size: 0 };

/// A value with the fields `a: u8`, `b: u64`, `c: u16`, described as it
/// lies in 24 bytes when the fields keep this order and each is aligned to
/// its size.
pub struct Example {
    pub a: u8,
    pub b: u64,
    pub c: u16,
}

type ExampleFields = Cons<u8, Cons<u64, Cons<u16, Nil>>>;

fn at<T: PaddingBane>(offset: usize, size: usize, value: &T) -> TypedField<T> {
    TypedField { raw: Field { offset, size }, sub: value.get_fields() }
}

fn list<A: PaddingBane, R>(head: TypedField<A>, tail: R) -> Cons<A, R> {
    Cons { head, tail }
}

impl PaddingBane for Example {
    type Fields = ExampleFields;

    fn get_fields(&self) -> ExampleFields {
        list(at(0, 1, &self.a), list(at(8, 8, &self.b), list(at(16, 2, &self.c), Nil)))
    }

    fn init_padding<B: ByteCell>(fields: ExampleFields, bytes: &mut [B]) {
        let mut raw = [NOWHERE; 3];
        init_struct_padding(&fields, &mut raw, bytes);
    }
}

/// A value that holds an `Example` and then a `u32`, described as it lies
/// in 32 bytes.
pub struct Outer {
    pub inner: Example,
    pub d: u32,
}

type OuterFields = Cons<Example, Cons<u32, Nil>>;

impl PaddingBane for Outer {
    type Fields = OuterFields;

    fn get_fields(&self) -> OuterFields {
        list(at(0, 24, &self.inner), list(at(24, 4, &self.d), Nil))
    }

    fn init_padding<B: ByteCell>(fields: OuterFields, bytes: &mut [B]) {
        let mut raw = [NOWHERE; 2];
        init_struct_padding(&fields, &mut raw, bytes);
    }
}

fn example(a: u8, b: u64, c: u16) -> Example {
    Example { a, b, c }
}

/// The storage of an `Example` on a little-endian machine, with `junk` in
/// every padding byte.
fn example_storage(a: u8, b: u64, c: u16, junk: u8) -> Vec<u8> {
    let mut storage = vec![junk; 24];
    storage[0] = a;
    storage[8..16].copy_from_slice(&b.to_le_bytes());
    storage[16..18].copy_from_slice(&c.to_le_bytes());
    storage
}

const EXAMPLE_VIEW: [u8; 24] = [
    0x01, 0xfe, 0xfe, 0xfe, 0xfe, 0xfe, 0xfe, 0xfe, 0x02, 0x00, 0x00, 0x00, 0x00, 0x00, 0x00,
    0x00, 0x03, 0x00, 0xfe, 0xfe, 0xfe, 0xfe, 0xfe, 0xfe,
];

#[test]
fn example_view_has_gaps_and_tail_filled() {
    let value = example(1, 2, 3);
    let mut storage = example_storage(1, 2, 3, 0x77);
    let view = value_bytes::<Example, u8>(value.get_fields(), &mut storage);
    assert_eq!(view, &EXAMPLE_VIEW);
}

#[test]
fn example_view_is_written_into_the_storage() {
    let value = example(1, 2, 3);
    let mut storage = example_storage(1, 2, 3, 0x00);
    Example::init_padding(value.get_fields(), &mut storage);
    assert_eq!(storage, EXAMPLE_VIEW.to_vec());
}

#[test]
fn nested_example_keeps_inner_view_and_fills_around_the_last_field() {
    let value = Outer { inner: example(1, 2, 3), d: 4 };
    let mut storage = example_storage(1, 2, 3, 0x55);
    storage.extend_from_slice(&[0x04, 0x00, 0x00, 0x00, 0x55, 0x55, 0x55, 0x55]);
    let view = value_bytes::<Outer, u8>(value.get_fields(), &mut storage);
    let mut expected = EXAMPLE_VIEW.to_vec();
    expected.extend_from_slice(&[0x04, 0x00, 0x00, 0x00, 0xfe, 0xfe, 0xfe, 0xfe]);
    assert_eq!(view, &expected[..]);
}

#[test]
fn nested_field_after_a_gap_has_its_own_padding_filled() {
    // a u16 at 0, then an `Example` at 8: the gap 2..8 belongs to the parent,
    // the gaps 9..16 and 26..32 to the nested value.
    let inner = example(9, 10, 11);
    let fields = list(at(0, 2, &5u16), list(at(8, 24, &inner), Nil));
    let mut storage = vec![0x33u8; 32];
    storage[0] = 5;
    storage[1] = 0;
    storage[8..32].copy_from_slice(&example_storage(9, 10, 11, 0x33));
    let mut raw = [NOWHERE; 2];
    init_struct_padding(&fields, &mut raw, &mut storage);
    assert_eq!((raw[0].offset, raw[0].size), (0, 2));
    assert_eq!((raw[1].offset, raw[1].size), (8, 24));
    let expected: [u8; 32] = [
        0x05, 0x00, 0xfe, 0xfe, 0xfe, 0xfe, 0xfe, 0xfe, 0x09, 0xfe, 0xfe, 0xfe, 0xfe, 0xfe, 0xfe,
        0xfe, 0x0a, 0x00, 0x00, 0x00, 0x00, 0x00, 0x00, 0x00, 0x0b, 0x00, 0xfe, 0xfe, 0xfe, 0xfe,
        0xfe, 0xfe,
    ];
    assert_eq!(storage, expected.to_vec());
}

#[test]
fn order_of_the_list_does_not_matter() {
    let in_memory_order = list(at(0, 1, &1u8), list(at(8, 8, &2u64), list(at(16, 2, &3u16), Nil)));
    let shuffled = list(at(16, 2, &3u16), list(at(0, 1, &1u8), list(at(8, 8, &2u64), Nil)));
    let mut first = example_storage(1, 2, 3, 0x10);
    let mut second = example_storage(1, 2, 3, 0x20);
    let mut raw = [NOWHERE; 3];
    init_struct_padding(&in_memory_order, &mut raw, &mut first);
    init_struct_padding(&shuffled, &mut raw, &mut second);
    assert_eq!(raw.map(|field| field.offset), [0, 8, 16]);
    assert_eq!(first, EXAMPLE_VIEW.to_vec());
    assert_eq!(second, EXAMPLE_VIEW.to_vec());
}

#[test]
fn value_without_fields_is_all_padding() {
    let mut storage = vec![1u8, 2, 3];
    init_struct_padding(&Nil, &mut [], &mut storage);
    assert_eq!(storage, vec![0xfe, 0xfe, 0xfe]);
}

#[test]
fn empty_field_at_the_start_of_another_leaves_its_data() {
    let fields = list(at(0, 4, &7u32), list(at(0, 0, &()), Nil));
    let mut storage = vec![0x07, 0x00, 0x00, 0x00, 0x99, 0x99, 0x99, 0x99];
    let mut raw = [NOWHERE; 2];
    init_struct_padding(&fields, &mut raw, &mut storage);
    assert_eq!(raw.map(|field| field.size), [0, 4]);
    assert_eq!(storage, vec![0x07, 0x00, 0x00, 0x00, 0xfe, 0xfe, 0xfe, 0xfe]);
}

#[test]
fn metadata_is_the_same_for_every_value() {
    let first = example(1, 2, 3).get_fields();
    let second = example(200, u64::MAX, 0).get_fields();
    assert_eq!(first.head.raw.offset, second.head.raw.offset);
    assert_eq!(first.head.raw.size, second.head.raw.size);
    assert_eq!(first.tail.head.raw.offset, second.tail.head.raw.offset);
    assert_eq!(first.tail.head.raw.size, second.tail.head.raw.size);
    assert_eq!(first.tail.tail.head.raw.offset, second.tail.tail.head.raw.offset);
    assert_eq!(first.tail.tail.head.raw.size, second.tail.tail.head.raw.size);
    assert_eq!(first.tail.tail.head.raw.offset, 16);
    assert_eq!(first.tail.tail.head.raw.size, 2);
}

#[test]
fn second_view_is_identical_to_the_first() {
    let value = example(1, 2, 3);
    let mut storage = example_storage(1, 2, 3, 0x42);
    let first = value_bytes::<Example, u8>(value.get_fields(), &mut storage).to_vec();
    let second = value_bytes::<Example, u8>(value.get_fields(), &mut storage).to_vec();
    assert_eq!(first, second);
    assert_eq!(first, EXAMPLE_VIEW.to_vec());
}

#[test]
fn each_field_shows_what_its_own_view_shows() {
    let value = Outer { inner: example(1, 2, 3), d: 0x0a0b0c0d };
    let mut storage = example_storage(1, 2, 3, 0x61);
    storage.extend_from_slice(&[0x0d, 0x0c, 0x0b, 0x0a, 0x61, 0x61, 0x61, 0x61]);
    let mut inner_alone = storage[0..24].to_vec();
    let mut d_alone = storage[24..28].to_vec();
    let whole = value_bytes::<Outer, u8>(value.get_fields(), &mut storage).to_vec();
    let inner_view = value_bytes::<Example, u8>(value.inner.get_fields(), &mut inner_alone);
    let d_view = value_bytes::<u32, u8>(value.d.get_fields(), &mut d_alone);
    assert_eq!(&whole[0..24], inner_view);
    assert_eq!(&whole[24..28], d_view);
    assert_eq!(d_view, &[0x0d, 0x0c, 0x0b, 0x0a]);
}

#[test]
fn typed_field_fills_only_inside_its_own_place() {
    let inner = example(1, 2, 3);
    let field = at(4, 24, &inner);
    let mut storage = vec![0x13u8; 32];
    storage[4..28].copy_from_slice(&example_storage(1, 2, 3, 0x13));
    field.init_padding(&mut storage);
    let mut expected = vec![0x13u8; 4];
    expected.extend_from_slice(&EXAMPLE_VIEW);
    expected.extend_from_slice(&[0x13; 4]);
    assert_eq!(storage, expected);
}

#[test]
fn typed_field_is_copied_whatever_its_type() {
    let inner = example(1, 2, 3);
    let field = at(4, 24, &inner);
    let copy = field;
    let clone = field.clone();
    assert_eq!(copy.raw.offset, 4);
    assert_eq!(clone.raw.size, 24);
    assert_eq!(clone.sub.tail.head.raw.offset, 8);
    let fields = inner.get_fields();
    let same = fields;
    assert_eq!(fields.clone().head.raw.size, same.head.raw.size);
}

#[test]
fn empty_sequence_has_an_empty_view() {
    let mut storage: Vec<u8> = Vec::new();
    let view = slice_bytes::<Example, u8>(None, 0, &mut storage);
    assert!(view.is_empty());
}

#[test]
fn each_value_of_a_sequence_has_its_padding_filled() {
    let values = [example(1, 2, 3), example(4, 5, 6)];
    let mut storage = example_storage(1, 2, 3, 0x70);
    storage.extend_from_slice(&example_storage(4, 5, 6, 0x71));
    let view = slice_bytes::<Example, u8>(Some(values[0].get_fields()), 2, &mut storage);
    let mut expected = EXAMPLE_VIEW.to_vec();
    expected.extend_from_slice(&[
        0x04, 0xfe, 0xfe, 0xfe, 0xfe, 0xfe, 0xfe, 0xfe, 0x05, 0x00, 0x00, 0x00, 0x00, 0x00, 0x00,
        0x00, 0x06, 0x00, 0xfe, 0xfe, 0xfe, 0xfe, 0xfe, 0xfe,
    ]);
    assert_eq!(view, &expected[..]);
}

#[test]
fn init_each_fills_every_value_in_place() {
    let fields = example(0, 0, 0).get_fields();
    let mut storage = vec![0u8; 72];
    init_each::<Example, u8>(fields, 3, &mut storage);
    for element in 0..3 {
        let at = element * 24;
        assert_eq!(storage[at], 0x00);
        assert_eq!(&storage[at + 1..at + 8], &[0xfe; 7]);
        assert_eq!(&storage[at + 8..at + 18], &[0x00; 10]);
        assert_eq!(&storage[at + 18..at + 24], &[0xfe; 6]);
    }
}

#[test]
fn array_of_composites_fills_each_element() {
    let values = [example(1, 2, 3), example(4, 5, 6)];
    let fields = values.get_fields();
    assert!(fields.is_some());
    let mut storage = example_storage(1, 2, 3, 0x01);
    storage.extend_from_slice(&example_storage(4, 5, 6, 0x02));
    <[Example; 2]>::init_padding(fields, &mut storage);
    assert_eq!(&storage[0..24], &EXAMPLE_VIEW);
    assert_eq!(storage[24], 0x04);
    assert_eq!(&storage[25..32], &[0xfe; 7]);
    assert_eq!(storage[32], 0x05);
    assert_eq!(storage[40], 0x06);
    assert_eq!(&storage[42..48], &[0xfe; 6]);
}

#[test]
fn wrapped_composite_is_filled_as_what_it_wraps() {
    let value = core::mem::ManuallyDrop::new(example(1, 2, 3));
    let mut storage = example_storage(1, 2, 3, 0x0f);
    let view = value_bytes::<core::mem::ManuallyDrop<Example>, u8>(value.get_fields(), &mut storage);
    assert_eq!(view, &EXAMPLE_VIEW);

    let value = core::num::Wrapping(example(1, 2, 3));
    let mut storage = example_storage(1, 2, 3, 0xf0);
    let view = value_bytes::<core::num::Wrapping<Example>, u8>(value.get_fields(), &mut storage);
    assert_eq!(view, &EXAMPLE_VIEW);
}

/// A value with the fields `flag: u8` at 0, `word: u16` at 2 and
/// `inner: Example` at 8, with its metadata and its pass written out by hand.
pub struct ByHand {
    pub flag: u8,
    pub word: u16,
    pub inner: Example,
}

#[derive(Clone, Copy)]
pub struct ByHandFields {
    pub flag: TypedField<u8>,
    pub word: TypedField<u16>,
    pub inner: TypedField<Example>,
}

impl PaddingBane for ByHand {
    type Fields = ByHandFields;

    fn get_fields(&self) -> ByHandFields {
        ByHandFields {
            flag: at(0, 1, &self.flag),
            word: at(2, 2, &self.word),
            inner: at(8, 24, &self.inner),
        }
    }

    fn init_padding<B: ByteCell>(fields: ByHandFields, bytes: &mut [B]) {
        let mut raw = [fields.inner.raw, fields.flag.raw, fields.word.raw];
        safe_bytes::fill_gaps(&mut raw, bytes);
        fields.flag.init_padding(bytes);
        fields.word.init_padding(bytes);
        fields.inner.init_padding(bytes);
    }
}

#[test]
fn pass_written_by_hand_fills_gaps_and_nested_padding() {
    let value = ByHand { flag: 1, word: 0x0302, inner: example(4, 5, 6) };
    let mut storage = vec![0xabu8; 32];
    storage[0] = 0x01;
    storage[2] = 0x02;
    storage[3] = 0x03;
    storage[8..32].copy_from_slice(&example_storage(4, 5, 6, 0xab));
    let view = value_bytes::<ByHand, u8>(value.get_fields(), &mut storage);
    let expected: [u8; 32] = [
        0x01, 0xfe, 0x02, 0x03, 0xfe, 0xfe, 0xfe, 0xfe, 0x04, 0xfe, 0xfe, 0xfe, 0xfe, 0xfe, 0xfe,
        0xfe, 0x05, 0x00, 0x00, 0x00, 0x00, 0x00, 0x00, 0x00, 0x06, 0x00, 0xfe, 0xfe, 0xfe, 0xfe,
        0xfe, 0xfe,
    ];
    assert_eq!(view, &expected);
}

#[test]
fn pass_runs_on_storage_that_holds_nothing_yet() {
    let value = Outer { inner: example(1, 2, 3), d: 4 };
    let mut storage = vec![core::mem::MaybeUninit::<u8>::uninit(); 32];
    let view = value_bytes::<Outer, _>(value.get_fields(), &mut storage);
    assert_eq!(view.len(), 32);
    let mut run = vec![core::mem::MaybeUninit::<u8>::uninit(); 48];
    let view = slice_bytes::<Example, _>(Some(value.inner.get_fields()), 2, &mut run);
    assert_eq!(view.len(), 48);
}

#[test]
fn list_writes_its_fields_in_the_order_of_the_list() {
    let fields = list(at(16, 2, &3u16), list(at(0, 1, &1u8), list(at(8, 8, &2u64), Nil)));
    let mut out = [Field { offset: 99, size: 99 }; 5];
    fields.write_raw(&mut out, 1);
    let pairs = out.map(|field| (field.offset, field.size));
    assert_eq!(pairs, [(99, 99), (16, 2), (0, 1), (8, 8), (99, 99)]);
    Nil.write_raw(&mut out, 5);
    assert_eq!(out.map(|field| field.offset), [99, 16, 0, 8, 99]);
}

#[test]
fn list_fills_inside_its_fields_and_leaves_the_gaps() {
    let inner = example(1, 2, 3);
    let fields = list(at(0, 2, &5u16), list(at(8, 24, &inner), Nil));
    let mut storage = vec![0x33u8; 32];
    storage[8..32].copy_from_slice(&example_storage(1, 2, 3, 0x33));
    fields.init_fields(&mut storage);
    let mut expected = vec![0x33u8; 8];
    expected.extend_from_slice(&EXAMPLE_VIEW);
    assert_eq!(storage, expected);
}
