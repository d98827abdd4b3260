use safe_bytes::field::precedes;
use safe_bytes::{fill_gaps, fill_range, sort_by_offset, ByteCell, Field, SENTINEL};

fn pairs(fields: &[Field]) -> Vec<(usize, usize)> {
    fields.iter().map(|field| (field.offset, field.size)).collect()
}

#[test]
fn sentinel_is_fe() {
    assert_eq!(SENTINEL, 0xfe);
}

#[test]
fn precedes_orders_by_offset_then_size() {
    let early = Field { offset: 1, size: 9 };
    let late = Field { offset: 2, size: 0 };
    let empty = Field { offset: 2, size: 0 };
    let full = Field { offset: 2, size: 3 };
    assert!(precedes(early, late));
    assert!(!precedes(late, early));
    assert!(precedes(empty, full));
    assert!(!precedes(full, empty));
    assert!(precedes(full, full));
}

#[test]
fn fill_range_writes_the_sentinel_in_the_range_only() {
    let mut bytes = [1u8, 2, 3, 4, 5, 6];
    fill_range(&mut bytes, 2, 5);
    assert_eq!(bytes, [1, 2, 0xfe, 0xfe, 0xfe, 6]);
}

#[test]
fn fill_range_of_nothing_writes_nothing() {
    let mut bytes = [1u8, 2, 3];
    fill_range(&mut bytes, 3, 3);
    fill_range(&mut bytes, 0, 0);
    assert_eq!(bytes, [1, 2, 3]);
}

#[test]
fn sort_puts_fields_in_ascending_offset() {
    let mut fields = [
        Field { offset: 16, size: 2 },
        Field { offset: 0, size: 1 },
        Field { offset: 24, size: 4 },
        Field { offset: 8, size: 8 },
    ];
    sort_by_offset(&mut fields);
    assert_eq!(pairs(&fields), vec![(0, 1), (8, 8), (16, 2), (24, 4)]);
}

#[test]
fn sort_puts_the_smaller_first_at_one_offset() {
    let mut fields = [
        Field { offset: 4, size: 4 },
        Field { offset: 4, size: 0 },
        Field { offset: 0, size: 4 },
        Field { offset: 0, size: 0 },
    ];
    sort_by_offset(&mut fields);
    assert_eq!(pairs(&fields), vec![(0, 0), (0, 4), (4, 0), (4, 4)]);
}

#[test]
fn sort_of_none_and_of_one() {
    let mut none: [Field; 0] = [];
    sort_by_offset(&mut none);
    assert!(none.is_empty());
    let mut one = [Field { offset: 3, size: 2 }];
    sort_by_offset(&mut one);
    assert_eq!(pairs(&one), vec![(3, 2)]);
}

#[test]
fn gaps_between_and_after_fields_are_filled() {
    let mut fields = [
        Field { offset: 16, size: 2 },
        Field { offset: 0, size: 1 },
        Field { offset: 8, size: 8 },
    ];
    let mut bytes = [0x11u8; 24];
    fill_gaps(&mut fields, &mut bytes);
    let mut expected = [0x11u8; 24];
    for at in (1..8).chain(18..24) {
        expected[at] = 0xfe;
    }
    assert_eq!(bytes, expected);
    assert_eq!(pairs(&fields), vec![(0, 1), (8, 8), (16, 2)]);
}

#[test]
fn gap_before_the_first_field_is_filled() {
    let mut fields = [Field { offset: 2, size: 2 }];
    let mut bytes = [9u8, 9, 9, 9];
    fill_gaps(&mut fields, &mut bytes);
    assert_eq!(bytes, [0xfe, 0xfe, 9, 9]);
}

#[test]
fn fields_that_touch_leave_no_gap() {
    let mut fields = [Field { offset: 2, size: 2 }, Field { offset: 0, size: 2 }];
    let mut bytes = [1u8, 2, 3, 4];
    fill_gaps(&mut fields, &mut bytes);
    assert_eq!(bytes, [1, 2, 3, 4]);
}

#[test]
fn without_fields_every_byte_is_a_gap() {
    let mut fields: [Field; 0] = [];
    let mut bytes = [1u8, 2, 3, 4];
    fill_gaps(&mut fields, &mut bytes);
    assert_eq!(bytes, [0xfe; 4]);
}

#[test]
fn empty_field_covers_nothing() {
    let mut fields = [Field { offset: 1, size: 0 }];
    let mut bytes = [1u8, 2];
    fill_gaps(&mut fields, &mut bytes);
    assert_eq!(bytes, [0xfe, 0xfe]);
}

#[test]
fn empty_field_listed_after_a_field_at_its_offset_does_not_uncover_it() {
    let mut fields = [Field { offset: 0, size: 8 }, Field { offset: 0, size: 0 }];
    let mut bytes = [7u8; 8];
    fill_gaps(&mut fields, &mut bytes);
    assert_eq!(bytes, [7u8; 8]);
}

#[test]
fn empty_storage_stays_empty() {
    let mut fields = [Field { offset: 0, size: 0 }];
    let mut bytes: [u8; 0] = [];
    fill_gaps(&mut fields, &mut bytes);
    assert!(bytes.is_empty());
}

#[test]
fn cell_of_a_byte_is_the_byte() {
    assert_eq!(<u8 as ByteCell>::holding(7), 7);
    assert_eq!(<u8 as ByteCell>::holding(SENTINEL), 0xfe);
}

#[test]
fn fill_range_runs_on_cells_that_hold_nothing_yet() {
    let mut cells = [core::mem::MaybeUninit::<u8>::uninit(); 4];
    fill_range(&mut cells, 0, 4);
    assert_eq!(cells.len(), 4);
}

#[test]
fn field_is_copied() {
    let field = Field { offset: 3, size: 5 };
    let copy = field;
    let clone = field.clone();
    assert_eq!((copy.offset, copy.size), (3, 5));
    assert_eq!((clone.offset, clone.size), (field.offset, field.size));
}

#[test]
fn fields_within_the_value_that_do_not_overlap_are_well_formed() {
    let fields = [
        Field { offset: 16, size: 2 },
        Field { offset: 0, size: 1 },
        Field { offset: 8, size: 8 },
    ];
    assert!(safe_bytes::is_well_formed(&fields, 24));
    assert!(safe_bytes::is_well_formed(&fields, 18));
    assert!(safe_bytes::is_well_formed(&[], 0));
    assert!(safe_bytes::is_well_formed(&[Field { offset: 0, size: 0 }], 0));
}

#[test]
fn field_past_the_end_is_not_well_formed() {
    let fields = [Field { offset: 0, size: 1 }, Field { offset: 16, size: 2 }];
    assert!(!safe_bytes::is_well_formed(&fields, 17));
    assert!(!safe_bytes::is_well_formed(&[Field { offset: usize::MAX, size: 2 }], usize::MAX));
    assert!(!safe_bytes::is_well_formed(&[Field { offset: 1, size: 0 }], 0));
}

#[test]
fn overlapping_fields_are_not_well_formed() {
    let overlapping = [Field { offset: 0, size: 4 }, Field { offset: 3, size: 4 }];
    assert!(!safe_bytes::is_well_formed(&overlapping, 8));
    let twice = [Field { offset: 2, size: 2 }, Field { offset: 2, size: 2 }];
    assert!(!safe_bytes::is_well_formed(&twice, 8));
    let inside = [Field { offset: 0, size: 8 }, Field { offset: 2, size: 0 }];
    assert!(!safe_bytes::is_well_formed(&inside, 8));
}

#[test]
fn empty_fields_may_share_an_offset() {
    let fields = [
        Field { offset: 4, size: 0 },
        Field { offset: 4, size: 4 },
        Field { offset: 4, size: 0 },
        Field { offset: 0, size: 4 },
    ];
    assert!(safe_bytes::is_well_formed(&fields, 8));
}
