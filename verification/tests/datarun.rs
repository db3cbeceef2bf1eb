use cloppy::datarun::{datarun, dataruns, length_in_lcn, offset_in_lcn, offsets_readable, Datarun, Parsed};

fn run(length_lcn: u64, offset_lcn: i64) -> Datarun {
    Datarun { length_lcn, offset_lcn }
}

#[test]
fn reads_simple_run_list() {
    let input = [0x11, 0x30, 0x20, 0x01, 0x60, 0x11, 0x10, 0x30, 0x00];
    assert_eq!(Parsed::Done(vec![run(48, 32), run(96, 0), run(16, 48)], 9), dataruns(&input));
}

#[test]
fn reads_multi_byte_fields() {
    let input = [0x31, 0x38, 0x73, 0x25, 0x34, 0x32, 0x14, 0x01, 0xE5, 0x11, 0x02, 0x31, 0x42, 0xAA, 0x00, 0x03, 0x00];
    assert_eq!(
        Parsed::Done(vec![run(56, 0x342573), run(276, 0x0211E5), run(66, 0x0300AA)], 17),
        dataruns(&input)
    );
}

#[test]
fn negative_offsets_follow_the_top_bit_of_the_last_byte() {
    let input = [0x11, 0x30, 0x60, 0x21, 0x10, 0x00, 0x01, 0x11, 0x20, 0xE0, 0x00];
    assert_eq!(Parsed::Done(vec![run(48, 96), run(16, 256), run(32, -224)], 11), dataruns(&input));
}

#[test]
fn stops_at_terminator_and_leaves_the_rest() {
    let input = [0x00, 0x11, 0x30];
    assert_eq!(Parsed::Done(vec![], 1), dataruns(&input));
}

#[test]
fn incomplete_lists() {
    assert_eq!(Parsed::Incomplete, dataruns(&[]));
    assert_eq!(Parsed::Incomplete, dataruns(&[0x11, 0x30]));
    assert_eq!(Parsed::Incomplete, dataruns(&[0x11, 0x30, 0x20]));
    assert_eq!(Parsed::Incomplete, datarun(&[]));
    assert_eq!(Parsed::Incomplete, datarun(&[0x21, 0x01, 0x02]));
    assert_eq!(Parsed::Done(run(1, 0x0302), 4), datarun(&[0x21, 0x01, 0x02, 0x03, 0x09]));
}

#[test]
fn field_values() {
    assert_eq!(0, length_in_lcn(&[]));
    assert_eq!(0x0201, length_in_lcn(&[0x01, 0x02]));
    assert_eq!(0x0807060504030201, length_in_lcn(&[1, 2, 3, 4, 5, 6, 7, 8, 9]));
    assert_eq!(-255, offset_in_lcn(&[0xFF]));
    assert_eq!(-32768, offset_in_lcn(&[0x00, 0x80]));
    assert_eq!(5, offset_in_lcn(&[0x05, 0x00]));
    assert_eq!(i64::MAX, offset_in_lcn(&[1, 0, 0, 0, 0, 0, 0, 0x80]));
    assert_eq!(0, offset_in_lcn(&[]));
}

#[test]
fn offsets_that_cannot_be_negated_are_found() {
    assert!(offsets_readable(&[0x11, 0x30, 0x20, 0x01, 0x60, 0x11, 0x10, 0x30, 0x00]));
    assert!(offsets_readable(&[]));
    assert!(offsets_readable(&[0x81, 0x05, 0, 0, 0]));
    assert!(!offsets_readable(&[0x81, 0x05, 0, 0, 0, 0, 0, 0, 0, 0x80, 0x00]));
    assert!(offsets_readable(&[0x81, 0x05, 1, 0, 0, 0, 0, 0, 0, 0x80, 0x00]));
    assert!(offsets_readable(&[0x00, 0x81, 0x05, 0, 0, 0, 0, 0, 0, 0, 0x80]));
}
