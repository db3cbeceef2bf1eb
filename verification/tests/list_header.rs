use cloppy::list_header::{next_order, reset_order, ListHeader, HDF_SORTDOWN, HDF_SORTUP};

#[test]
fn test_reset_order() {
    let value = 42;
    assert_eq!(value, reset_order(value));
    assert_eq!(value, reset_order(next_order(value)));
    assert_eq!(value, reset_order(next_order(next_order(value))));
    assert_eq!(value, reset_order(next_order(next_order(next_order(value)))));
}

#[test]
fn none_order_to_ascending() {
    assert_eq!(HDF_SORTUP, next_order(0));
}

#[test]
fn ascending_order_to_descending() {
    assert_eq!(HDF_SORTDOWN, next_order(HDF_SORTUP));
}

#[test]
fn descending_order_to_none() {
    assert_eq!(0, next_order(HDF_SORTDOWN));
}

#[test]
fn next_order_keeps_other_fmt() {
    assert_eq!(HDF_SORTUP + 1, next_order(1));
    assert_eq!(HDF_SORTDOWN + 1, next_order(HDF_SORTUP + 1));
    assert_eq!(1, next_order(HDF_SORTDOWN + 1));
}

#[test]
fn three_steps_come_back() {
    for v in [0, 7, -1 & !(HDF_SORTUP | HDF_SORTDOWN), HDF_SORTUP | 3] {
        assert_eq!(v, next_order(next_order(next_order(v))));
    }
    let both = HDF_SORTUP | HDF_SORTDOWN;
    assert_eq!(HDF_SORTUP, next_order(both));
}

#[test]
fn header_widths_and_offsets() {
    let mut header = ListHeader::create();
    assert_eq!(200, header.width_of(2));
    assert_eq!(0, header.offset_of(0));
    assert_eq!(400, header.offset_of(2));
    assert_eq!(600, header.offset_of(3));
    assert_eq!(None, header.select_sort_column(0));
    assert_eq!(Some(0), header.select_sort_column(2));
    assert_eq!(None, header.select_sort_column(2));
    assert_eq!(Some(2), header.select_sort_column(1));
}

#[test]
fn painting_position_shifts_and_cuts() {
    let header = ListHeader::create();
    assert_eq!((210, 410), header.painting_position(10, 900, 1));
    assert_eq!((0, 100), header.painting_position(0, 100, 0));
    assert_eq!((400, 600), header.painting_position(0, 1000, 2));
}
