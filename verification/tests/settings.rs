use cloppy::settings::{column_setting, column_width_entry, ColumnError, column_widths, parse_i32, setting_to_int, window_position, window_position_settings, Setting};
use std::collections::HashMap;

#[test]
fn parses_decimal_i32() {
    assert_eq!(Some(42), parse_i32("42"));
    assert_eq!(Some(-7), parse_i32("-7"));
    assert_eq!(Some(5), parse_i32("+5"));
    assert_eq!(Some(7), parse_i32("007"));
    assert_eq!(Some(i32::MAX), parse_i32("2147483647"));
    assert_eq!(Some(i32::MIN), parse_i32("-2147483648"));
    assert_eq!(None, parse_i32("2147483648"));
    assert_eq!(None, parse_i32("-2147483649"));
    assert_eq!(None, parse_i32("99999999999999999999"));
    assert_eq!(None, parse_i32(""));
    assert_eq!(None, parse_i32("-"));
    assert_eq!(None, parse_i32("+-1"));
    assert_eq!(None, parse_i32("12a"));
    assert_eq!(None, parse_i32(" 1"));
    assert_eq!(None, parse_i32("١"));
}

#[test]
fn parse_agrees_with_std() {
    for s in ["0", "-0", "+0", "10", "-10", "2147483647", "2147483648", "abc", "1-", "--1", "0x10", "٣"] {
        assert_eq!(s.parse::<i32>().ok(), parse_i32(s), "{}", s);
    }
}

#[test]
fn window_position_reads_back() {
    let saved = window_position_settings(10, -20, 110, 180);
    assert_eq!("10", saved[&Setting::WindowXPosition.key()]);
    assert_eq!("-20", saved[&Setting::WindowYPosition.key()]);
    assert_eq!("100", saved[&Setting::WindowWidth.key()]);
    assert_eq!("200", saved[&Setting::WindowHeight.key()]);
    assert_eq!((10, -20, 100, 200), window_position(&saved));
}

#[test]
fn column_settings() {
    let mut settings: HashMap<u32, String> = HashMap::new();
    settings.insert(Setting::ColumnFileNameWidth.key(), "120".to_string());
    settings.insert(Setting::ColumnFilePathWidth.key(), "300".to_string());
    settings.insert(Setting::ColumnFileSizeWidth.key(), "80".to_string());
    assert_eq!([120, 300, 80], column_widths(&settings));
    assert_eq!(300, setting_to_int(Setting::ColumnFilePathWidth, &settings));
    assert_eq!(Some(Setting::ColumnFileNameWidth), column_setting(0));
    assert_eq!(Some(Setting::ColumnFileSizeWidth), column_setting(2));
    assert_eq!(None, column_setting(3));
    assert_eq!(None, column_setting(-1));
}

#[test]
fn column_width_entries() {
    assert_eq!(Ok((Setting::ColumnFilePathWidth, "250".to_string())), column_width_entry(1, 250));
    assert_eq!(Err(ColumnError::NoWidth), column_width_entry(1, 0));
    assert_eq!(Err(ColumnError::NoWidth), column_width_entry(7, -3));
    assert_eq!(Err(ColumnError::WrongIndex), column_width_entry(3, 10));
}
