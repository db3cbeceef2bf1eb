use vstd::prelude::*;
use std::collections::HashMap;

use vstd::std_specs::iter::IteratorSpec;
use crate::text::{decimal, decimal_text, digit_char, digits};

verus! {

broadcast use vstd::std_specs::hash::group_hash_axioms;

/// A value kept in the user's settings.
#[derive(Copy, Clone, Debug, PartialEq, Eq, Structural, Hash)]
pub enum Setting {
    WindowXPosition,
    WindowYPosition,
    WindowWidth,
    WindowHeight,
    ColumnFileNameWidth,
    ColumnFilePathWidth,
    ColumnFileSizeWidth,
}

/// The number a setting is stored under.
pub open spec fn setting_key(s: Setting) -> u32 {
    match s {
        Setting::WindowXPosition => 0,
        Setting::WindowYPosition => 1,
        Setting::WindowWidth => 2,
        Setting::WindowHeight => 3,
        Setting::ColumnFileNameWidth => 4,
        Setting::ColumnFilePathWidth => 5,
        Setting::ColumnFileSizeWidth => 6,
    }
}

impl Setting {
    /// The number this setting is stored under in a settings map.
    pub fn key(self) -> (r: u32)
        ensures
            r == setting_key(self),
    {
        match self {
            Setting::WindowXPosition => 0,
            Setting::WindowYPosition => 1,
            Setting::WindowWidth => 2,
            Setting::WindowHeight => 3,
            Setting::ColumnFileNameWidth => 4,
            Setting::ColumnFilePathWidth => 5,
            Setting::ColumnFileSizeWidth => 6,
        }
    }
}

/// Whether `c` is an ASCII decimal digit.
pub open spec fn is_digit(c: char) -> bool {
    '0' <= c <= '9'
}

/// The value of the decimal digits `s`, most significant first.
pub open spec fn digits_value(s: Seq<char>) -> int
    decreases s.len(),
{
    if s.len() == 0 {
        0
    } else {
        digits_value(s.drop_last()) * 10 + (s.last() as int - '0' as int)
    }
}

/// The digits after an optional sign.
pub open spec fn unsigned_part(s: Seq<char>) -> Seq<char> {
    if s.len() > 0 && (s[0] == '-' || s[0] == '+') {
        s.drop_first()
    } else {
        s
    }
}

/// The text is an optional `+` or `-` followed by one or more decimal digits.
pub open spec fn is_decimal(s: Seq<char>) -> bool {
    let body = unsigned_part(s);
    body.len() > 0 && forall|i: int| 0 <= i < body.len() ==> is_digit(#[trigger] body[i])
}

/// The number such a text denotes.
pub open spec fn decimal_value(s: Seq<char>) -> int {
    let v = digits_value(unsigned_part(s));
    if s.len() > 0 && s[0] == '-' {
        -v
    } else {
        v
    }
}

/// What reading `s` as an `i32` gives: a decimal text whose value fits, or nothing.
pub open spec fn parsed_i32(s: Seq<char>) -> Option<i32> {
    if is_decimal(s) && i32::MIN <= decimal_value(s) <= i32::MAX {
        Some(decimal_value(s) as i32)
    } else {
        None
    }
}

/// The cap a running value is held under while reading digits.
pub open spec fn capped(v: int) -> int {
    if v > 0x1_0000_0000 {
        0x1_0000_0000
    } else {
        v
    }
}

proof fn lemma_capped_step(v: int, d: int)
    requires
        v >= 0,
        0 <= d <= 9,
    ensures
        capped(capped(v) * 10 + d) == capped(v * 10 + d),
{
    if v > 0x1_0000_0000 {
        assert(v * 10 + d > 0x1_0000_0000) by (nonlinear_arith)
            requires
                v > 0x1_0000_0000,
                d >= 0,
        ;
    }
}

proof fn lemma_digits_value_nonneg(s: Seq<char>)
    requires
        forall|i: int| 0 <= i < s.len() ==> is_digit(#[trigger] s[i]),
    ensures
        digits_value(s) >= 0,
    decreases s.len(),
{
    if s.len() > 0 {
        assert(is_digit(s[s.len() - 1]));
        assert forall|i: int| 0 <= i < s.drop_last().len() implies is_digit(#[trigger] s.drop_last()[i]) by {
            assert(s.drop_last()[i] == s[i]);
        }
        lemma_digits_value_nonneg(s.drop_last());
    }
}

/// Reads a decimal `i32`, as `str::parse` does: an optional sign, then digits.
pub fn parse_i32(s: &str) -> (r: Option<i32>)
    ensures
        r == parsed_i32(s@),
{
    broadcast use vstd::string::group_string_axioms;

    let ghost body = unsigned_part(s@);
    let mut it = s.chars();
    let ghost mut k: int = 0;
    let mut negative = false;
    let mut value: u64 = 0;
    let mut any_digit = false;
    let mut valid = true;
    let mut first = true;
    proof {
        assert(s@.skip(0) =~= s@);
    }
    loop
        invariant_except_break
            body == unsigned_part(s@),
            it.remaining() == s@.skip(k),
            0 <= k <= s@.len(),
            first == (k == 0),
            negative == (k > 0 && s@.len() > 0 && s@[0] == '-'),
            ({
                let start = if s@.len() > 0 && (s@[0] == '-' || s@[0] == '+') { 1int } else { 0int };
                let done = if k >= start { k - start } else { 0 };
                &&& valid ==> any_digit == (done > 0)
                &&& valid == (forall|i: int| 0 <= i < done ==> is_digit(#[trigger] body[i]))
                &&& valid ==> value == capped(digits_value(body.take(done)))
            }),
        ensures
            k == s@.len(),
            negative == (s@.len() > 0 && s@[0] == '-'),
            ({
                let start = if s@.len() > 0 && (s@[0] == '-' || s@[0] == '+') { 1int } else { 0int };
                let done = if k >= start { k - start } else { 0 };
                &&& valid == (forall|i: int| 0 <= i < done ==> is_digit(#[trigger] body[i]))
                &&& valid ==> any_digit == (done > 0)
                &&& valid ==> value == capped(digits_value(body.take(done)))
            }),
        decreases s@.len() - k,
    {
        match it.next() {
            None => {
                break;
            },
            Some(c) => {
                proof {
                    assert(s@.skip(k + 1) =~= s@.skip(k).drop_first());
                    assert(c == s@[k]);
                }
                if first && (c == '-' || c == '+') {
                    negative = c == '-';
                } else if valid && '0' <= c && c <= '9' {
                    let d = (c as u32 - '0' as u32) as u64;
                    let ghost start = if s@.len() > 0 && (s@[0] == '-' || s@[0] == '+') { 1int } else { 0int };
                    proof {
                        let done = k - start;
                        assert(k >= start);
                        assert(body =~= if start == 1 { s@.drop_first() } else { s@ });
                        assert(body[done] == c);
                        assert(body.take(done + 1).drop_last() =~= body.take(done));
                        lemma_digits_value_nonneg(body.take(done));
                        lemma_capped_step(digits_value(body.take(done)), d as int);
                    }
                    value = if value * 10 + d > 0x1_0000_0000 {
                        0x1_0000_0000
                    } else {
                        value * 10 + d
                    };
                    any_digit = true;
                } else {
                    let ghost start = if s@.len() > 0 && (s@[0] == '-' || s@[0] == '+') { 1int } else { 0int };
                    proof {
                        assert(k >= start);
                        assert(body =~= if start == 1 { s@.drop_first() } else { s@ });
                        assert(body[k - start] == c);
                    }
                    valid = false;
                }
                first = false;
                proof {
                    k = k + 1;
                }
            },
        }
    }
    let ghost start = if s@.len() > 0 && (s@[0] == '-' || s@[0] == '+') { 1int } else { 0int };
    proof {
        assert(body.len() == s@.len() - start);
        assert(body.take(body.len() as int) =~= body);
    }
    if !valid || !any_digit {
        return None;
    }
    proof {
        lemma_digits_value_nonneg(body);
    }
    if negative {
        if value > 0x8000_0000 {
            None
        } else {
            Some((0i64 - value as i64) as i32)
        }
    } else {
        if value > 0x7fff_ffff {
            None
        } else {
            Some(value as i32)
        }
    }
}

/// The settings the window keeps, by the number of each setting.
pub open spec fn setting_int(settings: Map<u32, String>, setting: Setting) -> Option<i32> {
    if settings.contains_key(setting_key(setting)) {
        parsed_i32(settings[setting_key(setting)]@)
    } else {
        None
    }
}

/// The integer a setting holds. The setting must be present and hold a
/// decimal `i32`.
pub fn setting_to_int(setting: Setting, settings: &HashMap<u32, String>) -> (r: i32)
    requires
        setting_int(settings@, setting).is_some(),
    ensures
        Some(r) == setting_int(settings@, setting),
{
    let key = setting.key();
    match settings.get(&key) {
        Some(text) => {
            match parse_i32(text.as_str()) {
                Some(v) => v,
                None => {
                    proof {
                        assert(false);
                    }
                    0
                },
            }
        },
        None => {
            proof {
                assert(false);
            }
            0
        },
    }
}

/// Where the window is to be placed: left, top, width and height.
pub fn window_position(settings: &HashMap<u32, String>) -> (r: (i32, i32, i32, i32))
    requires
        setting_int(settings@, Setting::WindowXPosition).is_some(),
        setting_int(settings@, Setting::WindowYPosition).is_some(),
        setting_int(settings@, Setting::WindowWidth).is_some(),
        setting_int(settings@, Setting::WindowHeight).is_some(),
    ensures
        Some(r.0) == setting_int(settings@, Setting::WindowXPosition),
        Some(r.1) == setting_int(settings@, Setting::WindowYPosition),
        Some(r.2) == setting_int(settings@, Setting::WindowWidth),
        Some(r.3) == setting_int(settings@, Setting::WindowHeight),
{
    (
        setting_to_int(Setting::WindowXPosition, settings),
        setting_to_int(Setting::WindowYPosition, settings),
        setting_to_int(Setting::WindowWidth, settings),
        setting_to_int(Setting::WindowHeight, settings),
    )
}

/// The widths the name, path and size columns are to be given.
pub fn column_widths(settings: &HashMap<u32, String>) -> (r: [i32; 3])
    requires
        setting_int(settings@, Setting::ColumnFileNameWidth).is_some(),
        setting_int(settings@, Setting::ColumnFilePathWidth).is_some(),
        setting_int(settings@, Setting::ColumnFileSizeWidth).is_some(),
    ensures
        Some(r[0]) == setting_int(settings@, Setting::ColumnFileNameWidth),
        Some(r[1]) == setting_int(settings@, Setting::ColumnFilePathWidth),
        Some(r[2]) == setting_int(settings@, Setting::ColumnFileSizeWidth),
{
    [
        setting_to_int(Setting::ColumnFileNameWidth, settings),
        setting_to_int(Setting::ColumnFilePathWidth, settings),
        setting_to_int(Setting::ColumnFileSizeWidth, settings),
    ]
}

/// The setting that keeps the width of column `index`, for the three columns.
pub open spec fn column_setting_spec(index: isize) -> Option<Setting> {
    if index == 0 {
        Some(Setting::ColumnFileNameWidth)
    } else if index == 1 {
        Some(Setting::ColumnFilePathWidth)
    } else if index == 2 {
        Some(Setting::ColumnFileSizeWidth)
    } else {
        None
    }
}

/// The setting that keeps the width of column `index`, for the three columns.
pub fn column_setting(index: isize) -> (r: Option<Setting>)
    ensures
        r == column_setting_spec(index),
{
    if index == 0 {
        Some(Setting::ColumnFileNameWidth)
    } else if index == 1 {
        Some(Setting::ColumnFilePathWidth)
    } else if index == 2 {
        Some(Setting::ColumnFileSizeWidth)
    } else {
        None
    }
}

/// Why a column's width could not be saved.
#[derive(Copy, Clone, Debug, PartialEq, Eq, Structural)]
pub enum ColumnError {
    /// The list gave no width (less than one pixel) for the column.
    NoWidth,
    /// The list has no such column.
    WrongIndex,
}

/// The setting and text that save the width `width` the list gave for
/// column `index`. A width under one is refused first, then an index past
/// the three columns.
pub fn column_width_entry(index: isize, width: isize) -> (r: Result<(Setting, String), ColumnError>)
    ensures
        width < 1 ==> r == Err::<(Setting, String), ColumnError>(ColumnError::NoWidth),
        width >= 1 && !(0 <= index <= 2) ==> r == Err::<(Setting, String), ColumnError>(ColumnError::WrongIndex),
        width >= 1 && 0 <= index <= 2 ==> (r matches Ok((s, text)) && Some(s) == column_setting_spec(index) && text@ == decimal_text(width as int)),
{
    if width < 1 {
        return Err(ColumnError::NoWidth);
    }
    match column_setting(index) {
        None => Err(ColumnError::WrongIndex),
        Some(setting) => Ok((setting, decimal(width as i64))),
    }
}

/// The settings that record a window placed at `left`, `top`, `right`, `bottom`:
/// its left and top edges, its width and its height, in decimal.
pub fn window_position_settings(left: i32, top: i32, right: i32, bottom: i32) -> (r: HashMap<u32, String>)
    requires
        i32::MIN <= right - left <= i32::MAX,
        i32::MIN <= bottom - top <= i32::MAX,
    ensures
        r@.dom() == set![
            setting_key(Setting::WindowXPosition),
            setting_key(Setting::WindowYPosition),
            setting_key(Setting::WindowHeight),
            setting_key(Setting::WindowWidth),
        ],
        r@[setting_key(Setting::WindowXPosition)]@ == decimal_text(left as int),
        r@[setting_key(Setting::WindowYPosition)]@ == decimal_text(top as int),
        r@[setting_key(Setting::WindowHeight)]@ == decimal_text(bottom - top),
        r@[setting_key(Setting::WindowWidth)]@ == decimal_text(right - left),
{
    let mut properties: HashMap<u32, String> = HashMap::new();
    properties.insert(Setting::WindowXPosition.key(), decimal(left as i64));
    properties.insert(Setting::WindowYPosition.key(), decimal(top as i64));
    properties.insert(Setting::WindowHeight.key(), decimal((bottom - top) as i64));
    properties.insert(Setting::WindowWidth.key(), decimal((right - left) as i64));
    proof {
        assert(properties@.dom() =~= set![0u32, 1u32, 3u32, 2u32]);
    }
    properties
}

/// The digits of a number read back give the number.
proof fn lemma_digits_read_back(n: nat)
    ensures
        digits(n).len() > 0,
        forall|i: int| 0 <= i < digits(n).len() ==> is_digit(#[trigger] digits(n)[i]),
        digits_value(digits(n)) == n,
    decreases n,
{
    if n >= 10 {
        lemma_digits_read_back(n / 10);
        let s = digits(n);
        assert(s.drop_last() =~= digits(n / 10));
        assert(digit_char(n % 10) as int == 48 + n % 10);
        assert(s.last() == digit_char(n % 10));
        assert(digits_value(s) == digits_value(s.drop_last()) * 10 + (s.last() as int - '0' as int));
        assert((n / 10) * 10 + n % 10 == n);
        assert forall|i: int| 0 <= i < s.len() implies is_digit(#[trigger] s[i]) by {
            if i < s.len() - 1 {
                assert(s[i] == digits(n / 10)[i]);
            }
        }
    } else {
        assert(digits(n) == seq![digit_char(n)]);
        assert(digits(n).drop_last() =~= Seq::<char>::empty());
        assert(digit_char(n) as int == 48 + n);
        let s = digits(n);
        assert(digits_value(s) == digits_value(s.drop_last()) * 10 + (s.last() as int - '0' as int));
        assert(digits_value(s.drop_last()) == 0);
    }
}

/// Any `i32` written in decimal reads back as itself.
pub proof fn law_decimal_reads_back(v: i32)
    ensures
        parsed_i32(decimal_text(v as int)) == Some(v),
{
    if v < 0 {
        let m = (-(v as int)) as nat;
        lemma_digits_read_back(m);
        let t = decimal_text(v as int);
        assert(t == seq!['-'] + digits(m));
        assert(unsigned_part(t) =~= digits(m));
    } else {
        lemma_digits_read_back(v as nat);
        let t = decimal_text(v as int);
        assert(t == digits(v as nat));
        assert(is_digit(t[0]));
        assert(unsigned_part(t) == t);
    }
}

/// What saving the window's place writes, restoring reads back: the same
/// left and top edges, width and height.
pub proof fn law_window_position_read_back(settings: Map<u32, String>, left: i32, top: i32, right: i32, bottom: i32)
    requires
        i32::MIN <= right - left <= i32::MAX,
        i32::MIN <= bottom - top <= i32::MAX,
        settings[setting_key(Setting::WindowXPosition)]@ == decimal_text(left as int),
        settings[setting_key(Setting::WindowYPosition)]@ == decimal_text(top as int),
        settings[setting_key(Setting::WindowHeight)]@ == decimal_text(bottom - top),
        settings[setting_key(Setting::WindowWidth)]@ == decimal_text(right - left),
        settings.dom().contains(setting_key(Setting::WindowXPosition)),
        settings.dom().contains(setting_key(Setting::WindowYPosition)),
        settings.dom().contains(setting_key(Setting::WindowHeight)),
        settings.dom().contains(setting_key(Setting::WindowWidth)),
    ensures
        setting_int(settings, Setting::WindowXPosition) == Some(left),
        setting_int(settings, Setting::WindowYPosition) == Some(top),
        setting_int(settings, Setting::WindowWidth) == Some((right - left) as i32),
        setting_int(settings, Setting::WindowHeight) == Some((bottom - top) as i32),
{
    law_decimal_reads_back(left);
    law_decimal_reads_back(top);
    law_decimal_reads_back((right - left) as i32);
    law_decimal_reads_back((bottom - top) as i32);
}

} // verus!
