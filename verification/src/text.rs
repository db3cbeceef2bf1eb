use vstd::prelude::*;

use crate::order::text_bytes;
use vstd::std_specs::iter::IteratorSpec;

verus! {

/// `n` occurs in `h` starting at byte `i`.
pub open spec fn occurs_at(h: Seq<u8>, n: Seq<u8>, i: int) -> bool {
    0 <= i && i + n.len() <= h.len() && h.subrange(i, i + n.len()) == n
}

/// `i` is the first byte at which `n` occurs in `h`.
pub open spec fn is_first_occurrence(h: Seq<u8>, n: Seq<u8>, i: int) -> bool {
    occurs_at(h, n, i) && forall|j: int| 0 <= j < i ==> !#[trigger] occurs_at(h, n, j)
}

/// The text `h` contains the text `n` (as bytes; every text contains the empty one).
pub open spec fn contains_text(h: Seq<char>, n: Seq<char>) -> bool {
    exists|i: int| #[trigger] occurs_at(text_bytes(h), text_bytes(n), i)
}

/// `twoway::find_str`: the byte offset of the first occurrence of `pattern` in
/// `text`, `None` when it does not occur. The crate documents it as finding the
/// first occurrence; an empty pattern is found at offset 0.
#[verifier::external_body]
pub(crate) fn find_str(text: &str, pattern: &str) -> (r: Option<usize>)
    ensures
        match r {
            Some(i) => is_first_occurrence(text_bytes(text@), text_bytes(pattern@), i as int),
            None => !contains_text(text@, pattern@),
        },
{
    twoway::find_str(text, pattern)
}

/// The number of bytes `s` is stored in.
pub fn byte_len(s: &str) -> (n: usize)
    ensures
        n == text_bytes(s@).len(),
{
    broadcast use vstd::slice::group_slice_axioms;

    s.as_bytes().len()
}

/// `String::push`: appends one character.
#[verifier::external_body]
pub(crate) fn push_char(s: &mut String, c: char)
    ensures
        final(s)@ == old(s)@.push(c),
{
    s.push(c);
}

} // verus!

verus! {

/// The character of the decimal digit `d`.
pub open spec fn digit_char(d: nat) -> char {
    (48 + d) as char
}

/// The decimal digits of `n`, most significant first, without leading zeros.
pub open spec fn digits(n: nat) -> Seq<char>
    decreases n,
{
    if n < 10 {
        seq![digit_char(n)]
    } else {
        digits(n / 10).push(digit_char(n % 10))
    }
}

/// `n` written in decimal, with a leading `-` when negative.
pub open spec fn decimal_text(n: int) -> Seq<char> {
    if n < 0 {
        seq!['-'] + digits((-n) as nat)
    } else {
        digits(n as nat)
    }
}

/// The characters of `n` in decimal.
pub fn decimal_chars(n: i64) -> (r: Vec<char>)
    ensures
        r@ == decimal_text(n as int),
{
    let neg = n < 0;
    let m0: u64 = if neg {
        (0i128 - n as i128) as u64
    } else {
        n as u64
    };
    let mut m = m0;
    let mut rev: Vec<char> = Vec::new();
    loop
        invariant_except_break
            digits(m0 as nat) == digits(m as nat) + rev@.reverse(),
        ensures
            digits(m0 as nat) == rev@.reverse(),
        decreases m,
    {
        let d = m % 10;
        let c = (48u8 + d as u8) as char;
        let ghost old_rev = rev@;
        rev.push(c);
        proof {
            assert(rev@.reverse() =~= seq![c] + old_rev.reverse());
            assert(c == digit_char(d as nat));
        }
        m = m / 10;
        proof {
            if m > 0 {
                assert(digits((m * 10 + d) as nat) == digits(m as nat).push(c));
                assert(digits(m0 as nat) =~= digits(m as nat) + rev@.reverse());
            } else {
                assert(digits(d as nat) == seq![c]);
                assert(digits(m0 as nat) =~= rev@.reverse());
            }
        }
        if m == 0 {
            break;
        }
    }
    let mut r: Vec<char> = Vec::new();
    if neg {
        r.push('-');
    }
    let ghost start = r@;
    let len = rev.len();
    let mut i: usize = 0;
    while i < len
        invariant
            len == rev@.len(),
            0 <= i <= len,
            r@ == start + rev@.reverse().take(i as int),
        decreases len - i,
    {
        r.push(rev[len - 1 - i]);
        proof {
            assert(rev@.reverse().take(i + 1) =~= rev@.reverse().take(i as int).push(rev@[len - 1 - i]));
        }
        i = i + 1;
    }
    proof {
        assert(rev@.reverse().take(len as int) =~= rev@.reverse());
        if neg {
            assert(start =~= seq!['-']);
        } else {
            assert(start =~= Seq::<char>::empty());
        }
    }
    r
}

/// A text made of the given characters.
pub fn string_of(chars: &Vec<char>) -> (r: String)
    ensures
        r@ == chars@,
{
    let mut r = String::new();
    let mut i: usize = 0;
    while i < chars.len()
        invariant
            0 <= i <= chars@.len(),
            r@ == chars@.take(i as int),
        decreases chars@.len() - i,
    {
        push_char(&mut r, chars[i]);
        proof {
            assert(chars@.take(i + 1) =~= chars@.take(i as int).push(chars@[i as int]));
        }
        i = i + 1;
    }
    proof {
        assert(chars@.take(chars@.len() as int) =~= chars@);
    }
    r
}

/// `n` in decimal.
pub fn decimal(n: i64) -> (r: String)
    ensures
        r@ == decimal_text(n as int),
{
    let c = decimal_chars(n);
    string_of(&c)
}

} // verus!

verus! {

/// The UTF-16 code units of one character.
pub open spec fn utf16_of_char(c: char) -> Seq<u16> {
    let v = c as u32;
    if v < 0x10000 {
        seq![v as u16]
    } else {
        seq![(0xD800 + (v - 0x10000) / 1024) as u16, (0xDC00 + (v - 0x10000) % 1024) as u16]
    }
}

/// The UTF-16 encoding of a text.
pub open spec fn utf16_encode(s: Seq<char>) -> Seq<u16>
    decreases s.len(),
{
    if s.len() == 0 {
        seq![]
    } else {
        utf16_encode(s.drop_last()) + utf16_of_char(s.last())
    }
}

/// The text encoded in `u` as UTF-16, each unpaired surrogate read as U+FFFD.
pub open spec fn decode_utf16_lossy(u: Seq<u16>) -> Seq<char>
    decreases u.len(),
{
    if u.len() == 0 {
        seq![]
    } else if !(0xD800 <= u[0] <= 0xDFFF) {
        seq![u[0] as char] + decode_utf16_lossy(u.drop_first())
    } else if u[0] <= 0xDBFF && u.len() >= 2 && 0xDC00 <= u[1] <= 0xDFFF {
        seq![(0x10000 + (u[0] - 0xD800) * 1024 + (u[1] - 0xDC00)) as char] + decode_utf16_lossy(u.skip(2))
    } else {
        seq!['\u{FFFD}'] + decode_utf16_lossy(u.drop_first())
    }
}

/// `String::from_utf16_lossy`: decodes UTF-16, replacing each unpaired
/// surrogate by U+FFFD (the documented behaviour).
#[verifier::external_body]
pub(crate) fn from_utf16_lossy(units: &[u16]) -> (r: String)
    ensures
        r@ == decode_utf16_lossy(units@),
{
    String::from_utf16_lossy(units)
}

/// The UTF-16 code units of a text.
pub fn encode_utf16(s: &str) -> (r: Vec<u16>)
    ensures
        r@ == utf16_encode(s@),
{
    broadcast use vstd::string::group_string_axioms;

    let mut it = s.chars();
    let mut r: Vec<u16> = Vec::new();
    let ghost mut k: int = 0;
    proof {
        assert(s@.skip(0) =~= s@);
        assert(s@.take(0) =~= Seq::<char>::empty());
    }
    loop
        invariant_except_break
            it.remaining() == s@.skip(k),
            0 <= k <= s@.len(),
            r@ == utf16_encode(s@.take(k)),
        ensures
            r@ == utf16_encode(s@),
        decreases s@.len() - k,
    {
        match it.next() {
            None => {
                proof {
                    assert(s@.take(k) =~= s@);
                }
                break;
            },
            Some(c) => {
                let v = c as u32;
                if v < 0x10000 {
                    r.push(v as u16);
                } else {
                    r.push((0xD800 + (v - 0x10000) / 1024) as u16);
                    r.push((0xDC00 + (v - 0x10000) % 1024) as u16);
                }
                proof {
                    assert(s@.take(k + 1).drop_last() =~= s@.take(k));
                    assert(s@.skip(k + 1) =~= s@.skip(k).drop_first());
                    k = k + 1;
                }
            },
        }
    }
    r
}

} // verus!
