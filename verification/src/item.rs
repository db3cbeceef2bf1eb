use vstd::prelude::*;
use vstd::utf8::*;

use crate::file_entity::{is_directory_flags, FileEntity, DIRECTORY_FLAG};
use crate::order::text_bytes;
use crate::text::{byte_len, utf16_of_char, decimal_chars, decimal_text, encode_utf16, find_str, is_first_occurrence, occurs_at, string_of, utf16_encode, contains_text};

verus! {

/// The first position at or after `i` where `n` occurs in `h`.
pub open spec fn find_from(h: Seq<u8>, n: Seq<u8>, i: int) -> Option<int>
    decreases h.len() + 1 - i,
{
    if i < 0 || i + n.len() > h.len() {
        None
    } else if occurs_at(h, n, i) {
        Some(i)
    } else {
        find_from(h, n, i + 1)
    }
}

/// The pieces of `h`, in order, marked matched or not: each leftmost
/// occurrence of a non-empty `n` is a matched piece, and the text between
/// occurrences an unmatched one; empty pieces are left out.
pub open spec fn segments(h: Seq<u8>, n: Seq<u8>) -> Seq<(bool, Seq<u8>)>
    decreases h.len(),
{
    if h.len() == 0 {
        seq![]
    } else if n.len() == 0 {
        seq![(false, h)]
    } else {
        match find_from(h, n, 0) {
            None => seq![(false, h)],
            Some(p) => {
                if 0 <= p && p + n.len() <= h.len() {
                    (if p > 0 {
                        seq![(false, h.subrange(0, p))]
                    } else {
                        Seq::<(bool, Seq<u8>)>::empty()
                    }) + seq![(true, n)] + segments(h.subrange(p + n.len(), h.len() as int), n)
                } else {
                    seq![]
                }
            },
        }
    }
}

/// The first occurrence found by a search is the one `find_from` gives.
proof fn lemma_first_occurrence_found(h: Seq<u8>, n: Seq<u8>, i: int, p: int)
    requires
        0 <= i <= p,
        is_first_occurrence(h, n, p),
    ensures
        find_from(h, n, i) == Some(p),
    decreases p - i,
{
    if i < p {
        assert(!occurs_at(h, n, i));
        lemma_first_occurrence_found(h, n, i + 1, p);
    }
}

/// Where nothing occurs, `find_from` finds nothing.
proof fn lemma_nothing_found(h: Seq<u8>, n: Seq<u8>, i: int)
    requires
        0 <= i,
        forall|j: int| !#[trigger] occurs_at(h, n, j),
    ensures
        find_from(h, n, i) == None::<int>,
    decreases h.len() + 1 - i,
{
    if i + n.len() <= h.len() {
        assert(!occurs_at(h, n, i));
        lemma_nothing_found(h, n, i + 1);
    }
}

/// Where valid UTF-8 `b` begins with valid UTF-8 `a`, a character starts right after `a`.
proof fn lemma_boundary_after_prefix(a: Seq<u8>, b: Seq<u8>)
    requires
        valid_utf8(a),
        valid_utf8(b),
        a.len() <= b.len(),
        b.subrange(0, a.len() as int) == a,
    ensures
        is_char_boundary(b, a.len() as int),
    decreases a.len(),
{
    if a.len() > 0 {
        assert(a[0] == b[0]);
        let l = length_of_first_scalar(a);
        assert(length_of_first_scalar(b) == l);
        let pa = pop_first_scalar(a);
        let pb = pop_first_scalar(b);
        assert(pb.subrange(0, pa.len() as int) =~= pa) by {
            assert forall|k: int| 0 <= k < pa.len() implies pb[k] == pa[k] by {
                assert(pb[k] == b[k + l]);
                assert(pa[k] == a[k + l]);
                assert(b.subrange(0, a.len() as int)[k + l] == b[k + l]);
            }
        }
        lemma_boundary_after_prefix(pa, pb);
    }
}

/// A non-empty valid UTF-8 `n` occurring in valid UTF-8 `h` starts at a character.
proof fn lemma_boundary_at_occurrence(h: Seq<u8>, n: Seq<u8>, i: int)
    requires
        valid_utf8(h),
        valid_utf8(n),
        n.len() > 0,
        occurs_at(h, n, i),
    ensures
        is_char_boundary(h, i),
{
    is_char_boundary_start_end_of_seq(n);
    is_char_boundary_iff_not_is_continuation_byte(n, 0);
    assert(h.subrange(i, i + n.len())[0] == h[i]);
    is_char_boundary_iff_not_is_continuation_byte(h, i);
}

/// The pieces' texts, one after another.
pub open spec fn joined(pieces: Seq<(bool, Seq<u8>)>) -> Seq<u8>
    decreases pieces.len(),
{
    if pieces.len() == 0 {
        seq![]
    } else {
        joined(pieces.drop_last()) + pieces.last().1
    }
}

proof fn lemma_joined_append(a: Seq<(bool, Seq<u8>)>, b: Seq<(bool, Seq<u8>)>)
    ensures
        joined(a + b) == joined(a) + joined(b),
    decreases b.len(),
{
    if b.len() == 0 {
        assert(a + b =~= a);
        assert(joined(a) + joined(b) =~= joined(a));
    } else {
        lemma_joined_append(a, b.drop_last());
        assert((a + b).drop_last() =~= a + b.drop_last());
        assert((a + b).last() == b.last());
        assert(joined(a) + joined(b) =~= joined(a) + joined(b.drop_last()) + b.last().1);
    }
}

proof fn lemma_found_occurs(h: Seq<u8>, n: Seq<u8>, i: int, p: int)
    requires
        find_from(h, n, i) == Some(p),
    ensures
        i <= p,
        occurs_at(h, n, p),
    decreases h.len() + 1 - i,
{
    if !(i < 0 || i + n.len() > h.len()) && !occurs_at(h, n, i) {
        lemma_found_occurs(h, n, i + 1, p);
    }
}

/// Splitting a name against a query loses nothing: the pieces put back
/// together give the name, every piece is non-empty, every matched piece is
/// the query itself, and no two unmatched pieces are next to each other.
pub proof fn law_pieces_rebuild_name(h: Seq<u8>, n: Seq<u8>)
    ensures
        joined(segments(h, n)) == h,
        forall|k: int| 0 <= k < segments(h, n).len() ==> (#[trigger] segments(h, n)[k]).1.len() > 0,
        forall|k: int| 0 <= k < segments(h, n).len() && (#[trigger] segments(h, n)[k]).0 ==> segments(h, n)[k].1 == n,
        forall|k: int| 0 <= k < segments(h, n).len() - 1 ==> (#[trigger] segments(h, n)[k]).0 || segments(h, n)[k + 1].0,
    decreases h.len(),
{
    let segs = segments(h, n);
    if h.len() == 0 {
    } else if n.len() == 0 {
        assert(segs == seq![(false, h)]);
        assert(joined(segs) == joined(segs.drop_last()) + h);
        assert(segs.drop_last() =~= Seq::<(bool, Seq<u8>)>::empty());
        assert(joined(segs) =~= h);
    } else {
        match find_from(h, n, 0) {
            None => {
                assert(segs == seq![(false, h)]);
                assert(joined(segs) == joined(segs.drop_last()) + h);
                assert(segs.drop_last() =~= Seq::<(bool, Seq<u8>)>::empty());
                assert(joined(segs) =~= h);
            },
            Some(p) => {
                lemma_found_occurs(h, n, 0, p);
                let rest = h.subrange(p + n.len(), h.len() as int);
                law_pieces_rebuild_name(rest, n);
                let pre = if p > 0 {
                    seq![(false, h.subrange(0, p))]
                } else {
                    Seq::<(bool, Seq<u8>)>::empty()
                };
                let mid = seq![(true, n)];
                assert(segs == pre + mid + segments(rest, n));
                lemma_joined_append(pre + mid, segments(rest, n));
                lemma_joined_append(pre, mid);
                assert(mid.drop_last() =~= Seq::<(bool, Seq<u8>)>::empty());
                assert(joined(mid.drop_last()) =~= Seq::<u8>::empty());
                assert(joined(mid) =~= n);
                if p > 0 {
                    assert(pre.drop_last() =~= Seq::<(bool, Seq<u8>)>::empty());
                    assert(joined(pre.drop_last()) =~= Seq::<u8>::empty());
                    assert(joined(pre) =~= h.subrange(0, p));
                } else {
                    assert(joined(pre) =~= Seq::<u8>::empty());
                }
                assert(h.subrange(p, p + n.len()) == n);
                assert(joined(segs) =~= h);
                assert forall|k: int| 0 <= k < segs.len() implies (#[trigger] segs[k]).1.len() > 0
                    && (segs[k].0 ==> segs[k].1 == n) by {
                    if k >= pre.len() + 1 {
                        assert(segs[k] == segments(rest, n)[k - pre.len() - 1]);
                    }
                }
                assert forall|k: int| 0 <= k < segs.len() - 1 implies (#[trigger] segs[k]).0 || segs[k + 1].0 by {
                    if k >= pre.len() + 1 {
                        assert(segs[k] == segments(rest, n)[k - pre.len() - 1]);
                        assert(segs[k + 1] == segments(rest, n)[k + 1 - pre.len() - 1]);
                    } else if k == pre.len() {
                        assert(segs[k] == (true, n));
                    } else {
                        assert(segs[k + 1] == (true, n));
                    }
                }
            },
        }
    }
}

/// A piece of a listed name, drawn bold when it matches the query.
#[derive(Debug)]
pub struct Match {
    pub matched: bool,
    pub text: Vec<u16>,
}

impl Match {
    pub fn matched(text: &str) -> (r: Match)
        ensures
            r.matched,
            r.text@ == utf16_encode(text@),
    {
        Match { matched: true, text: encode_utf16(text) }
    }

    pub fn unmatched(text: &str) -> (r: Match)
        ensures
            !r.matched,
            r.text@ == utf16_encode(text@),
    {
        Match { matched: false, text: encode_utf16(text) }
    }
}

/// The matches for `segs`: each piece's flag and its text in UTF-16.
pub open spec fn matches_for(r: Seq<Match>, segs: Seq<(bool, Seq<u8>)>) -> bool {
    &&& r.len() == segs.len()
    &&& forall|k: int|
        0 <= k < segs.len() ==> (#[trigger] r[k]).matched == segs[k].0 && r[k].text@ == utf16_encode(
            decode_utf8(segs[k].1),
        )
}

/// Pushing a piece and its match keeps `matches_for`.
proof fn lemma_matches_push(r: Seq<Match>, segs: Seq<(bool, Seq<u8>)>, m: Match, seg: (bool, Seq<u8>))
    requires
        matches_for(r, segs),
        m.matched == seg.0,
        m.text@ == utf16_encode(decode_utf8(seg.1)),
    ensures
        matches_for(r.push(m), segs.push(seg)),
{
    assert forall|k: int| 0 <= k < segs.len() + 1 implies (#[trigger] r.push(m)[k]).matched == segs.push(seg)[k].0
        && r.push(m)[k].text@ == utf16_encode(decode_utf8(segs.push(seg)[k].1)) by {
        if k < segs.len() {
            assert(r.push(m)[k] == r[k]);
            assert(segs.push(seg)[k] == segs[k]);
        }
    }
}

/// The UTF-16 texts of the pieces, one after another.
pub open spec fn joined_text(ms: Seq<Match>) -> Seq<u16>
    decreases ms.len(),
{
    if ms.len() == 0 {
        seq![]
    } else {
        joined_text(ms.drop_last()) + ms.last().text@
    }
}

proof fn lemma_utf16_append(a: Seq<char>, b: Seq<char>)
    ensures
        utf16_encode(a + b) == utf16_encode(a) + utf16_encode(b),
    decreases b.len(),
{
    if b.len() == 0 {
        assert(a + b =~= a);
        assert(utf16_encode(a) + utf16_encode(b) =~= utf16_encode(a));
    } else {
        lemma_utf16_append(a, b.drop_last());
        assert((a + b).drop_last() =~= a + b.drop_last());
        assert((a + b).last() == b.last());
        assert(utf16_encode(a) + utf16_encode(b) =~= utf16_encode(a) + utf16_encode(b.drop_last()) + utf16_of_char(b.last()));
    }
}

/// Adding a piece of text `t` as the next match keeps the joined texts equal
/// to the UTF-16 of the text covered so far.
proof fn lemma_joined_push(ms: Seq<Match>, m: Match, covered: Seq<char>, t: Seq<char>)
    requires
        joined_text(ms) == utf16_encode(covered),
        m.text@ == utf16_encode(t),
    ensures
        joined_text(ms.push(m)) == utf16_encode(covered + t),
{
    assert(ms.push(m).drop_last() =~= ms);
    lemma_utf16_append(covered, t);
}

/// Splits `haystack` into the pieces that match `needle` (each leftmost
/// occurrence, when `needle` is not empty) and the pieces between them.
pub fn matches(needle: &str, haystack: &str) -> (r: Vec<Match>)
    ensures
        matches_for(r@, segments(text_bytes(haystack@), text_bytes(needle@))),
        joined_text(r@) == utf16_encode(haystack@),
        forall|k: int| 0 <= k < r@.len() - 1 ==> (#[trigger] r@[k]).matched || r@[k + 1].matched,
{
    broadcast use encode_utf8_valid_utf8, encode_utf8_decode_utf8;

    let ghost nb = text_bytes(needle@);
    let ghost hb = text_bytes(haystack@);
    let mut result: Vec<Match> = Vec::new();
    let mut rest: &str = haystack;
    let ghost mut done: Seq<(bool, Seq<u8>)> = seq![];
    let ghost mut covered: Seq<char> = seq![];
    proof {
        assert(done + segments(hb, nb) =~= segments(hb, nb));
        assert(covered + rest@ =~= haystack@);
    }
    if byte_len(needle) > 0 {
        loop
            invariant_except_break
                nb == text_bytes(needle@),
                nb.len() > 0,
                segments(hb, nb) == done + segments(text_bytes(rest@), nb),
                matches_for(result@, done),
                haystack@ == covered + rest@,
                joined_text(result@) == utf16_encode(covered),
            ensures
                segments(hb, nb) == done + segments(text_bytes(rest@), nb),
                matches_for(result@, done),
                haystack@ == covered + rest@,
                joined_text(result@) == utf16_encode(covered),
                forall|j: int| !#[trigger] occurs_at(text_bytes(rest@), nb, j),
            decreases text_bytes(rest@).len(),
        {
            let ghost rb = text_bytes(rest@);
            proof {
                encode_utf8_valid_utf8(rest@);
                encode_utf8_valid_utf8(needle@);
            }
            match find_str(rest, needle) {
                None => {
                    proof {
                        assert forall|j: int| !#[trigger] occurs_at(rb, nb, j) by {
                            if occurs_at(rb, nb, j) {
                                assert(contains_text(rest@, needle@));
                            }
                        }
                    }
                    break;
                },
                Some(i) => {
                    proof {
                        lemma_boundary_at_occurrence(rb, nb, i as int);
                        lemma_first_occurrence_found(rb, nb, 0, i as int);
                    }
                    let (before, from_match) = rest.split_at(i);
                    let ghost fb = text_bytes(from_match@);
                    proof {
                        encode_utf8_valid_utf8(from_match@);
                        assert(fb.subrange(0, nb.len() as int) =~= rb.subrange(i as int, i + nb.len()));
                        lemma_boundary_after_prefix(nb, fb);
                    }
                    let (found, after) = from_match.split_at(byte_len(needle));
                    proof {
                        encode_utf8_decode_utf8(before@);
                        encode_utf8_decode_utf8(found@);
                        assert(text_bytes(before@) =~= rb.subrange(0, i as int));
                        assert(text_bytes(found@) =~= nb);
                        assert(text_bytes(after@) =~= rb.subrange(i + nb.len(), rb.len() as int));
                        decode_utf8_split(rb, i as int);
                        encode_utf8_decode_utf8(rest@);
                        encode_utf8_decode_utf8(from_match@);
                        encode_utf8_decode_utf8(after@);
                        assert(fb =~= rb.subrange(i as int, rb.len() as int));
                        assert(decode_utf8(rb.subrange(0, i as int)) == before@);
                        assert(decode_utf8(rb.subrange(i as int, rb.len() as int)) == from_match@);
                        assert(rest@ == before@ + from_match@);
                        decode_utf8_split(fb, nb.len() as int);
                        assert(fb.subrange(nb.len() as int, fb.len() as int) =~= text_bytes(after@));
                        assert(fb.subrange(0, nb.len() as int) =~= text_bytes(found@));
                        assert(decode_utf8(fb.subrange(0, nb.len() as int)) == found@);
                        assert(decode_utf8(fb.subrange(nb.len() as int, fb.len() as int)) == after@);
                        assert(from_match@ == found@ + after@);
                        if i == 0 {
                            assert(text_bytes(before@) =~= Seq::<u8>::empty());
                            assert(before@ =~= Seq::<char>::empty());
                        }
                    }
                    let ghost pre = if i > 0 {
                        seq![(false, rb.subrange(0, i as int))]
                    } else {
                        Seq::<(bool, Seq<u8>)>::empty()
                    };
                    proof {
                        assert(segments(rb, nb) == pre + seq![(true, nb)] + segments(
                            text_bytes(after@),
                            nb,
                        ));
                    }
                    if i > 0 {
                        let m = Match::unmatched(before);
                        proof {
                            lemma_matches_push(result@, done, m, (false, rb.subrange(0, i as int)));
                            lemma_joined_push(result@, m, covered, before@);
                        }
                        result.push(m);
                        proof {
                            done = done.push((false, rb.subrange(0, i as int)));
                            covered = covered + before@;
                        }
                    } else {
                        proof {
                            assert(covered + before@ =~= covered);
                            covered = covered + before@;
                        }
                    }
                    let m = Match::matched(found);
                    proof {
                        lemma_matches_push(result@, done, m, (true, nb));
                        lemma_joined_push(result@, m, covered, found@);
                    }
                    result.push(m);
                    proof {
                        done = done.push((true, nb));
                        covered = covered + found@;
                        assert(segments(hb, nb) =~= done + segments(text_bytes(after@), nb));
                        assert(haystack@ =~= covered + after@);
                    }
                    rest = after;
                },
            }
        }
    }
    let ghost tail = text_bytes(rest@);
    proof {
        if nb.len() > 0 {
            lemma_nothing_found(tail, nb, 0);
        }
    }
    if byte_len(rest) > 0 {
        let m = Match::unmatched(rest);
        proof {
            assert(segments(tail, nb) == seq![(false, tail)]);
            lemma_matches_push(result@, done, m, (false, tail));
            assert(segments(hb, nb) =~= done.push((false, tail)));
            lemma_joined_push(result@, m, covered, rest@);
        }
        result.push(m);
    } else {
        proof {
            assert(segments(tail, nb) =~= Seq::<(bool, Seq<u8>)>::empty());
            assert(segments(hb, nb) =~= done);
            encode_utf8_decode_utf8(rest@);
            assert(tail =~= Seq::<u8>::empty());
            assert(rest@ =~= Seq::<char>::empty());
            assert(haystack@ =~= covered);
        }
    }
    proof {
        law_pieces_rebuild_name(hb, nb);
        let segs = segments(hb, nb);
        assert forall|k: int| 0 <= k < result@.len() - 1 implies (#[trigger] result@[k]).matched || result@[k + 1].matched by {
            assert(segs[k].0 || segs[k + 1].0);
        }
    }
    result
}

/// The size in kilobytes shown for `bytes`: the quotient of `bytes` by 1024
/// truncated towards zero, plus one when the division leaves a remainder.
pub open spec fn kb_of(bytes: int) -> int {
    let whole = if bytes >= 0 {
        bytes / 1024
    } else {
        -((-bytes) / 1024)
    };
    if whole * 1024 != bytes {
        whole + 1
    } else {
        whole
    }
}

/// The first `n` characters of `t`, with a `.` before each character after
/// the first whose distance from the end of `t` is a multiple of three.
pub open spec fn dotted(t: Seq<char>, n: int) -> Seq<char>
    decreases n,
{
    if n <= 0 {
        seq![]
    } else {
        let i = n - 1;
        dotted(t, i) + (if i >= 1 && (t.len() - i) % 3 == 0 {
            seq!['.']
        } else {
            Seq::<char>::empty()
        }) + seq![t[i]]
    }
}

/// The text shown for a size of `bytes` bytes: kilobytes in decimal, the
/// digits grouped by three with dots, then ` KB`.
pub open spec fn pretty_size_text(bytes: int) -> Seq<char> {
    let t = decimal_text(kb_of(bytes));
    dotted(t, t.len() as int) + seq![' ', 'K', 'B']
}

/// `bytes` as kilobytes, rounded up, with its digits grouped by three.
pub fn pretty_size(bytes_size: i64) -> (r: String)
    ensures
        r@ == pretty_size_text(bytes_size as int),
{
    let negative = bytes_size < 0;
    let magnitude: u64 = if negative {
        (0i128 - bytes_size as i128) as u64
    } else {
        bytes_size as u64
    };
    let q: u64 = magnitude / 1024;
    let whole: i64 = if negative {
        0 - (q as i64)
    } else {
        q as i64
    };
    let kb: i64 = if magnitude % 1024 != 0 {
        whole + 1
    } else {
        whole
    };
    proof {
        assert(kb == kb_of(bytes_size as int));
    }
    let digits = decimal_chars(kb);
    let len = digits.len();
    let mut out: Vec<char> = Vec::new();
    let mut i: usize = 0;
    while i < len
        invariant
            len == digits@.len(),
            0 <= i <= len,
            out@ == dotted(digits@, i as int),
        decreases len - i,
    {
        if i >= 1 && (len - i) % 3 == 0 {
            out.push('.');
        }
        out.push(digits[i]);
        proof {
            assert(out@ =~= dotted(digits@, i + 1));
        }
        i = i + 1;
    }
    out.push(' ');
    out.push('K');
    out.push('B');
    proof {
        assert(out@ =~= pretty_size_text(bytes_size as int));
    }
    string_of(&out)
}

/// A text as UTF-16 code units followed by a terminating zero.
pub fn to_wide_null(s: &str) -> (r: Vec<u16>)
    ensures
        r@ == utf16_encode(s@).push(0),
{
    let mut r = encode_utf16(s);
    r.push(0);
    r
}

/// What the file list shows for one file.
#[derive(Debug)]
pub struct DisplayItem {
    pub name: String,
    pub path: Vec<u16>,
    pub size: Vec<u16>,
    pub matches: Vec<Match>,
    pub flags: u16,
}

/// `d` is the row shown for a file named `name`, of size `size` and flags
/// `flags`, found at `path`, its name split against `query`: a directory
/// shows no size.
pub open spec fn shows(d: DisplayItem, name: Seq<char>, size: i64, flags: u16, path: Seq<char>, query: Seq<char>) -> bool {
    &&& d.name@ == name
    &&& d.path@ == utf16_encode(path).push(0)
    &&& d.size@ == (if is_directory_flags(flags) {
        seq![0u16]
    } else {
        utf16_encode(pretty_size_text(size as int)).push(0)
    })
    &&& matches_for(d.matches@, segments(text_bytes(name), text_bytes(query)))
    &&& d.flags == flags
}

impl DisplayItem {
    /// The row for `file` found at `path`, its name split against `query`;
    /// a directory shows no size.
    pub fn new(file: &FileEntity, path: String, query: &str) -> (r: DisplayItem)
        ensures
            shows(r, file@.name, file@.size, file@.flags, path@, query@),
    {
        DisplayItem::from_parts(file.name(), file.size(), file.flags(), path, query)
    }

    /// The row for a file with the given name, size and flags, found at `path`.
    pub fn from_parts(name: &str, size: i64, flags: u16, path: String, query: &str) -> (r: DisplayItem)
        ensures
            shows(r, name@, size, flags, path@, query@),
    {
        let matches = matches(query, name);
        let size = if flags & DIRECTORY_FLAG != 0 {
            proof {
                reveal_strlit("");
            }
            to_wide_null("")
        } else {
            let text = pretty_size(size);
            to_wide_null(text.as_str())
        };
        proof {
            assert(utf16_encode(Seq::<char>::empty()) =~= Seq::<u16>::empty());
        }
        DisplayItem { name: name.to_owned(), path: to_wide_null(path.as_str()), size, matches, flags }
    }

    pub fn is_directory(&self) -> (r: bool)
        ensures
            r == is_directory_flags(self.flags),
    {
        self.flags & DIRECTORY_FLAG != 0
    }
}

} // verus!
