use vstd::prelude::*;

use crate::bytes::{le_i64, le_u32, le_value, read_i64, read_u16, read_u32};
use crate::errors::MyErrorKind;
use crate::usn_record::{
    name_length, name_offset, reads_record, record_readable, record_version, usn_action, UsnAction, UsnRecord, CLOSE, FILE_DELETE,
    KNOWN_REASONS,
};

verus! {

/// The records in a buffer the change journal was read into lie end to end
/// from `off` to the buffer's end: each one readable, and each version-2
/// record of non-zero length ending inside the buffer. Reading stops at a
/// record of another version, so nothing after one is asked of the buffer.
pub open spec fn framed_from(b: Seq<u8>, off: int) -> bool
    decreases b.len() - off,
{
    if off < 0 || off > b.len() {
        false
    } else if off == b.len() {
        true
    } else {
        let r = b.subrange(off, b.len() as int);
        let n = le_u32(r) as int;
        &&& record_readable(r)
        &&& record_version(r) == 2 ==> n > 0 && off + n <= b.len() && framed_from(b, off + n)
    }
}

/// Where the records from `off` on start, when each of them is of version 2;
/// `None` when one is not.
pub open spec fn record_starts(b: Seq<u8>, off: int) -> Option<Seq<int>>
    decreases b.len() - off,
{
    if off < 0 || off >= b.len() {
        Some(seq![])
    } else {
        let r = b.subrange(off, b.len() as int);
        let n = le_u32(r) as int;
        if record_readable(r) && record_version(r) == 2 && n > 0 && off + n <= b.len() {
            match record_starts(b, off + n) {
                None => None,
                Some(rest) => Some(seq![off] + rest),
            }
        } else {
            None
        }
    }
}

/// A whole version-2 record: readable, of non-zero length, and exactly as
/// long as its length field says.
pub open spec fn whole_record(rec: Seq<u8>) -> bool {
    &&& record_readable(rec)
    &&& record_version(rec) == 2
    &&& rec.len() > 0
    &&& le_u32(rec) as int == rec.len()
}

/// A little-endian number depends only on the bytes it is read from.
proof fn lemma_le_value_prefix(a: Seq<u8>, b: Seq<u8>, n: nat)
    requires
        n <= a.len(),
        n <= b.len(),
        forall|i: int| 0 <= i < n ==> a[i] == b[i],
    ensures
        le_value(a, n) == le_value(b, n),
    decreases n,
{
    if n > 0 {
        lemma_le_value_prefix(a, b, (n - 1) as nat);
    }
}

/// The record starting at `off` in `b` reads the same in `b + rec`.
proof fn lemma_same_record_head(b: Seq<u8>, rec: Seq<u8>, off: int)
    requires
        0 <= off < b.len(),
        record_readable(b.subrange(off, b.len() as int)),
    ensures
        ({
            let r = b.subrange(off, b.len() as int);
            let r2 = (b + rec).subrange(off, (b + rec).len() as int);
            &&& record_readable(r2)
            &&& record_version(r2) == record_version(r)
            &&& record_version(r) == 2 ==> le_u32(r2) == le_u32(r)
        }),
{
    let r = b.subrange(off, b.len() as int);
    let r2 = (b + rec).subrange(off, (b + rec).len() as int);
    assert(r2 =~= r + rec);
    assert(r2.subrange(4, 6) =~= r.subrange(4, 6));
    if record_version(r) == 2 {
        assert(r2.subrange(56, 58) =~= r.subrange(56, 58));
        assert(r2.subrange(58, 60) =~= r.subrange(58, 60));
        lemma_le_value_prefix(r, r2, 4);
    }
}

proof fn lemma_framed_append(b: Seq<u8>, rec: Seq<u8>, off: int)
    requires
        0 <= off <= b.len(),
        framed_from(b, off),
        whole_record(rec),
    ensures
        framed_from(b + rec, off),
    decreases b.len() - off,
{
    let b2 = b + rec;
    if off == b.len() {
        assert(b2.subrange(off, b2.len() as int) =~= rec);
        assert(framed_from(b2, b2.len() as int));
    } else {
        lemma_same_record_head(b, rec, off);
        let r = b.subrange(off, b.len() as int);
        if record_version(r) == 2 {
            lemma_framed_append(b, rec, off + le_u32(r) as int);
        }
    }
}

proof fn lemma_starts_append(b: Seq<u8>, rec: Seq<u8>, off: int, s: Seq<int>)
    requires
        0 <= off <= b.len(),
        record_starts(b, off) == Some(s),
        whole_record(rec),
    ensures
        record_starts(b + rec, off) == Some(s.push(b.len() as int)),
    decreases b.len() - off,
{
    let b2 = b + rec;
    if off == b.len() {
        assert(b2.subrange(off, b2.len() as int) =~= rec);
        assert(record_starts(b2, b2.len() as int) == Some(Seq::<int>::empty()));
        assert(s == Seq::<int>::empty());
        assert(seq![off] + Seq::<int>::empty() =~= s.push(b.len() as int));
    } else {
        let r = b.subrange(off, b.len() as int);
        let n = le_u32(r) as int;
        lemma_same_record_head(b, rec, off);
        let rest = record_starts(b, off + n)->Some_0;
        lemma_starts_append(b, rec, off + n, rest);
        assert(seq![off] + rest.push(b.len() as int) =~= s.push(b.len() as int));
    }
}

/// A buffer whose records from `off` on are all of version 2, each ending
/// inside it, is framed from `off`.
pub proof fn law_readable_records_are_framed(b: Seq<u8>, off: int)
    requires
        0 <= off <= b.len(),
        record_starts(b, off) is Some,
    ensures
        framed_from(b, off),
    decreases b.len() - off,
{
    if off < b.len() {
        let n = le_u32(b.subrange(off, b.len() as int)) as int;
        law_readable_records_are_framed(b, off + n);
    }
}

/// The eight bytes that start a journal buffer, with no record after them,
/// are a buffer that reads as no records.
pub proof fn law_bare_journal_is_framed(b: Seq<u8>)
    requires
        b.len() == 8,
    ensures
        framed_from(b, 8),
        record_starts(b, 8) == Some(Seq::<int>::empty()),
{
}

/// Records lie end to end: laying one more whole version-2 record after a
/// framed buffer leaves it framed, and the records read from it are those
/// read before, then the new one, starting where the buffer ended.
pub proof fn law_journal_append_record(b: Seq<u8>, rec: Seq<u8>)
    requires
        b.len() >= 8,
        framed_from(b, 8),
        whole_record(rec),
    ensures
        framed_from(b + rec, 8),
        record_starts(b, 8) matches Some(s) ==> record_starts(b + rec, 8) == Some(
            s.push(b.len() as int),
        ),
{
    lemma_framed_append(b, rec, 8);
    if let Some(s) = record_starts(b, 8) {
        lemma_starts_append(b, rec, 8, s);
    }
}

/// Whether a buffer the change journal was read into can be read: eight
/// bytes, then records lying end to end.
pub fn journal_framed(buffer: &[u8]) -> (r: bool)
    ensures
        r == (buffer@.len() >= 8 && framed_from(buffer@, 8)),
        buffer@.len() >= 8 && record_starts(buffer@, 8) is Some ==> r,
{
    let ghost b = buffer@;
    proof {
        if b.len() >= 8 && record_starts(b, 8) is Some {
            law_readable_records_are_framed(b, 8);
        }
    }
    if buffer.len() < 8 {
        return false;
    }
    let mut offset: usize = 8;
    loop
        invariant
            b == buffer@,
            8 <= offset <= b.len(),
            framed_from(b, 8) == framed_from(b, offset as int),
            record_starts(b, 8) is Some ==> framed_from(b, 8),
        decreases b.len() - offset,
    {
        if offset == buffer.len() {
            return true;
        }
        let rest = &buffer[offset..buffer.len()];
        let ghost r = b.subrange(offset as int, b.len() as int);
        proof {
            assert(rest@ =~= r);
        }
        if rest.len() < 6 {
            return false;
        }
        let version = read_u16(&rest[4..6]);
        proof {
            assert(rest@.subrange(4, 6).subrange(0, 2) =~= r.subrange(4, 6));
        }
        if version != 2 {
            return true;
        }
        if rest.len() < 60 {
            return false;
        }
        let name_length = read_u16(&rest[56..58]) as usize;
        let name_offset = read_u16(&rest[58..60]) as usize;
        proof {
            assert(rest@.subrange(56, 58).subrange(0, 2) =~= r.subrange(56, 58));
            assert(rest@.subrange(58, 60).subrange(0, 2) =~= r.subrange(58, 60));
        }
        if name_offset + name_length > rest.len() {
            return false;
        }
        let length = read_u32(rest) as usize;
        if length == 0 || length > rest.len() {
            return false;
        }
        offset = offset + length;
    }
}

/// Reads a buffer the change journal was read into: the update sequence
/// number to continue from (its first eight bytes), then the records after it.
/// A record of a version other than 2 makes the whole read fail.
pub fn journal_records(buffer: &[u8]) -> (r: Result<(i64, Vec<UsnRecord>), MyErrorKind>)
    requires
        buffer@.len() >= 8,
        framed_from(buffer@, 8),
    ensures
        match r {
            Ok((next_usn, records)) => {
                &&& next_usn == le_i64(buffer@)
                &&& record_starts(buffer@, 8) matches Some(starts)
                &&& records@.len() == starts.len()
                &&& forall|k: int|
                    0 <= k < starts.len() ==> reads_record(
                        buffer@.subrange(starts[k], buffer@.len() as int),
                        #[trigger] records@[k],
                    )
            },
            Err(e) => e == MyErrorKind::UsnJournalError && record_starts(buffer@, 8) is None,
        },
{
    let ghost b = buffer@;
    let next_usn = read_i64(buffer);
    let mut records: Vec<UsnRecord> = Vec::new();
    let mut offset: usize = 8;
    let ghost mut starts: Seq<int> = seq![];
    loop
        invariant
            b == buffer@,
            8 <= offset <= b.len(),
            next_usn == le_i64(b),
            framed_from(b, offset as int),
            record_starts(b, 8) == match record_starts(b, offset as int) {
                None => None,
                Some(rest) => Some(starts + rest),
            },
            records@.len() == starts.len(),
            forall|k: int|
                0 <= k < starts.len() ==> reads_record(b.subrange(starts[k], b.len() as int), #[trigger] records@[k]),
        decreases b.len() - offset,
    {
        if offset == buffer.len() {
            proof {
                assert(starts + Seq::<int>::empty() =~= starts);
            }
            return Ok((next_usn, records));
        }
        let rest = &buffer[offset..buffer.len()];
        proof {
            assert(rest@ =~= b.subrange(offset as int, b.len() as int));
        }
        match UsnRecord::new(rest) {
            Err(_) => {
                return Err(MyErrorKind::UsnJournalError);
            },
            Ok(record) => {
                let ghost old_starts = starts;
                let ghost old_records = records@;
                let length = record.length;
                records.push(record);
                proof {
                    starts = starts.push(offset as int);
                    match record_starts(b, offset + length) {
                        None => {},
                        Some(more) => {
                            assert(old_starts + (seq![offset as int] + more) =~= starts + more);
                        },
                    }
                    assert forall|k: int| 0 <= k < starts.len() implies reads_record(
                        b.subrange(starts[k], b.len() as int),
                        #[trigger] records@[k],
                    ) by {
                        if k < old_starts.len() {
                            assert(records@[k] == old_records[k]);
                        }
                    }
                }
                offset = offset + length;
            },
        }
    }
}

/// Whether a record is worth reporting: one that only closes the file is
/// not, nor one about a file no longer on the volume, unless it deletes it.
pub open spec fn journal_keeps(reason: u32, same_file: bool) -> bool {
    let c = reason & KNOWN_REASONS;
    c != CLOSE && (same_file || c & FILE_DELETE != 0)
}

/// Whether to report `record`, given the number of the file now on the
/// volume under the record's number.
pub fn keeps_record(record: &UsnRecord, entry_fr_number: i64) -> (r: bool)
    ensures
        r == journal_keeps(record.reason, entry_fr_number == record.fr_number),
{
    let change = record.reason & KNOWN_REASONS;
    if change == CLOSE {
        return false;
    }
    if entry_fr_number != record.fr_number && change & FILE_DELETE == 0 {
        return false;
    }
    true
}

/// A record the journal reader drops is one that turning records into
/// changes would ignore as well.
pub proof fn law_dropped_records_are_ignored(reason: u32, same_file: bool)
    ensures
        !journal_keeps(reason, same_file) ==> usn_action(reason, same_file) == UsnAction::Ignore,
{
}

} // verus!
