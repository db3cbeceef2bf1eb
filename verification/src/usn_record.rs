use vstd::prelude::*;

use crate::bytes::{le_i64, le_u16, le_u32, read_i64, read_u16, read_u32};
use crate::errors::MyErrorKind;
use crate::file_entity::{entry_view, FileEntity, FileEntry};
use crate::text::{decode_utf16_lossy, from_utf16_lossy};

verus! {

/// Change-journal reason: the file was created.
pub const FILE_CREATE: u32 = 0x00000100;

/// Change-journal reason: the file was deleted.
pub const FILE_DELETE: u32 = 0x00000200;

/// Change-journal reason: the file was renamed; the record has the new name.
pub const RENAME_NEW_NAME: u32 = 0x00002000;

/// Change-journal reason: the file's attributes or times changed.
pub const BASIC_INFO_CHANGE: u32 = 0x00008000;

/// Change-journal reason: the file was closed.
pub const CLOSE: u32 = 0x80000000;

/// The reasons this program reads; other bits of a reason are dropped.
pub const KNOWN_REASONS: u32 = 0x8000_a300;

/// What a change-journal record means for the index.
#[allow(non_camel_case_types)]
#[derive(Debug, PartialEq)]
pub enum UsnChange {
    NEW(FileEntity),
    UPDATE(FileEntity),
    DELETE(u32),
    IGNORE,
}

/// A change-journal record (version 2).
#[derive(Debug)]
pub struct UsnRecord {
    pub fr_number: i64,
    pub mft_id: u32,
    pub seq_number: u16,
    pub parent_fr_number: i64,
    pub reason: u32,
    pub flags: u32,
    pub usn: i64,
    pub length: usize,
    pub name: String,
}

/// What a change-journal record asks of the index.
#[derive(PartialEq, Eq, Structural)]
pub enum UsnAction {
    Ignore,
    Delete,
    Create,
    Update,
}

/// The action for a record with reason `reason`; `same_file` tells whether the
/// file now on the volume is the one the record names. A record that only closes a file, or that names a
/// file no longer on the volume (and does not delete it), or that both creates
/// and deletes, is ignored; otherwise deletion, then creation, wins; anything
/// else updates the file.
pub open spec fn usn_action(reason: u32, same_file: bool) -> UsnAction {
    let c = reason & KNOWN_REASONS;
    if c == CLOSE {
        UsnAction::Ignore
    } else if !same_file && c & FILE_DELETE == 0 {
        UsnAction::Ignore
    } else if c & (FILE_DELETE | FILE_CREATE) == (FILE_DELETE | FILE_CREATE) {
        UsnAction::Ignore
    } else if c & FILE_DELETE != 0 {
        UsnAction::Delete
    } else if c & FILE_CREATE != 0 {
        UsnAction::Create
    } else {
        UsnAction::Update
    }
}

/// What a record asks of the index follows from its reason bits: a creation
/// (without a deletion) of the file still on the volume adds it, whatever
/// else the reason holds, the closing bit included; a deletion (without a
/// creation) removes it; a record that both creates and deletes, or only
/// closes, or names a file no longer on the volume without deleting it, is
/// ignored; any other record of the file on the volume updates it.
pub proof fn law_usn_action_by_reason(reason: u32, same_file: bool)
    ensures
        reason & FILE_CREATE != 0 && reason & FILE_DELETE == 0 && same_file ==> usn_action(
            reason,
            same_file,
        ) == UsnAction::Create,
        reason & FILE_DELETE != 0 && reason & FILE_CREATE == 0 ==> usn_action(reason, same_file)
            == UsnAction::Delete,
        reason & FILE_DELETE != 0 && reason & FILE_CREATE != 0 ==> usn_action(reason, same_file)
            == UsnAction::Ignore,
        reason & KNOWN_REASONS == CLOSE ==> usn_action(reason, same_file) == UsnAction::Ignore,
        !same_file && reason & FILE_DELETE == 0 ==> usn_action(reason, same_file) == UsnAction::Ignore,
        reason & (FILE_CREATE | FILE_DELETE) == 0 && reason & KNOWN_REASONS != CLOSE && same_file
            ==> usn_action(reason, same_file) == UsnAction::Update,
{
    let c = reason & KNOWN_REASONS;
    assert({
        &&& (reason & FILE_CREATE != 0) == (c & FILE_CREATE != 0)
        &&& (reason & FILE_DELETE != 0) == (c & FILE_DELETE != 0)
        &&& (c & (FILE_DELETE | FILE_CREATE) == (FILE_DELETE | FILE_CREATE)) == (c & FILE_DELETE != 0
            && c & FILE_CREATE != 0)
        &&& c == CLOSE ==> c & FILE_CREATE == 0 && c & FILE_DELETE == 0
        &&& (reason & (FILE_CREATE | FILE_DELETE) == 0) == (reason & FILE_CREATE == 0 && reason
            & FILE_DELETE == 0)
    }) by (bit_vector)
        requires
            c == reason & KNOWN_REASONS,
    ;
}

/// The version field of a record.
pub open spec fn record_version(b: Seq<u8>) -> u16 {
    le_u16(b.subrange(4, 6))
}

/// The name's length and offset fields of a version-2 record.
pub open spec fn name_length(b: Seq<u8>) -> u16 {
    le_u16(b.subrange(56, 58))
}

pub open spec fn name_offset(b: Seq<u8>) -> u16 {
    le_u16(b.subrange(58, 60))
}

/// `b` holds a whole record header: long enough for every field read, and,
/// for a version-2 record, for the name it points to.
pub open spec fn record_readable(b: Seq<u8>) -> bool {
    &&& b.len() >= 6
    &&& record_version(b) == 2 ==> {
        &&& b.len() >= 60
        &&& name_offset(b) + name_length(b) <= b.len()
    }
}

/// The UTF-16 code units of the bytes `b`, read little-endian in pairs; a
/// last odd byte is dropped.
pub open spec fn utf16_units(b: Seq<u8>) -> Seq<u16> {
    Seq::new(b.len() / 2, |k: int| le_u16(b.subrange(2 * k, 2 * k + 2)))
}

/// The text of the little-endian UTF-16 bytes `b`.
pub open spec fn windows_text(b: Seq<u8>) -> Seq<char> {
    decode_utf16_lossy(utf16_units(b))
}

/// Reads the little-endian UTF-16 text in `b`.
pub fn windows_string(b: &[u8]) -> (r: String)
    ensures
        r@ == windows_text(b@),
{
    let blen = b.len();
    let n = blen / 2;
    let mut units: Vec<u16> = Vec::new();
    let mut k: usize = 0;
    while k < n
        invariant
            n == b@.len() / 2,
            blen == b@.len(),
            0 <= k <= n,
            units@ == utf16_units(b@).take(k as int),
        decreases n - k,
    {
        assert(2 * k + 2 <= b@.len()) by (nonlinear_arith)
            requires
                k < n,
                n == b@.len() / 2,
        ;
        assert(b@.len() <= usize::MAX);
        let pair = &b[2 * k..2 * k + 2];
        let u = read_u16(pair);
        units.push(u);
        proof {
            assert(units@ =~= utf16_units(b@).take(k + 1));
        }
        k = k + 1;
    }
    proof {
        assert(units@ =~= utf16_units(b@));
    }
    from_utf16_lossy(units.as_slice())
}

/// `rec` holds the fields of the version-2 record at the start of `b`.
pub open spec fn reads_record(b: Seq<u8>, rec: UsnRecord) -> bool {
    &&& rec.length == le_u32(b) as usize
    &&& rec.seq_number == le_u16(b.subrange(14, 16))
    &&& rec.fr_number == le_i64(b.subrange(8, 16))
    &&& rec.parent_fr_number == le_i64(b.subrange(16, 24))
    &&& rec.mft_id == rec.fr_number as u32
    &&& rec.usn == le_i64(b.subrange(24, 32))
    &&& rec.reason == le_u32(b.subrange(40, 44))
    &&& rec.flags == le_u32(b.subrange(52, 56))
    &&& rec.name@ == windows_text(b.subrange(name_offset(b) as int, name_offset(b) + name_length(b)))
}

impl UsnRecord {
    /// Reads a record from the start of `input`. Only version 2 is read; any
    /// other version is refused.
    pub fn new(input: &[u8]) -> (r: Result<UsnRecord, MyErrorKind>)
        requires
            record_readable(input@),
        ensures
            match r {
                Ok(rec) => record_version(input@) == 2 && reads_record(input@, rec),
                Err(e) => record_version(input@) != 2 && e == MyErrorKind::UsnRecordVersionUnsupported(
                    record_version(input@),
                ),
            },
    {
        let length = read_u32(input) as usize;
        let version = read_u16(&input[4..6]);
        if version != 2 {
            return Err(MyErrorKind::UsnRecordVersionUnsupported(version));
        }
        let seq_number = read_u16(&input[14..16]);
        let fr_number = read_i64(&input[8..16]);
        let parent_fr_number = read_i64(&input[16..24]);
        let mft_id = fr_number as u32;
        let usn = read_i64(&input[24..32]);
        let reason = read_u32(&input[40..44]);
        let flags = read_u32(&input[52..56]);
        let name_length = read_u16(&input[56..58]) as usize;
        let name_offset = read_u16(&input[58..60]) as usize;
        let name = windows_string(&input[name_offset..name_offset + name_length]);
        proof {
            assert(input@.subrange(4, 6).subrange(0, 2) =~= input@.subrange(4, 6));
        }
        Ok(UsnRecord { mft_id, fr_number, seq_number, parent_fr_number, reason, name, flags, length, usn })
    }

    /// What the record means for the index, given the file now on the volume
    /// under the record's number.
    pub fn into_change(self, entry: FileEntry) -> (r: UsnChange)
        ensures
            match usn_action(self.reason, entry.fr_number == self.fr_number) {
                UsnAction::Ignore => r == UsnChange::IGNORE,
                UsnAction::Delete => r == UsnChange::DELETE(self.mft_id),
                UsnAction::Create => r matches UsnChange::NEW(f) && f@ == entry_view(entry),
                UsnAction::Update => r matches UsnChange::UPDATE(f) && f@ == entry_view(entry),
            },
            self.reason & FILE_CREATE != 0 && self.reason & FILE_DELETE == 0 && entry.fr_number
                == self.fr_number ==> (r matches UsnChange::NEW(f) && f@ == entry_view(entry)),
            self.reason & FILE_DELETE != 0 && self.reason & FILE_CREATE == 0 ==> r
                == UsnChange::DELETE(self.mft_id),
            self.reason & FILE_DELETE != 0 && self.reason & FILE_CREATE != 0 ==> r == UsnChange::IGNORE,
            self.reason & KNOWN_REASONS == CLOSE ==> r == UsnChange::IGNORE,
            entry.fr_number != self.fr_number && self.reason & FILE_DELETE == 0 ==> r
                == UsnChange::IGNORE,
            self.reason & (FILE_CREATE | FILE_DELETE) == 0 && self.reason & KNOWN_REASONS != CLOSE
                && entry.fr_number == self.fr_number ==> (r matches UsnChange::UPDATE(f) && f@
                == entry_view(entry)),
    {
        proof {
            law_usn_action_by_reason(self.reason, entry.fr_number == self.fr_number);
        }
        let change = self.reason & KNOWN_REASONS;
        if change == CLOSE {
            return UsnChange::IGNORE;
        }
        if entry.fr_number != self.fr_number && change & FILE_DELETE == 0 {
            return UsnChange::IGNORE;
        }
        if change & (FILE_DELETE | FILE_CREATE) == (FILE_DELETE | FILE_CREATE) {
            return UsnChange::IGNORE;
        }
        if change & FILE_DELETE != 0 {
            return UsnChange::DELETE(self.mft_id);
        }
        if change & FILE_CREATE != 0 {
            return UsnChange::NEW(FileEntity::from_entry(entry));
        }
        UsnChange::UPDATE(FileEntity::from_entry(entry))
    }
}

} // verus!
