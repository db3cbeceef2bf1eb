use cloppy::errors::MyErrorKind;
use cloppy::file_entity::{FileEntity, FileEntry};
use cloppy::journal::{journal_framed, journal_records, keeps_record};
use cloppy::usn_record::UsnChange::{DELETE, IGNORE, NEW, UPDATE};
use cloppy::usn_record::{
    windows_string, UsnRecord, BASIC_INFO_CHANGE, CLOSE, FILE_CREATE, FILE_DELETE, KNOWN_REASONS, RENAME_NEW_NAME,
};

fn new_record(change_reason: u32) -> UsnRecord {
    UsnRecord {
        fr_number: 0,
        mft_id: 0,
        seq_number: 0,
        parent_fr_number: 0,
        reason: change_reason,
        flags: 0,
        usn: 0,
        length: 0,
        name: "name".to_owned(),
    }
}

#[test]
fn usn_record_ignore_close_only() {
    let record = new_record(CLOSE);
    assert_eq!(IGNORE, record.into_change(FileEntry::default()));
}

#[test]
fn usn_record_to_update() {
    let mut record = new_record(BASIC_INFO_CHANGE);
    let change = UPDATE(FileEntity::from_entry(FileEntry::default()));
    assert_eq!(change, record.into_change(FileEntry::default()));

    record = new_record(BASIC_INFO_CHANGE | CLOSE);
    assert_eq!(change, record.into_change(FileEntry::default()));

    record = new_record(RENAME_NEW_NAME);
    assert_eq!(change, record.into_change(FileEntry::default()));

    record = new_record(RENAME_NEW_NAME | CLOSE);
    assert_eq!(change, record.into_change(FileEntry::default()));

    record = new_record(RENAME_NEW_NAME | BASIC_INFO_CHANGE | CLOSE);
    assert_eq!(change, record.into_change(FileEntry::default()));
}

#[test]
fn usn_record_to_delete() {
    let mut record = new_record(FILE_DELETE);
    record.mft_id = 99;
    assert_eq!(DELETE(99), record.into_change(FileEntry::default()));

    record = new_record(FILE_DELETE | CLOSE);
    record.mft_id = 99;
    assert_eq!(DELETE(99), record.into_change(FileEntry::default()));
}

#[test]
fn usn_record_ignores_create_and_delete_at_once() {
    let mut record = new_record(FILE_DELETE | FILE_CREATE);
    assert_eq!(IGNORE, record.into_change(FileEntry::default()));

    record = new_record(KNOWN_REASONS);
    assert_eq!(IGNORE, record.into_change(FileEntry::default()));
}

#[test]
fn usn_record_to_create() {
    let mut record = new_record(FILE_DELETE);
    record.mft_id = 99;
    assert_eq!(DELETE(99), record.into_change(FileEntry::default()));
}

#[test]
fn usn_record_ignore_record_with_old_sqn_number() {
    let record = new_record(KNOWN_REASONS & !FILE_DELETE);
    let mut entry = FileEntry::default();
    entry.fr_number = 1;
    assert_eq!(IGNORE, record.into_change(entry));
}

#[test]
fn create_gives_new_file_from_entry() {
    let record = new_record(FILE_CREATE | CLOSE);
    let entry = FileEntry { fr_number: 0, parent_fr_number: 5, name: "x.txt".to_string(), flags: 0, size: 12 };
    match record.into_change(entry.clone()) {
        NEW(f) => {
            assert_eq!(FileEntity::from_entry(entry), f);
            assert_eq!("x.txt", f.name());
            assert_eq!(12, f.size());
        }
        other => panic!("unexpected {:?}", other),
    }
}

#[test]
fn unknown_reason_bits_do_not_count() {
    let record = new_record(CLOSE | 0x1);
    assert_eq!(IGNORE, record.into_change(FileEntry::default()));
}

#[test]
fn deleted_file_no_longer_on_volume_is_still_deleted() {
    let mut record = new_record(FILE_DELETE);
    record.mft_id = 7;
    let mut entry = FileEntry::default();
    entry.fr_number = 3;
    assert_eq!(DELETE(7), record.into_change(entry));
}

/// A version-2 record of `length` bytes with the given fields and name.
fn record_bytes(length: u32, version: u16, fr: i64, parent: i64, usn: i64, reason: u32, name: &str) -> Vec<u8> {
    let units: Vec<u16> = name.encode_utf16().collect();
    let mut b = vec![0u8; length as usize];
    b[0..4].copy_from_slice(&length.to_le_bytes());
    b[4..6].copy_from_slice(&version.to_le_bytes());
    b[8..16].copy_from_slice(&fr.to_le_bytes());
    b[14..16].copy_from_slice(&3u16.to_le_bytes());
    b[16..24].copy_from_slice(&parent.to_le_bytes());
    b[24..32].copy_from_slice(&usn.to_le_bytes());
    b[40..44].copy_from_slice(&reason.to_le_bytes());
    b[52..56].copy_from_slice(&0x10u32.to_le_bytes());
    b[56..58].copy_from_slice(&((units.len() * 2) as u16).to_le_bytes());
    b[58..60].copy_from_slice(&60u16.to_le_bytes());
    for (k, u) in units.iter().enumerate() {
        b[60 + 2 * k..62 + 2 * k].copy_from_slice(&u.to_le_bytes());
    }
    b
}

#[test]
fn reads_record_fields() {
    let b = record_bytes(72, 2, 0x0003_0000_0000_0011, 5, 1000, FILE_CREATE | CLOSE, "héllo");
    let r = UsnRecord::new(&b).unwrap();
    assert_eq!(72, r.length);
    assert_eq!(0x0003_0000_0000_0011, r.fr_number);
    assert_eq!(0x11, r.mft_id);
    assert_eq!(3, r.seq_number);
    assert_eq!(5, r.parent_fr_number);
    assert_eq!(1000, r.usn);
    assert_eq!(FILE_CREATE | CLOSE, r.reason);
    assert_eq!(0x10, r.flags);
    assert_eq!("héllo", r.name);
}

#[test]
fn refuses_other_versions() {
    let b = record_bytes(72, 3, 1, 5, 1000, CLOSE, "a");
    match UsnRecord::new(&b) {
        Err(e) => {
            assert_eq!(MyErrorKind::UsnRecordVersionUnsupported(3), e);
            assert_eq!("UsnRecord v3 is not supported", e.message());
        }
        Ok(_) => panic!("version 3 read"),
    }
}

#[test]
fn windows_string_replaces_lone_surrogates() {
    let b = [0x41u8, 0x00, 0x00, 0xD8, 0x42, 0x00, 0x7F];
    assert_eq!("A\u{FFFD}B", windows_string(&b));
}

#[test]
fn journal_buffer_reads_every_record() {
    let mut buffer = 777i64.to_le_bytes().to_vec();
    buffer.extend(record_bytes(64, 2, 1, 5, 10, FILE_CREATE, "a"));
    buffer.extend(record_bytes(68, 2, 2, 5, 11, FILE_DELETE, "bc"));
    let (next, records) = journal_records(&buffer).unwrap();
    assert_eq!(777, next);
    assert_eq!(2, records.len());
    assert_eq!("a", records[0].name);
    assert_eq!("bc", records[1].name);
    assert_eq!(11, records[1].usn);
}

#[test]
fn journal_buffer_with_other_version_fails() {
    let mut buffer = 1i64.to_le_bytes().to_vec();
    buffer.extend(record_bytes(64, 2, 1, 5, 10, FILE_CREATE, "a"));
    buffer.extend(record_bytes(64, 4, 2, 5, 11, FILE_DELETE, "b"));
    assert_eq!(Some(MyErrorKind::UsnJournalError), journal_records(&buffer).err());
}

#[test]
fn journal_empty_buffer_has_no_records() {
    let buffer = 5i64.to_le_bytes().to_vec();
    let (next, records) = journal_records(&buffer).unwrap();
    assert_eq!(5, next);
    assert!(records.is_empty());
}

#[test]
fn journal_keeps_only_meaningful_records() {
    let record = new_record(CLOSE);
    assert!(!keeps_record(&record, 0));
    let record = new_record(BASIC_INFO_CHANGE);
    assert!(keeps_record(&record, 0));
    assert!(!keeps_record(&record, 4));
    let record = new_record(FILE_DELETE | CLOSE);
    assert!(keeps_record(&record, 4));
}

#[test]
fn records_the_reader_drops_are_ignored_changes() {
    for reason in [CLOSE, CLOSE | 0x4, BASIC_INFO_CHANGE, FILE_CREATE] {
        let record = new_record(reason);
        let mut entry = FileEntry::default();
        entry.fr_number = 8;
        if !keeps_record(&record, entry.fr_number) {
            assert_eq!(IGNORE, new_record(reason).into_change(entry));
        }
    }
}

#[test]
fn journal_buffer_framing() {
    let mut buffer = 1i64.to_le_bytes().to_vec();
    assert!(journal_framed(&buffer));
    buffer.extend(record_bytes(64, 2, 1, 5, 10, FILE_CREATE, "a"));
    assert!(journal_framed(&buffer));
    assert!(!journal_framed(&buffer[..40]));
    assert!(!journal_framed(&buffer[..7]));
    let mut longer = buffer.clone();
    longer.extend(record_bytes(64, 2, 2, 5, 11, FILE_CREATE, "b"));
    assert!(!journal_framed(&longer[..longer.len() - 1]));
    let mut zero = buffer.clone();
    zero.extend(record_bytes(64, 2, 2, 5, 11, FILE_CREATE, "b"));
    let n = zero.len();
    zero[n - 64..n - 60].copy_from_slice(&0u32.to_le_bytes());
    assert!(!journal_framed(&zero));
    let mut other = buffer.clone();
    other.extend(record_bytes(64, 9, 2, 5, 11, FILE_CREATE, "b"));
    other.truncate(other.len() - 50);
    assert!(journal_framed(&other));
    assert_eq!(Some(cloppy::errors::MyErrorKind::UsnJournalError), journal_records(&other).err());
}
