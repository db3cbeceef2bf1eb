use cloppy::file_entity::{FileEntity, FileEntry};
use cloppy::item::{pretty_size, to_wide_null, DisplayItem, Match};

#[test]
fn test() {
    let haystack = "Część 1 -Część 2";
    let needle = "Czę";
    let matches = cloppy::item::matches(needle, haystack);
    let expected = ["Czę", "ść 1 -", "Czę", "ść 2"];
    for x in 0..matches.len() {
        let m = &matches[x];
        assert_eq!(&expected[x].encode_utf16().collect::<Vec<_>>(), &m.text);
    }
    assert_eq!(matches.len(), expected.len());
}

#[test]
fn pretty_size_test() {
    assert_eq!(&"1 KB", &pretty_size(1));
    assert_eq!(&"1 KB", &pretty_size(1023));
    assert_eq!(&"1 KB", &pretty_size(1024));
    assert_eq!(&"2 KB", &pretty_size(1025));
    assert_eq!(&"17.458 KB", &pretty_size(17876333));
    assert_eq!(&"123.456 KB", &pretty_size(126418944));
    assert_eq!(&"123.456.789 KB", &pretty_size(126419751936));
}

#[test]
fn pretty_size_of_nothing_and_negatives() {
    assert_eq!("0 KB", pretty_size(0));
    assert_eq!("1 KB", pretty_size(-1));
    assert_eq!("-1 KB", pretty_size(-1024));
    assert_eq!("-.123 KB", pretty_size(-123 * 1024));
    assert_eq!("-1.000 KB", pretty_size(-1000 * 1024));
    assert_eq!("9.007.199.254.740.992 KB", pretty_size(i64::MAX));
    assert_eq!("-9.007.199.254.740.992 KB", pretty_size(i64::MIN));
}

fn flags_and_texts(ms: &[Match]) -> Vec<(bool, String)> {
    ms.iter().map(|m| (m.matched, String::from_utf16(&m.text).unwrap())).collect()
}

#[test]
fn matches_marks_each_occurrence() {
    assert_eq!(
        vec![(true, "ab".to_string()), (false, "x".to_string()), (true, "ab".to_string())],
        flags_and_texts(&cloppy::item::matches("ab", "abxab"))
    );
    assert_eq!(vec![(true, "aa".to_string()), (true, "aa".to_string()), (false, "a".to_string())],
        flags_and_texts(&cloppy::item::matches("aa", "aaaaa")));
    assert_eq!(vec![(false, "hello".to_string())], flags_and_texts(&cloppy::item::matches("z", "hello")));
    assert_eq!(vec![(false, "hello".to_string())], flags_and_texts(&cloppy::item::matches("", "hello")));
    assert!(cloppy::item::matches("", "").is_empty());
    assert!(cloppy::item::matches("a", "").is_empty());
}

#[test]
fn wide_null_ends_with_zero() {
    assert_eq!(vec![0x61u16, 0xD83D, 0xDE00, 0], to_wide_null("a\u{1F600}"));
    assert_eq!(vec![0u16], to_wide_null(""));
}

#[test]
fn display_item_for_file_and_directory() {
    let file = FileEntity::from_entry(FileEntry {
        fr_number: 3,
        parent_fr_number: 1,
        name: "notes.txt".to_string(),
        flags: 0,
        size: 2048,
    });
    let item = DisplayItem::new(&file, "C:\\docs\\".to_string(), "te");
    assert_eq!("notes.txt", item.name);
    assert_eq!(to_wide_null("C:\\docs\\"), item.path);
    assert_eq!(to_wide_null("2 KB"), item.size);
    assert_eq!(
        vec![(false, "no".to_string()), (true, "te".to_string()), (false, "s.txt".to_string())],
        flags_and_texts(&item.matches)
    );
    assert!(!item.is_directory());

    let dir = FileEntity::from_entry(FileEntry {
        fr_number: 4,
        parent_fr_number: 1,
        name: "docs".to_string(),
        flags: 2,
        size: 4096,
    });
    let item = DisplayItem::new(&dir, String::new(), "zz");
    assert_eq!(vec![0u16], item.size);
    assert!(item.is_directory());
    assert_eq!(2, item.flags);
}

#[test]
fn match_constructors_encode_utf16() {
    let m = Match::matched("ść");
    assert!(m.matched);
    assert_eq!("ść".encode_utf16().collect::<Vec<_>>(), m.text);
    let m = Match::unmatched("x");
    assert!(!m.matched);
    assert_eq!(vec![0x78u16], m.text);
}

#[test]
fn pieces_put_back_together_give_the_name() {
    for (needle, haystack) in [("a", "banana"), ("an", "banana"), ("ść", "Część ść"), ("", "x"), ("q", "banana")] {
        let pieces = cloppy::item::matches(needle, haystack);
        let mut joined = Vec::new();
        for m in &pieces {
            assert!(!m.text.is_empty());
            if m.matched {
                assert_eq!(needle.encode_utf16().collect::<Vec<_>>(), m.text);
            }
            joined.extend_from_slice(&m.text);
        }
        assert_eq!(haystack.encode_utf16().collect::<Vec<_>>(), joined);
    }
}
