use cloppy::file_entity::{FileEntity, FileEntry, FileId};
use cloppy::files::{FileData, Files};
use cloppy::usn_record::UsnChange;

const FILE: u16 = 1;
const DIR: u16 = 2;

fn test_data() -> Files {
    let mut files = Files::new(1);
    let file0 = FileData::new(FileId::file(0), FileId::directory(1), 0, FILE, false);
    let dir0 = FileData::new(FileId::directory(0), FileId::directory(1), 0, DIR, false);
    let file1 = FileData::new(FileId::file(1), FileId::directory(1), 0, FILE, false);
    let dir1 = FileData::new(FileId::directory(1), FileId::directory(1), 0, DIR, false);
    let file2 = FileData::new(FileId::file(2), FileId::directory(1), 0, FILE, false);
    let dir2 = FileData::new(FileId::directory(2), FileId::directory(1), 0, DIR, false);
    let dir3 = FileData::new(FileId::directory(3), FileId::directory(2), 0, DIR, false);

    files.storage_mut().upsert(file2, "file2");
    files.storage_mut().upsert(file1, "file1");
    files.storage_mut().upsert(file0, "file0");
    files.storage_mut().upsert(dir3, "dir3");
    files.storage_mut().upsert(dir2, "dir2");
    files.storage_mut().upsert(dir1, "dir1");
    files.storage_mut().upsert(dir0, "dir0");

    files
}

#[test]
fn empty_files() {
    let files = Files::new(5);
    assert!(files.search_by_name("", None).is_empty())
}

#[test]
fn search_by_name() {
    let files = test_data();

    let search = files.search_by_name("0", None);
    assert_eq!(2, search.len());
    assert_eq!(&"dir0", &files.get_file(*search.get(0).unwrap()).name);
    assert_eq!(&"file0", &files.get_file(*search.get(1).unwrap()).name);

    let search = files.search_by_name("4", None);
    assert!(search.is_empty());
}

#[test]
fn get_paths() {
    let files = test_data();

    let f = files.get_file(FileId::file(0)).data;
    assert_eq!("dir1\\", files.path_of(f));
    let f = files.get_file(FileId::file(1)).data;
    assert_eq!("dir1\\", files.path_of(f));
    let f = files.get_file(FileId::directory(3)).data;
    assert_eq!("dir1\\dir2\\", files.path_of(f));
}

#[test]
fn after_adding_file_sorted_new_file_is_present() {
    let mut files = test_data();
    let prev_search = files.search_by_name("file0", None).len();
    let new_file = FileData::new(FileId::file(3), FileId::directory(1), 42, FILE, false);

    files.storage_mut().upsert(new_file, "a_file0");
    let search = files.search_by_name("file0", None);

    assert_eq!(prev_search + 1, search.len());
    assert_eq!(&"a_file0", &files.get_file(*search.get(1).unwrap()).name);
}

#[test]
fn adding_file_doesnt_invalidate_existing_item_id() {
    let mut files = test_data();

    let search = files.search_by_name("file0", None);
    let new_file = FileData::new(FileId::file(3), FileId::directory(1), 42, FILE, false);
    files.storage_mut().upsert(new_file, "a_file0");

    assert_eq!(1, search.len());
    assert_eq!(&"file0", &files.get_file(*search.get(0).unwrap()).name);
}

#[test]
fn update_existing_file() {
    let mut files = test_data();
    let update_file = FileData::new(FileId::file(0), FileId::directory(1), 42, FILE, false);
    files.storage_mut().upsert(update_file, "new_name");

    assert!(files.search_by_name(&"file0", None).is_empty());
    let search = files.search_by_name(&"new_name", None);
    assert_eq!(1, search.len());
    assert_eq!(FileId::file(0), files.get_file(search[0]).data.id());
    assert_eq!("new_name", files.get_file(search[0]).name);
}

#[test]
fn search_lists_directories_first_then_files_by_id() {
    let files = test_data();
    let search = files.search_by_name("", None);
    assert_eq!(
        vec![
            FileId::directory(0),
            FileId::directory(1),
            FileId::directory(2),
            FileId::directory(3),
            FileId::file(0),
            FileId::file(1),
            FileId::file(2),
        ],
        search
    );
}

#[test]
fn root_has_empty_path() {
    let files = test_data();
    let root = files.get_file(FileId::directory(1)).data;
    assert!(root.is_root());
    assert_eq!("", files.path_of(root));
}

#[test]
fn delete_then_get_shows_deleted_and_keeps_others() {
    let mut files = test_data();
    files.delete_file(FileId::file(1));
    assert!(files.get_file(FileId::file(1)).data.deleted());
    assert_eq!("file1", files.get_file(FileId::file(1)).name);
    assert!(!files.get_file(FileId::file(2)).data.deleted());
    assert!(!files.get_file(FileId::directory(1)).data.deleted());
    files.delete_file(FileId::file(9));
    assert!(!files.contains(FileId::file(9)));
}

#[test]
fn bulk_add_fills_index() {
    let mut files = Files::new(3);
    let entries = vec![
        FileEntry { fr_number: 5, parent_fr_number: 5, name: "root".to_string(), flags: 2, size: 0 },
        FileEntry { fr_number: 7, parent_fr_number: 5, name: "b.txt".to_string(), flags: 0, size: 10 },
        FileEntry { fr_number: 6, parent_fr_number: 5, name: "a.txt".to_string(), flags: 0, size: 20 },
    ];
    let entities: Vec<FileEntity> = entries.into_iter().map(FileEntity::from_entry).collect();
    files.bulk_add(entities);
    let search = files.search_by_name(".txt", None);
    assert_eq!(vec![FileId::file(6), FileId::file(7)], search);
    let item = files.get_file(FileId::file(7));
    assert_eq!("b.txt", item.name);
    assert_eq!(10, item.data.size());
    assert_eq!("root\\", files.path_of(item.data));
}

#[test]
fn add_then_update_file_reads_back() {
    let mut files = test_data();
    files.add_file(FileEntity::from_entry(FileEntry {
        fr_number: 10,
        parent_fr_number: 2,
        name: "new.txt".to_string(),
        flags: 0,
        size: 5,
    }));
    let item = files.get_file(FileId::file(10));
    assert_eq!("new.txt", item.name);
    assert_eq!(5, item.data.size());
    assert_eq!("dir1\\dir2\\", files.path_of(item.data));
    files.update_file(FileEntity::from_entry(FileEntry {
        fr_number: 10,
        parent_fr_number: 1,
        name: "renamed.txt".to_string(),
        flags: 0,
        size: 6,
    }));
    let item = files.get_file(FileId::file(10));
    assert_eq!("renamed.txt", item.name);
    assert_eq!(6, item.data.size());
    assert_eq!("dir1\\", files.path_of(item.data));
}

#[test]
fn journal_changes_are_applied_in_order() {
    let mut files = test_data();
    let entry = |fr: i64, parent: i64, name: &str, flags: u16, size: i64| {
        FileEntity::from_entry(FileEntry { fr_number: fr, parent_fr_number: parent, name: name.to_string(), flags, size })
    };
    files.update_files(vec![
        UsnChange::NEW(entry(20, 2, "report.doc", 0, 100)),
        UsnChange::IGNORE,
        UsnChange::UPDATE(entry(20, 1, "report2.doc", 0, 200)),
        UsnChange::DELETE(3),
        UsnChange::DELETE(2),
        UsnChange::DELETE(99),
    ]);
    let item = files.get_file(FileId::file(20));
    assert_eq!("report2.doc", item.name);
    assert_eq!(200, item.data.size());
    assert_eq!("dir1\\", files.path_of(item.data));
    assert!(files.get_file(FileId::directory(3)).data.deleted());
    assert!(files.get_file(FileId::directory(2)).data.deleted());
    assert!(files.get_file(FileId::file(2)).data.deleted());
    assert!(!files.get_file(FileId::file(1)).data.deleted());
    assert!(!files.contains(FileId::file(99)));
    assert_eq!(8, files.len());
    assert_eq!(9, files.name_count());
}

#[test]
fn root_is_reached_within_the_tree_depth() {
    let files = test_data();
    let dir3 = files.get_file(FileId::directory(3)).data;
    assert!(!files.reaches_root_within(dir3, 1));
    assert!(files.reaches_root_within(dir3, 2));
    let mut broken = test_data();
    broken.storage_mut().upsert(FileData::new(FileId::file(30), FileId::directory(77), 0, FILE, false), "orphan");
    let orphan = broken.get_file(FileId::file(30)).data;
    assert!(!broken.reaches_root_within(orphan, 100));
}

#[test]
fn add_and_update_leave_the_same_index() {
    let f = || FileEntity::from_entry(FileEntry { fr_number: 1, parent_fr_number: 1, name: "z".to_string(), flags: 0, size: 3 });
    let mut a = test_data();
    let mut b = test_data();
    a.add_file(f());
    b.update_file(f());
    let all = |files: &Files| {
        files
            .search_by_name("", None)
            .into_iter()
            .map(|id| {
                let item = files.get_file(id);
                (id, item.name.to_string(), item.data.size(), item.data.deleted())
            })
            .collect::<Vec<_>>()
    };
    assert_eq!(all(&a), all(&b));
    assert_eq!(a.name_count(), b.name_count());
    assert_eq!("z", a.get_file(FileId::file(1)).name);
}
