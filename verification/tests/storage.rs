use cloppy::file_entity::{FileEntity, FileEntry, FileId};
use cloppy::files::FileData;
use cloppy::storage::{Storage, StorageItem};

const FILE: u16 = 1;
const DIR: u16 = 2;

fn test_data() -> Storage {
    let mut storage = Storage::new();
    let file0 = FileData::new(FileId::file(0), FileId::directory(1), 0, FILE, false);
    let dir0 = FileData::new(FileId::directory(0), FileId::directory(1), 0, DIR, false);
    let file1 = FileData::new(FileId::file(1), FileId::directory(1), 0, FILE, false);
    let dir1 = FileData::new(FileId::directory(1), FileId::directory(1), 0, DIR, false);
    let file2 = FileData::new(FileId::file(2), FileId::directory(1), 0, FILE, false);
    let dir2 = FileData::new(FileId::directory(2), FileId::directory(1), 0, DIR, false);
    let dir3 = FileData::new(FileId::directory(3), FileId::directory(2), 0, DIR, false);

    storage.upsert(file2, "file2");
    storage.upsert(file1, "file1");
    storage.upsert(file0, "file0");
    storage.upsert(dir3, "dir3");
    storage.upsert(dir2, "dir2");
    storage.upsert(dir1, "dir1");
    storage.upsert(dir0, "dir0");

    storage
}

fn items(storage: &Storage) -> Vec<(String, FileId)> {
    let mut it = storage.iter();
    std::iter::from_fn(|| it.next()).map(|i| (i.name.to_string(), i.data.id())).collect()
}

#[test]
fn adding_files_keeps_order_by_file_id() {
    let storage = test_data();

    for x in 0..3 {
        let StorageItem { name, data } = storage.get(FileId::file(x));
        assert_eq!(name, format!("file{}", x));
        assert_eq!(FileId::file(x), data.id());
    }
}

#[test]
fn can_update_file_and_name() {
    let mut storage = test_data();

    storage.upsert(FileData::new(FileId::file(2), FileId::directory(1), 25, FILE, false), "new_file2");

    let StorageItem { name, data } = storage.get(FileId::file(2));
    assert_eq!(name, "new_file2");
    assert_eq!(data.size(), 25);
}

#[test]
fn adding_dir_keeps_order_by_file_id() {
    let storage = test_data();

    for x in 0..3 {
        let StorageItem { name, data } = storage.get(FileId::directory(x));
        assert_eq!(name, format!("dir{}", x));
        assert_eq!(FileId::directory(x), data.id());
    }
}

#[test]
fn can_update_dir_and_name() {
    let mut storage = test_data();

    let updated_dir = FileData::new(FileId::directory(2), FileId::directory(1), 25, DIR, false);
    storage.upsert(updated_dir, "new_dir2");

    let StorageItem { name, data } = storage.get(FileId::directory(2));
    assert_eq!(name, "new_dir2");
    assert_eq!(data.size(), 25);
}

#[test]
fn iterator_over_dirs_and_files() {
    let storage = test_data();

    let mut it = storage.iter();
    let dirs = std::iter::from_fn(|| it.next()).filter(|i| i.data.is_directory()).count();
    assert_eq!(4, dirs);

    let mut it = storage.iter();
    let files = std::iter::from_fn(|| it.next()).filter(|i| !i.data.is_directory()).count();
    assert_eq!(3, files);
}

#[test]
fn iterates_first_over_dirs() {
    let storage = test_data();

    let mut it = storage.iter();
    let dirs = std::iter::from_fn(|| it.next()).take(4).filter(|i| i.data.is_directory()).count();
    assert_eq!(4, dirs);
}

#[test]
fn mark_file_as_deleted() {
    let mut storage = test_data();

    assert!(!storage.get(FileId::file(1)).data.deleted());
    storage.delete(FileId::file(1));

    assert!(storage.get(FileId::file(1)).data.deleted());
}

#[test]
fn adding_file_with_existing_name_does_not_add_new_name() {
    let mut storage = test_data();
    let prev_name_len = storage.name_count();
    let prev_file_len = storage.file_count();

    let file = FileData::new(FileId::file(5), FileId::directory(1), 0, FILE, false);
    storage.upsert(file, "file2");

    assert_eq!(prev_name_len, storage.name_count());
    assert_eq!(prev_file_len + 1, storage.file_count());
}

#[test]
fn update_file_data_same_name() {
    let mut storage = test_data();
    let prev_name_len = storage.name_count();

    let file = FileData::new(FileId::file(1), FileId::directory(1), 25, FILE, true);
    storage.upsert(file, "file1");

    assert_eq!(prev_name_len, storage.name_count());
    assert_eq!(25, storage.get(FileId::file(1)).data.size());
    assert!(storage.get(FileId::file(1)).data.deleted());
}

#[test]
fn update_file_data_new_existing_name() {
    let mut storage = test_data();
    let prev_name_len = storage.name_count();

    let file = FileData::new(FileId::file(1), FileId::directory(1), 25, FILE, true);
    storage.upsert(file, "file1");

    assert_eq!(prev_name_len, storage.name_count());
    assert_eq!(25, storage.get(FileId::file(1)).data.size());
    assert!(storage.get(FileId::file(1)).data.deleted());
}

#[test]
fn update_file_data_new_name() {
    let mut storage = test_data();
    let prev_name_len = storage.name_count();

    let update_file = FileData::new(FileId::file(1), FileId::directory(1), 25, FILE, true);
    storage.upsert(update_file, "file_update");

    assert_eq!(prev_name_len + 1, storage.name_count());
    assert_eq!(25, storage.get(FileId::file(1)).data.size());
    assert!(storage.get(FileId::file(1)).data.deleted());
}

#[test]
fn update_file_does_not_change_existing_files() {
    let mut storage = test_data();
    let new_file = FileData::new(FileId::file(4), FileId::directory(1), 42, FILE, false);
    storage.upsert(new_file, "aaa_file");
    let prev_name_len = storage.name_count();

    let update_file = FileData::new(FileId::file(1), FileId::directory(1), 25, FILE, true);
    storage.upsert(update_file, "file_update");

    assert_eq!(prev_name_len + 1, storage.name_count());
    assert_eq!("aaa_file", storage.get(FileId::file(4)).name);
    assert_eq!(42, storage.get(FileId::file(4)).data.size());
}

#[test]
fn new_name_before_existing_ones_keeps_their_names() {
    let mut storage = test_data();
    storage.upsert(FileData::new(FileId::file(9), FileId::directory(1), 1, FILE, false), "a");
    assert_eq!(8, storage.name_count());
    assert_eq!("a", storage.get(FileId::file(9)).name);
    assert_eq!("file0", storage.get(FileId::file(0)).name);
    assert_eq!("dir3", storage.get(FileId::directory(3)).name);
    assert_eq!(
        vec![
            ("dir0".to_string(), FileId::directory(0)),
            ("dir1".to_string(), FileId::directory(1)),
            ("dir2".to_string(), FileId::directory(2)),
            ("dir3".to_string(), FileId::directory(3)),
            ("file0".to_string(), FileId::file(0)),
            ("file1".to_string(), FileId::file(1)),
            ("file2".to_string(), FileId::file(2)),
            ("a".to_string(), FileId::file(9)),
        ],
        items(&storage)
    );
}

#[test]
fn delete_of_missing_id_changes_nothing() {
    let mut storage = test_data();
    storage.delete(FileId::file(7));
    assert!(!storage.contains(FileId::file(7)));
    assert_eq!(3, storage.file_count());
    assert_eq!(4, storage.dir_count());
    for x in 0..3 {
        assert!(!storage.get(FileId::file(x)).data.deleted());
    }
}

#[test]
fn bulk_insert_sorts_and_shares_names() {
    let mut storage = Storage::new();
    let entities: Vec<FileEntity> = vec![
        FileEntry { fr_number: 3, parent_fr_number: 1, name: "same".to_string(), flags: 0, size: 1 },
        FileEntry { fr_number: 1, parent_fr_number: 1, name: "root".to_string(), flags: 2, size: 0 },
        FileEntry { fr_number: 2, parent_fr_number: 1, name: "same".to_string(), flags: 0, size: 2 },
    ]
    .into_iter()
    .map(FileEntity::from_entry)
    .collect();
    storage.bulk_insert(entities);
    assert_eq!(2, storage.name_count());
    assert_eq!(2, storage.file_count());
    assert_eq!(1, storage.dir_count());
    assert_eq!(
        vec![
            ("root".to_string(), FileId::directory(1)),
            ("same".to_string(), FileId::file(2)),
            ("same".to_string(), FileId::file(3)),
        ],
        items(&storage)
    );
}

#[test]
fn name_ids_are_positions_in_the_sorted_table() {
    let mut storage = test_data();
    assert_eq!(5, storage.get(FileId::file(1)).data.name_id().0);
    assert_eq!(0, storage.get(FileId::directory(0)).data.name_id().0);
    storage.upsert(FileData::new(FileId::file(9), FileId::directory(1), 1, FILE, false), "e");
    assert_eq!(6, storage.get(FileId::file(1)).data.name_id().0);
    assert_eq!(4, storage.get(FileId::file(9)).data.name_id().0);
    assert_eq!(3, storage.get(FileId::directory(3)).data.name_id().0);
}
