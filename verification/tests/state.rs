use cloppy::file_entity::FileId;
use cloppy::files::{FileData, Files};
use cloppy::item::to_wide_null;
use cloppy::state::FilesState;

fn test_files() -> Files {
    let mut files = Files::new(3);
    files.storage_mut().upsert(FileData::new(FileId::directory(1), FileId::directory(1), 0, 2, false), "C:");
    files.storage_mut().upsert(FileData::new(FileId::directory(2), FileId::directory(1), 0, 2, false), "docs");
    files.storage_mut().upsert(FileData::new(FileId::file(3), FileId::directory(2), 5000, 0, false), "plan.txt");
    files
}

#[test]
fn new_state_has_no_rows() {
    let state = FilesState::new(vec![FileId::file(3)]);
    assert!(state.item_cache().is_empty());
    assert_eq!(Some(&FileId::file(3)), state.file_in_current_search(0));
    assert_eq!(None, state.file_in_current_search(1));
    let state = FilesState::default();
    assert_eq!(None, state.file_in_current_search(0));
}

#[test]
fn prepares_rows_on_demand() {
    let files = test_files();
    let mut state = FilesState::new(files.search_by_name("a", None));
    assert_eq!(Some(&FileId::file(3)), state.file_in_current_search(0));
    state.prepare_item(&files, 0, "an");
    let row = &state.item_cache()[&0];
    assert_eq!("plan.txt", row.name);
    assert_eq!(to_wide_null("C:\\docs\\"), row.path);
    assert_eq!(to_wide_null("5 KB"), row.size);
    assert_eq!(3, row.matches.len());
    assert!(row.matches[1].matched);
    state.item_cache_mut().clear();
    assert!(state.item_cache().is_empty());
}
