use vstd::prelude::*;
use std::collections::HashMap;

use crate::file_entity::FileId;
use crate::files::{reaches_root, Files};
use crate::item::{shows, DisplayItem};

verus! {

/// The outcome of a search as the file list shows it: the ids found, in the
/// order shown, and the rows already prepared, by position.
pub struct FilesState {
    current_search: Vec<FileId>,
    item_cache: HashMap<u32, DisplayItem>,
}

impl FilesState {
    pub closed spec fn search(&self) -> Seq<FileId> {
        self.current_search@
    }

    pub closed spec fn cache(&self) -> Map<u32, DisplayItem> {
        self.item_cache@
    }

    /// The state of a new search, with no row prepared yet.
    pub fn new(current_search: Vec<FileId>) -> (r: FilesState)
        ensures
            r.search() == current_search@,
            r.cache() == Map::<u32, DisplayItem>::empty(),
    {
        FilesState { current_search, item_cache: HashMap::new() }
    }

    pub fn item_cache(&self) -> (r: &HashMap<u32, DisplayItem>)
        ensures
            r@ == self.cache(),
    {
        &self.item_cache
    }

    pub fn item_cache_mut(&mut self) -> (r: &mut HashMap<u32, DisplayItem>)
        ensures
            r@ == old(self).cache(),
            final(self).cache() == final(r)@,
            final(self).search() == old(self).search(),
    {
        &mut self.item_cache
    }

    /// Prepares the row at position `item_id`: the file the search found
    /// there, with its path, its name split against `query`.
    pub fn prepare_item(&mut self, files: &Files, item_id: usize, query: &str)
        requires
            files.wf(),
            item_id < old(self).search().len(),
            files.index().present(old(self).search()[item_id as int]),
            exists|n: nat|
                reaches_root(
                    files.index(),
                    old(self).search()[item_id as int],
                    files.index().entry_of(old(self).search()[item_id as int]).parent_id,
                    n,
                ),
        ensures
            final(self).search() == old(self).search(),
            ({
                let id = old(self).search()[item_id as int];
                let e = files.index().entry_of(id);
                &&& final(self).cache().dom() == old(self).cache().dom().insert(item_id as u32)
                &&& forall|k: u32| k != item_id as u32 && #[trigger] old(self).cache().contains_key(k) ==> final(self).cache()[k] == old(self).cache()[k]
                &&& shows(final(self).cache()[item_id as u32], e.name, e.size, e.flags, files.path_spec(id, e.parent_id), query@)
            }),
    {
        let id = self.current_search[item_id];
        let stored = files.get_file(id);
        let path = files.path_of(stored.data);
        let row = DisplayItem::from_parts(stored.name, stored.data.size(), stored.data.flags(), path, query);
        self.item_cache.insert(item_id as u32, row);
    }

    /// The id shown at position `pos`, if the search found that many files.
    pub fn file_in_current_search(&self, pos: usize) -> (r: Option<&FileId>)
        ensures
            r == (if pos < self.search().len() {
                Some(&self.search()[pos as int])
            } else {
                None::<&FileId>
            }),
    {
        if pos < self.current_search.len() {
            Some(&self.current_search[pos])
        } else {
            None
        }
    }
}

impl Default for FilesState {
    /// No search yet: nothing found, nothing prepared.
    fn default() -> (r: FilesState)
        ensures
            r.search() == Seq::<FileId>::empty(),
            r.cache() == Map::<u32, DisplayItem>::empty(),
    {
        FilesState::new(Vec::new())
    }
}

} // verus!
