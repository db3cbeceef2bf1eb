use vstd::prelude::*;

use crate::file_entity::{id_agrees, id_key, is_directory_flags, FileEntity, FileEntityView, FileId, FileType};
use crate::files::{FileData, FileDataView, NameId};
use crate::order::{compare_text, lemma_text_order, text_lt, Rank};
use crate::laws::law_bulk_insert_then_get;

verus! {

/// What the index holds for one file: its record, less the name id, and its name.
pub struct StoredFile {
    pub id: FileId,
    pub parent_id: FileId,
    pub size: i64,
    pub flags: u16,
    pub deleted: bool,
    pub name: Seq<char>,
}

/// The stored form of record `d` under the name `name`.
pub open spec fn stored_file(d: FileDataView, name: Seq<char>) -> StoredFile {
    StoredFile {
        id: d.id,
        parent_id: d.parent_id,
        size: d.size,
        flags: d.flags,
        deleted: d.deleted,
        name,
    }
}

/// The stored form of a received file, before any change to it.
pub open spec fn stored_entity(f: FileEntityView) -> StoredFile {
    StoredFile {
        id: f.id,
        parent_id: f.parent_id,
        size: f.size,
        flags: f.flags,
        deleted: false,
        name: f.name,
    }
}

/// Records sorted by id, each id at most once.
pub open spec fn data_sorted(s: Seq<FileData>) -> bool {
    forall|i: int, j: int| 0 <= i < j < s.len() ==> id_key(#[trigger] s[i]@.id) < id_key(#[trigger] s[j]@.id)
}

/// Stored files sorted by id, each id at most once.
pub open spec fn stored_sorted(s: Seq<StoredFile>) -> bool {
    forall|i: int, j: int| 0 <= i < j < s.len() ==> id_key(#[trigger] s[i].id) < id_key(#[trigger] s[j].id)
}

/// Names sorted by their bytes, each name at most once.
pub open spec fn names_sorted(s: Seq<String>) -> bool {
    forall|i: int, j: int| 0 <= i < j < s.len() ==> text_lt(#[trigger] s[i]@, #[trigger] s[j]@)
}

/// Some entry of `s` has id `id`.
pub open spec fn has_id(s: Seq<StoredFile>, id: FileId) -> bool {
    exists|i: int| 0 <= i < s.len() && #[trigger] s[i].id == id
}

/// `t` is `s` with `e` written in: in place of the entry with `e`'s id, or as a new entry.
pub open spec fn upserted(s: Seq<StoredFile>, t: Seq<StoredFile>, e: StoredFile) -> bool {
    ||| exists|i: int| 0 <= i < s.len() && #[trigger] s[i].id == e.id && t == s.update(i, e)
    ||| !has_id(s, e.id) && exists|i: int| 0 <= i <= s.len() && t == #[trigger] s.insert(i, e)
}

/// `t` is the table `s` with the name `x` added: unchanged when `x` is in it,
/// else with `x` inserted at some position.
pub open spec fn name_added(s: Seq<Seq<char>>, t: Seq<Seq<char>>, x: Seq<char>) -> bool {
    if s.contains(x) {
        t == s
    } else {
        exists|p: int| 0 <= p <= s.len() && t == s.insert(p, x)
    }
}

/// The entries of `s`, with the one whose id is `id` marked deleted.
pub open spec fn marked_deleted(s: Seq<StoredFile>, id: FileId) -> Seq<StoredFile> {
    s.map_values(|e: StoredFile| if e.id == id { StoredFile { deleted: true, ..e } } else { e })
}

/// Whether the entry with id `id` is looked up among the directories.
pub open spec fn is_dir_id(id: FileId) -> bool {
    id.type_spec() == FileType::DIRECTORY
}

/// The index of files: directories and plain files, each kept sorted by id,
/// and a sorted table of distinct names that the records refer to by position.
pub struct Storage {
    file_data: Vec<FileData>,
    dir_data: Vec<FileData>,
    names: Vec<String>,
}

/// An entry of the index: a file's record and its name.
pub struct StorageItem<'a> {
    pub name: &'a str,
    pub data: &'a FileData,
}

/// Record `d` refers to a name of the table.
pub open spec fn names_in(s: Seq<FileData>, count: int) -> bool {
    forall|i: int| 0 <= i < s.len() ==> (#[trigger] s[i]@).name_id < count
}

impl Storage {
    /// The index's invariant.
    pub closed spec fn wf(&self) -> bool {
        &&& data_sorted(self.dir_data@)
        &&& data_sorted(self.file_data@)
        &&& names_sorted(self.names@)
        &&& self.names@.len() <= u32::MAX
        &&& names_in(self.dir_data@, self.names@.len() as int)
        &&& names_in(self.file_data@, self.names@.len() as int)
    }

    /// The table of names, in order.
    pub closed spec fn name_table(&self) -> Seq<Seq<char>> {
        self.names@.map_values(|s: String| s@)
    }

    /// The stored form of record `d`.
    pub closed spec fn stored(&self, d: FileData) -> StoredFile {
        stored_file(d@, self.names@[d@.name_id as int]@)
    }

    /// The directories, in order of id.
    pub closed spec fn dirs(&self) -> Seq<StoredFile> {
        self.dir_data@.map_values(|d: FileData| self.stored(d))
    }

    /// The plain files, in order of id.
    pub closed spec fn files(&self) -> Seq<StoredFile> {
        self.file_data@.map_values(|d: FileData| self.stored(d))
    }

    /// The directories when `directory` holds, else the plain files.
    pub open spec fn kind(&self, directory: bool) -> Seq<StoredFile> {
        if directory {
            self.dirs()
        } else {
            self.files()
        }
    }

    /// All entries, in the order they are listed: directories first.
    pub open spec fn all(&self) -> Seq<StoredFile> {
        self.dirs() + self.files()
    }

    /// The index holds an entry with id `id`.
    pub open spec fn present(&self, id: FileId) -> bool {
        has_id(self.kind(is_dir_id(id)), id)
    }

    /// The entry with id `id`, when the index holds one.
    pub open spec fn entry_of(&self, id: FileId) -> StoredFile {
        let k = self.kind(is_dir_id(id));
        k[choose|i: int| 0 <= i < k.len() && #[trigger] k[i].id == id]
    }

    /// The entries are sorted by id, each id at most once, and the names
    /// sorted by their bytes, each name once.
    pub proof fn lemma_sorted(&self)
        requires
            self.wf(),
        ensures
            stored_sorted(self.dirs()),
            stored_sorted(self.files()),
            forall|i: int, j: int|
                0 <= i < j < self.name_table().len() ==> text_lt(#[trigger] self.name_table()[i], #[trigger] self.name_table()[j]),
    {
        assert forall|i: int, j: int|
            0 <= i < j < self.name_table().len() implies text_lt(#[trigger] self.name_table()[i], #[trigger] self.name_table()[j]) by {
            assert(text_lt(self.names@[i]@, self.names@[j]@));
        }
    }

    pub fn new() -> (r: Storage)
        ensures
            r.wf(),
            r.dirs() == Seq::<StoredFile>::empty(),
            r.files() == Seq::<StoredFile>::empty(),
            r.name_table() == Seq::<Seq<char>>::empty(),
    {
        let file_data = Vec::new();
        let dir_data = Vec::new();
        let names = Vec::new();
        let r = Storage { file_data, dir_data, names };
        proof {
            assert(r.dirs() =~= Seq::<StoredFile>::empty());
            assert(r.files() =~= Seq::<StoredFile>::empty());
            assert(r.name_table() =~= Seq::<Seq<char>>::empty());
        }
        r
    }

    /// The number of distinct names.
    pub fn name_count(&self) -> (r: usize)
        ensures
            r == self.name_table().len(),
    {
        self.names.len()
    }

    /// The number of plain files.
    pub fn file_count(&self) -> (r: usize)
        ensures
            r == self.files().len(),
    {
        self.file_data.len()
    }

    /// The number of directories.
    pub fn dir_count(&self) -> (r: usize)
        ensures
            r == self.dirs().len(),
    {
        self.dir_data.len()
    }

    /// Fills an empty index with the received files at once: the name table
    /// becomes the distinct names of the files, sorted, and each file is
    /// stored among the directories or the plain files, by its flags.
    pub fn bulk_insert(&mut self, files: Vec<FileEntity>)
        requires
            old(self).wf(),
            old(self).dirs().len() == 0,
            old(self).files().len() == 0,
            files@.len() <= u32::MAX,
            forall|i: int, j: int| 0 <= i < j < files@.len() ==> (#[trigger] files@[i])@.id != (#[trigger] files@[j])@.id,
        ensures
            final(self).wf(),
            forall|n: Seq<char>|
                #[trigger] final(self).name_table().contains(n) <==> exists|k: int|
                    0 <= k < files@.len() && (#[trigger] files@[k])@.name == n,
            forall|e: StoredFile|
                #[trigger] final(self).dirs().contains(e) <==> exists|k: int|
                    0 <= k < files@.len() && is_directory_flags((#[trigger] files@[k])@.flags) && e == stored_entity(files@[k]@),
            forall|e: StoredFile|
                #[trigger] final(self).files().contains(e) <==> exists|k: int|
                    0 <= k < files@.len() && !is_directory_flags((#[trigger] files@[k])@.flags) && e == stored_entity(files@[k]@),
            forall|k: int|
                0 <= k < files@.len() ==> #[trigger] final(self).present(files@[k]@.id) && final(self).entry_of(files@[k]@.id)
                    == stored_entity(files@[k]@),
            final(self).all().len() == files@.len(),
    {
        let mut all_names = collect_names(&files);
        let ghost unsorted_names = all_names@;
        sort_texts(&mut all_names);
        let table = dedup_sorted(&all_names);
        proof {
            broadcast use vstd::seq_lib::group_to_multiset_ensures;

            assert forall|k: int| 0 <= k < files@.len() implies #[trigger] has_text(table@, files@[k]@.name) by {
                assert(unsorted_names.contains(unsorted_names[k]));
                assert(unsorted_names.to_multiset().count(unsorted_names[k]) > 0);
                assert(all_names@.contains(unsorted_names[k]));
                let m = choose|m: int| 0 <= m < all_names@.len() && all_names@[m] == unsorted_names[k];
                assert(has_text(table@, all_names@[m]@));
            }
            assert(all_names@.len() == all_names@.to_multiset().len());
            assert(unsorted_names.len() == unsorted_names.to_multiset().len());
        }
        let mut records = records_with_names(&files, &table);
        let ghost pre = records@;
        proof {
            assert forall|i: int, j: int| 0 <= i < j < pre.len() implies (#[trigger] pre[i])@.id != (#[trigger] pre[j])@.id by {
                assert(stored_file(pre[i]@, table@[pre[i]@.name_id as int]@) == stored_entity(files@[i]@));
                assert(stored_file(pre[j]@, table@[pre[j]@.name_id as int]@) == stored_entity(files@[j]@));
                assert(files@[i]@.id != files@[j]@.id);
            }
        }
        sort_by_id(&mut records);
        proof {
            lemma_sorted_distinct(pre, records@);
            assert forall|k: int| 0 <= k < records@.len() implies (#[trigger] records@[k])@.name_id < table@.len() by {
                assert(records@.contains(records@[k]));
                let m = choose|m: int| 0 <= m < pre.len() && pre[m] == records@[k];
            }
        }
        let mut i: usize = 0;
        while i < records.len()
            invariant
                0 <= i <= records@.len(),
                data_sorted(records@),
                forall|k: int| 0 <= k < records@.len() ==> (#[trigger] records@[k])@.name_id < table@.len(),
                data_sorted(self.dir_data@),
                data_sorted(self.file_data@),
                self.dir_data@.len() + self.file_data@.len() == i,
                forall|j: int, k: int|
                    0 <= j < self.dir_data@.len() && i <= k < records@.len() ==> id_key(#[trigger] self.dir_data@[j]@.id) < id_key(
                        #[trigger] records@[k]@.id,
                    ),
                forall|j: int, k: int|
                    0 <= j < self.file_data@.len() && i <= k < records@.len() ==> id_key(#[trigger] self.file_data@[j]@.id) < id_key(
                        #[trigger] records@[k]@.id,
                    ),
                forall|j: int|
                    0 <= j < self.dir_data@.len() ==> #[trigger] records@.take(i as int).contains(self.dir_data@[j])
                        && is_directory_flags(self.dir_data@[j]@.flags),
                forall|j: int|
                    0 <= j < self.file_data@.len() ==> #[trigger] records@.take(i as int).contains(self.file_data@[j])
                        && !is_directory_flags(self.file_data@[j]@.flags),
                forall|k: int|
                    0 <= k < i ==> if is_directory_flags((#[trigger] records@[k])@.flags) {
                        self.dir_data@.contains(records@[k])
                    } else {
                        self.file_data@.contains(records@[k])
                    },
            decreases records@.len() - i,
        {
            let d = records[i];
            let ghost old_dirs = self.dir_data@;
            let ghost old_files = self.file_data@;
            if d.is_directory() {
                self.dir_data.push(d);
            } else {
                self.file_data.push(d);
            }
            proof {
                let rs = records@;
                assert(rs.take(i + 1) == rs.take(i as int).push(d));
                assert forall|j: int, k: int|
                    0 <= j < self.dir_data@.len() && i + 1 <= k < rs.len() implies id_key(#[trigger] self.dir_data@[j]@.id) < id_key(
                        #[trigger] rs[k]@.id,
                    ) by {
                    if j < old_dirs.len() {
                        assert(id_key(old_dirs[j]@.id) < id_key(rs[k]@.id));
                    } else {
                        assert(id_key(rs[i as int]@.id) < id_key(rs[k]@.id));
                    }
                }
                assert forall|j: int, k: int|
                    0 <= j < self.file_data@.len() && i + 1 <= k < rs.len() implies id_key(#[trigger] self.file_data@[j]@.id) < id_key(
                        #[trigger] rs[k]@.id,
                    ) by {
                    if j < old_files.len() {
                        assert(id_key(old_files[j]@.id) < id_key(rs[k]@.id));
                    } else {
                        assert(id_key(rs[i as int]@.id) < id_key(rs[k]@.id));
                    }
                }
                assert forall|a: int, b: int| 0 <= a < b < self.dir_data@.len() implies id_key(#[trigger] self.dir_data@[a]@.id) < id_key(
                    #[trigger] self.dir_data@[b]@.id,
                ) by {
                    if b == old_dirs.len() {
                        assert(id_key(old_dirs[a]@.id) < id_key(rs[i as int]@.id));
                    } else {
                        assert(id_key(old_dirs[a]@.id) < id_key(old_dirs[b]@.id));
                    }
                }
                assert forall|a: int, b: int| 0 <= a < b < self.file_data@.len() implies id_key(#[trigger] self.file_data@[a]@.id) < id_key(
                    #[trigger] self.file_data@[b]@.id,
                ) by {
                    if b == old_files.len() {
                        assert(id_key(old_files[a]@.id) < id_key(rs[i as int]@.id));
                    } else {
                        assert(id_key(old_files[a]@.id) < id_key(old_files[b]@.id));
                    }
                }
                assert forall|j: int| 0 <= j < self.dir_data@.len() implies #[trigger] rs.take(i + 1).contains(self.dir_data@[j])
                    && is_directory_flags(self.dir_data@[j]@.flags) by {
                    if j < old_dirs.len() {
                        assert(rs.take(i as int).contains(old_dirs[j]));
                        let m = choose|m: int| 0 <= m < i && rs.take(i as int)[m] == old_dirs[j];
                        assert(rs.take(i + 1)[m] == old_dirs[j]);
                    } else {
                        assert(rs.take(i + 1)[i as int] == d);
                    }
                }
                assert forall|j: int| 0 <= j < self.file_data@.len() implies #[trigger] rs.take(i + 1).contains(self.file_data@[j])
                    && !is_directory_flags(self.file_data@[j]@.flags) by {
                    if j < old_files.len() {
                        assert(rs.take(i as int).contains(old_files[j]));
                        let m = choose|m: int| 0 <= m < i && rs.take(i as int)[m] == old_files[j];
                        assert(rs.take(i + 1)[m] == old_files[j]);
                    } else {
                        assert(rs.take(i + 1)[i as int] == d);
                    }
                }
                assert forall|k: int| 0 <= k < i + 1 implies if is_directory_flags((#[trigger] rs[k])@.flags) {
                    self.dir_data@.contains(rs[k])
                } else {
                    self.file_data@.contains(rs[k])
                } by {
                    if k < i {
                        if is_directory_flags(rs[k]@.flags) {
                            let m = choose|m: int| 0 <= m < old_dirs.len() && old_dirs[m] == rs[k];
                            assert(self.dir_data@[m] == rs[k]);
                        } else {
                            let m = choose|m: int| 0 <= m < old_files.len() && old_files[m] == rs[k];
                            assert(self.file_data@[m] == rs[k]);
                        }
                    } else {
                        if is_directory_flags(rs[k]@.flags) {
                            assert(self.dir_data@[old_dirs.len() as int] == rs[k]);
                        } else {
                            assert(self.file_data@[old_files.len() as int] == rs[k]);
                        }
                    }
                }
            }
            i = i + 1;
        }
        self.names = table;
        proof {
            let rs = records@;
            assert(rs.take(rs.len() as int) == rs);
            assert forall|j: int| 0 <= j < self.dir_data@.len() implies (#[trigger] self.dir_data@[j])@.name_id < self.names@.len() by {
                assert(rs.contains(self.dir_data@[j]));
            }
            assert forall|j: int| 0 <= j < self.file_data@.len() implies (#[trigger] self.file_data@[j])@.name_id < self.names@.len() by {
                assert(rs.contains(self.file_data@[j]));
            }
            assert forall|j: int| 0 <= j < self.dir_data@.len() implies is_directory_flags((#[trigger] self.dir_data@[j])@.flags) by {
                assert(rs.take(rs.len() as int).contains(self.dir_data@[j]));
            }
            assert forall|j: int| 0 <= j < self.file_data@.len() implies !is_directory_flags((#[trigger] self.file_data@[j])@.flags) by {
                assert(rs.take(rs.len() as int).contains(self.file_data@[j]));
            }
            self.lemma_bulk_views(files@, pre, rs);
            assert(rs.len() == rs.to_multiset().len()) by {
                broadcast use vstd::seq_lib::group_to_multiset_ensures;
            }
            assert(pre.len() == pre.to_multiset().len()) by {
                broadcast use vstd::seq_lib::group_to_multiset_ensures;
            }
            assert(self.all().len() == files@.len());
            assert forall|k: int| 0 <= k < files@.len() implies #[trigger] self.present(files@[k]@.id)
                && self.entry_of(files@[k]@.id) == stored_entity(files@[k]@) by {
                law_bulk_insert_then_get(*self, files@, k);
            }
            assert forall|n: Seq<char>|
                #[trigger] self.name_table().contains(n) <==> exists|k: int|
                    0 <= k < files@.len() && (#[trigger] files@[k])@.name == n by {
                broadcast use vstd::seq_lib::group_to_multiset_ensures;

                if self.name_table().contains(n) {
                    let t = choose|t: int| 0 <= t < self.name_table().len() && self.name_table()[t] == n;
                    assert(has_text(all_names@.take(all_names@.len() as int), table@[t]@));
                    let m = choose|m: int| 0 <= m < all_names@.len() && #[trigger] all_names@.take(all_names@.len() as int)[m]@ == table@[t]@;
                    assert(all_names@.take(all_names@.len() as int)[m] == all_names@[m]);
                    assert(all_names@.contains(all_names@[m]));
                    assert(all_names@.to_multiset().count(all_names@[m]) > 0);
                    assert(unsorted_names.contains(all_names@[m]));
                    let k = choose|k: int| 0 <= k < unsorted_names.len() && unsorted_names[k] == all_names@[m];
                    assert(files@[k]@.name == n);
                }
                if exists|k: int| 0 <= k < files@.len() && (#[trigger] files@[k])@.name == n {
                    let k = choose|k: int| 0 <= k < files@.len() && (#[trigger] files@[k])@.name == n;
                    assert(has_text(table@, files@[k]@.name));
                    let t = choose|t: int| 0 <= t < table@.len() && #[trigger] table@[t]@ == files@[k]@.name;
                    assert(self.name_table()[t] == n);
                }
            }
        }
    }

    proof fn lemma_bulk_views(&self, files: Seq<FileEntity>, pre: Seq<FileData>, rs: Seq<FileData>)
        requires
            self.wf(),
            pre.len() == files.len(),
            forall|k: int|
                0 <= k < files.len() ==> (#[trigger] pre[k])@.name_id < self.names@.len() && stored_file(
                    pre[k]@,
                    self.names@[pre[k]@.name_id as int]@,
                ) == stored_entity(files[k]@),
            forall|x: FileData| #[trigger] rs.contains(x) <==> pre.contains(x),
            forall|j: int| 0 <= j < self.dir_data@.len() ==> #[trigger] rs.contains(self.dir_data@[j]),
            forall|j: int| 0 <= j < self.file_data@.len() ==> #[trigger] rs.contains(self.file_data@[j]),
            forall|j: int| 0 <= j < self.dir_data@.len() ==> is_directory_flags((#[trigger] self.dir_data@[j])@.flags),
            forall|j: int| 0 <= j < self.file_data@.len() ==> !is_directory_flags((#[trigger] self.file_data@[j])@.flags),
            forall|k: int|
                0 <= k < rs.len() ==> if is_directory_flags((#[trigger] rs[k])@.flags) {
                    self.dir_data@.contains(rs[k])
                } else {
                    self.file_data@.contains(rs[k])
                },
        ensures
            forall|e: StoredFile|
                #[trigger] self.dirs().contains(e) <==> exists|k: int|
                    0 <= k < files.len() && is_directory_flags((#[trigger] files[k])@.flags) && e == stored_entity(files[k]@),
            forall|e: StoredFile|
                #[trigger] self.files().contains(e) <==> exists|k: int|
                    0 <= k < files.len() && !is_directory_flags((#[trigger] files[k])@.flags) && e == stored_entity(files[k]@),
    {
        assert forall|e: StoredFile|
            #[trigger] self.dirs().contains(e) <==> exists|k: int|
                0 <= k < files.len() && is_directory_flags((#[trigger] files[k])@.flags) && e == stored_entity(files[k]@) by {
            if self.dirs().contains(e) {
                let j = choose|j: int| 0 <= j < self.dirs().len() && self.dirs()[j] == e;
                let d = self.dir_data@[j];
                assert(rs.contains(d));
                assert(pre.contains(d));
                let k = choose|k: int| 0 <= k < pre.len() && pre[k] == d;
                assert(stored_file(pre[k]@, self.names@[pre[k]@.name_id as int]@) == stored_entity(files[k]@));
                assert(is_directory_flags(files[k]@.flags));
            }
            if exists|k: int| 0 <= k < files.len() && is_directory_flags((#[trigger] files[k])@.flags) && e == stored_entity(files[k]@) {
                let k = choose|k: int| 0 <= k < files.len() && is_directory_flags((#[trigger] files[k])@.flags) && e == stored_entity(files[k]@);
                let d = pre[k];
                assert(stored_file(pre[k]@, self.names@[pre[k]@.name_id as int]@) == stored_entity(files[k]@));
                assert(pre.contains(d));
                assert(rs.contains(d));
                let m = choose|m: int| 0 <= m < rs.len() && rs[m] == d;
                assert(is_directory_flags(rs[m]@.flags));
                assert(self.dir_data@.contains(d));
                let j = choose|j: int| 0 <= j < self.dir_data@.len() && self.dir_data@[j] == d;
                assert(self.dirs()[j] == e);
            }
        }
        assert forall|e: StoredFile|
            #[trigger] self.files().contains(e) <==> exists|k: int|
                0 <= k < files.len() && !is_directory_flags((#[trigger] files[k])@.flags) && e == stored_entity(files[k]@) by {
            if self.files().contains(e) {
                let j = choose|j: int| 0 <= j < self.files().len() && self.files()[j] == e;
                let d = self.file_data@[j];
                assert(rs.contains(d));
                assert(pre.contains(d));
                let k = choose|k: int| 0 <= k < pre.len() && pre[k] == d;
                assert(stored_file(pre[k]@, self.names@[pre[k]@.name_id as int]@) == stored_entity(files[k]@));
                assert(!is_directory_flags(files[k]@.flags));
            }
            if exists|k: int| 0 <= k < files.len() && !is_directory_flags((#[trigger] files[k])@.flags) && e == stored_entity(files[k]@) {
                let k = choose|k: int| 0 <= k < files.len() && !is_directory_flags((#[trigger] files[k])@.flags) && e == stored_entity(files[k]@);
                let d = pre[k];
                assert(stored_file(pre[k]@, self.names@[pre[k]@.name_id as int]@) == stored_entity(files[k]@));
                assert(pre.contains(d));
                assert(rs.contains(d));
                let m = choose|m: int| 0 <= m < rs.len() && rs[m] == d;
                assert(!is_directory_flags(rs[m]@.flags));
                assert(self.file_data@.contains(d));
                let j = choose|j: int| 0 <= j < self.file_data@.len() && self.file_data@[j] == d;
                assert(self.files()[j] == e);
            }
        }
    }

    /// Writes the record `data` with the name `name` into the index: in place
    /// of the entry with the same id among the directories (when `data`'s
    /// flags mark a directory) or the plain files, or as a new entry.
    #[verifier::rlimit(40)]
    #[verifier::spinoff_prover]
    pub fn upsert(&mut self, data: FileData, name: &str)
        requires
            old(self).wf(),
            old(self).name_table().len() < u32::MAX,
        ensures
            final(self).wf(),
            upserted(
                old(self).kind(is_directory_flags(data@.flags)),
                final(self).kind(is_directory_flags(data@.flags)),
                stored_file(data@, name@),
            ),
            final(self).kind(!is_directory_flags(data@.flags)) == old(self).kind(!is_directory_flags(data@.flags)),
            final(self).name_table().len() == old(self).name_table().len() + if old(self).name_table().contains(name@) {
                0int
            } else {
                1int
            },
            forall|n: Seq<char>| #[trigger] final(self).name_table().contains(n) <==> (old(self).name_table().contains(n) || n == name@),
            name_added(old(self).name_table(), final(self).name_table(), name@),
    {
        let ghost old_self = *self;
        let new_name_id = self.upsert_name(name);
        let ghost mid = *self;
        let mut data = data;
        data.set_name_id(new_name_id);
        let ghost e = stored_file(data@, name@);
        if data.is_directory() {
            upsert_data(&mut self.dir_data, data);
        } else {
            upsert_data(&mut self.file_data, data);
        }
        proof {
            assert(mid.stored(data) == e);
            let dir = is_directory_flags(data@.flags);
            let raw_old = if dir { mid.dir_data@ } else { mid.file_data@ };
            let raw_new = if dir { self.dir_data@ } else { self.file_data@ };
            assert(self.names@ == mid.names@);
            assert(forall|i: int| 0 <= i < raw_new.len() ==> (#[trigger] raw_new[i])@.name_id < self.names@.len()) by {
                assert forall|i: int| 0 <= i < raw_new.len() implies (#[trigger] raw_new[i])@.name_id < self.names@.len() by {
                    if exists|k: int| 0 <= k < raw_old.len() && (#[trigger] raw_old[k])@.id == data@.id && raw_new == raw_old.update(k, data) {
                        let k = choose|k: int| 0 <= k < raw_old.len() && (#[trigger] raw_old[k])@.id == data@.id && raw_new == raw_old.update(k, data);
                        if i != k {
                            assert(raw_new[i] == raw_old[i]);
                        }
                    } else {
                        let k = choose|k: int| 0 <= k <= raw_old.len() && raw_new == #[trigger] raw_old.insert(k, data);
                        if i < k {
                            assert(raw_new[i] == raw_old[i]);
                        } else if i > k {
                            assert(raw_new[i] == raw_old[i - 1]);
                        }
                    }
                }
            }
            let s = mid.kind(dir);
            let t = self.kind(dir);
            assert(s == raw_old.map_values(|d: FileData| mid.stored(d)));
            assert(t == raw_new.map_values(|d: FileData| self.stored(d)));
            if exists|k: int| 0 <= k < raw_old.len() && (#[trigger] raw_old[k])@.id == data@.id && raw_new == raw_old.update(k, data) {
                let k = choose|k: int| 0 <= k < raw_old.len() && (#[trigger] raw_old[k])@.id == data@.id && raw_new == raw_old.update(k, data);
                assert(t =~= s.update(k, e));
                assert(s[k].id == e.id);
            } else {
                let k = choose|k: int| 0 <= k <= raw_old.len() && raw_new == #[trigger] raw_old.insert(k, data);
                assert(t =~= s.insert(k, e));
                assert forall|i: int| 0 <= i < s.len() implies #[trigger] s[i].id != e.id by {
                    assert(raw_old[i]@.id != data@.id);
                }
            }
            assert(self.kind(!dir) =~= mid.kind(!dir));
            assert(self.name_table() == mid.name_table());
            if !old_self.name_table().contains(name@) {
                lemma_insert_contains(old_self.name_table(), new_name_id.0 as int, name@);
            }
        }
    }

    /// The entry with id `id`: among the directories when the id is a
    /// directory's, else among the plain files.
    pub fn get(&self, id: FileId) -> (r: StorageItem<'_>)
        requires
            self.wf(),
            has_id(self.kind(is_dir_id(id)), id),
        ensures
            r.data@.id == id,
            forall|i: int|
                0 <= i < self.kind(is_dir_id(id)).len() && #[trigger] self.kind(is_dir_id(id))[i].id == id
                    ==> self.kind(is_dir_id(id))[i] == stored_file(r.data@, r.name@),
            self.entry_of(id) == stored_file(r.data@, r.name@),
            r.data@.name_id < self.name_table().len(),
            self.name_table()[r.data@.name_id as int] == r.name@,
    {
        let dir = match id.f_type() {
            FileType::DIRECTORY => true,
            FileType::FILE => false,
        };
        let files = if dir {
            &self.dir_data
        } else {
            &self.file_data
        };
        proof {
            let k = choose|k: int| 0 <= k < self.kind(dir).len() && #[trigger] self.kind(dir)[k].id == id;
            assert(files@[k]@.id == id);
        }
        match search_key(files, id.key()) {
            Ok(pos) => {
                let data = &files[pos];
                let name = self.names[data.name_id().0 as usize].as_str();
                proof {
                    FileId::lemma_key_injective(files@[pos as int]@.id, id);
                    assert forall|i: int|
                        0 <= i < self.kind(dir).len() && #[trigger] self.kind(dir)[i].id == id
                            implies self.kind(dir)[i] == stored_file(data@, name@) by {
                        if i < pos {
                            assert(id_key(files@[i]@.id) < id_key(files@[pos as int]@.id));
                        } else if i > pos {
                            assert(id_key(files@[pos as int]@.id) < id_key(files@[i]@.id));
                        }
                    }
                }
                proof {
                    let k = self.kind(dir);
                    let c = choose|i: int| 0 <= i < k.len() && #[trigger] k[i].id == id;
                    assert(k[c] == stored_file(data@, name@));
                }
                StorageItem { data, name }
            },
            Err(_) => {
                proof {
                    let k = choose|k: int| 0 <= k < self.kind(dir).len() && #[trigger] self.kind(dir)[k].id == id;
                    FileId::lemma_key_injective(files@[k]@.id, id);
                }
                vstd::pervasive::unreached()
            },
        }
    }

    /// Whether the index holds an entry with id `id`.
    pub fn contains(&self, id: FileId) -> (r: bool)
        requires
            self.wf(),
        ensures
            r == self.present(id),
    {
        let files = match id.f_type() {
            FileType::DIRECTORY => &self.dir_data,
            FileType::FILE => &self.file_data,
        };
        let ghost dir = is_dir_id(id);
        match search_key(files, id.key()) {
            Ok(pos) => {
                proof {
                    FileId::lemma_key_injective(files@[pos as int]@.id, id);
                    assert(self.kind(dir)[pos as int].id == id);
                }
                true
            },
            Err(_) => {
                proof {
                    assert forall|i: int| 0 <= i < self.kind(dir).len() implies #[trigger] self.kind(dir)[i].id != id by {
                        FileId::lemma_key_injective(files@[i]@.id, id);
                    }
                }
                false
            },
        }
    }

    /// Marks the entry with id `id` deleted; an id the index lacks is ignored.
    pub fn delete(&mut self, id: FileId)
        requires
            old(self).wf(),
        ensures
            final(self).wf(),
            final(self).kind(is_dir_id(id)) == marked_deleted(old(self).kind(is_dir_id(id)), id),
            final(self).kind(!is_dir_id(id)) == old(self).kind(!is_dir_id(id)),
            final(self).name_table() == old(self).name_table(),
    {
        let ghost old_self = *self;
        match id.f_type() {
            FileType::DIRECTORY => mark_deleted(&mut self.dir_data, id),
            FileType::FILE => mark_deleted(&mut self.file_data, id),
        }
        proof {
            let dir = is_dir_id(id);
            let raw_old = if dir { old_self.dir_data@ } else { old_self.file_data@ };
            let raw_new = if dir { self.dir_data@ } else { self.file_data@ };
            assert forall|i: int, j: int| 0 <= i < j < raw_new.len() implies id_key(#[trigger] raw_new[i]@.id) < id_key(#[trigger] raw_new[j]@.id) by {
                assert(id_key(raw_old[i]@.id) < id_key(raw_old[j]@.id));
            }
            assert forall|i: int| 0 <= i < raw_new.len() implies (#[trigger] raw_new[i])@.name_id < self.names@.len() by {
                assert(raw_old[i]@.name_id < self.names@.len());
            }
            assert(self.kind(dir) =~= marked_deleted(old_self.kind(dir), id));
            assert(self.kind(!dir) =~= old_self.kind(!dir));
            assert(self.name_table() =~= old_self.name_table());
        }
    }

    /// Lists the entries: directories first, then plain files, each in order of id.
    pub fn iter(&self) -> (r: StorageIter<'_>)
        requires
            self.wf(),
        ensures
            r.wf(),
            r.storage() == *self,
            r.remaining() == self.all(),
    {
        let r = StorageIter { storage: self, dir_pos: 0, file_pos: 0 };
        proof {
            assert(self.all().skip(0) =~= self.all());
        }
        r
    }

    /// Adds `name` to the table unless it is there already, keeping the
    /// records' names; returns the name's position.
    fn upsert_name(&mut self, name: &str) -> (r: NameId)
        requires
            old(self).wf(),
            old(self).names@.len() < u32::MAX,
        ensures
            final(self).wf(),
            r.0 <= old(self).name_table().len(),
            r.0 < final(self).name_table().len(),
            final(self).name_table()[r.0 as int] == name@,
            final(self).name_table() == if old(self).name_table().contains(name@) {
                old(self).name_table()
            } else {
                old(self).name_table().insert(r.0 as int, name@)
            },
            final(self).dirs() == old(self).dirs(),
            final(self).files() == old(self).files(),
    {
        let ghost old_self = *self;
        match search_name(&self.names, name) {
            Ok(pos) => {
                proof {
                    assert(old_self.name_table()[pos as int] == name@);
                }
                NameId(pos as u32)
            },
            Err(pos) => {
                proof {
                    assert forall|j: int| 0 <= j < old_self.names@.len() implies #[trigger] old_self.name_table()[j] != name@ by {
                        lemma_text_order(name@, name@, name@);
                        if j < pos {
                            assert(text_lt(old_self.names@[j]@, name@));
                        } else {
                            assert(text_lt(name@, old_self.names@[j]@));
                        }
                    }
                }
                self.names.insert(pos, name.to_owned());
                let new = NameId(pos as u32);
                update_file_name_ids(&mut self.dir_data, pos as u32);
                update_file_name_ids(&mut self.file_data, pos as u32);
                proof {
                    let on = old_self.names@;
                    let nn = self.names@;
                    assert(nn == on.insert(pos as int, nn[pos as int]));
                    assert forall|i: int, j: int| 0 <= i < j < nn.len() implies text_lt(#[trigger] nn[i]@, #[trigger] nn[j]@) by {
                        if j < pos {
                            assert(text_lt(on[i]@, on[j]@));
                        } else if j == pos {
                        } else if i < pos {
                            assert(text_lt(on[i]@, name@));
                            assert(text_lt(name@, on[j - 1]@));
                            lemma_text_order(on[i]@, name@, on[j - 1]@);
                        } else if i == pos {
                            assert(text_lt(name@, on[j - 1]@));
                        } else {
                            assert(text_lt(on[i - 1]@, on[j - 1]@));
                        }
                    }
                    assert forall|i: int, j: int| 0 <= i < j < self.dir_data@.len() implies id_key(#[trigger] self.dir_data@[i]@.id) < id_key(#[trigger] self.dir_data@[j]@.id) by {
                        assert(id_key(old_self.dir_data@[i]@.id) < id_key(old_self.dir_data@[j]@.id));
                    }
                    assert forall|i: int, j: int| 0 <= i < j < self.file_data@.len() implies id_key(#[trigger] self.file_data@[i]@.id) < id_key(#[trigger] self.file_data@[j]@.id) by {
                        assert(id_key(old_self.file_data@[i]@.id) < id_key(old_self.file_data@[j]@.id));
                    }
                    assert forall|i: int| 0 <= i < self.dir_data@.len() implies (#[trigger] self.dir_data@[i]@).name_id < nn.len() by {
                        assert(old_self.dir_data@[i]@.name_id < on.len());
                    }
                    assert forall|i: int| 0 <= i < self.file_data@.len() implies (#[trigger] self.file_data@[i]@).name_id < nn.len() by {
                        assert(old_self.file_data@[i]@.name_id < on.len());
                    }
                    assert(self.dirs() =~= old_self.dirs()) by {
                        assert forall|i: int| 0 <= i < self.dir_data@.len() implies #[trigger] self.dirs()[i] == old_self.dirs()[i] by {
                            let d = old_self.dir_data@[i]@;
                            assert(d.name_id < on.len());
                        }
                    }
                    assert(self.files() =~= old_self.files()) by {
                        assert forall|i: int| 0 <= i < self.file_data@.len() implies #[trigger] self.files()[i] == old_self.files()[i] by {
                            let d = old_self.file_data@[i]@;
                            assert(d.name_id < on.len());
                        }
                    }
                    assert(self.name_table() =~= old_self.name_table().insert(pos as int, name@));
                }
                new
            },
        }
    }
}

/// A text is in a table with `x` inserted exactly when it was in the table or is `x`.
proof fn lemma_insert_contains(ot: Seq<Seq<char>>, p: int, x: Seq<char>)
    requires
        0 <= p <= ot.len(),
    ensures
        forall|n: Seq<char>| #[trigger] ot.insert(p, x).contains(n) <==> (ot.contains(n) || n == x),
{
    let t = ot.insert(p, x);
    assert forall|n: Seq<char>| #[trigger] t.contains(n) <==> (ot.contains(n) || n == x) by {
        if t.contains(n) {
            let k = choose|k: int| 0 <= k < t.len() && t[k] == n;
            if k < p {
                assert(ot[k] == n);
            } else if k > p {
                assert(ot[k - 1] == n);
            }
        }
        if ot.contains(n) {
            let k = choose|k: int| 0 <= k < ot.len() && ot[k] == n;
            if k < p {
                assert(t[k] == n);
            } else {
                assert(t[k + 1] == n);
            }
        }
        if n == x {
            assert(t[p] == n);
        }
    }
}

/// Walks the entries of the index in listing order.
pub struct StorageIter<'a> {
    storage: &'a Storage,
    dir_pos: usize,
    file_pos: usize,
}

impl<'a> StorageIter<'a> {
    pub closed spec fn storage(&self) -> Storage {
        *self.storage
    }

    pub closed spec fn pos(&self) -> int {
        self.dir_pos + self.file_pos
    }

    pub closed spec fn wf(&self) -> bool {
        &&& self.storage.wf()
        &&& self.dir_pos <= self.storage.dir_data@.len()
        &&& self.file_pos <= self.storage.file_data@.len()
        &&& self.file_pos > 0 ==> self.dir_pos == self.storage.dir_data@.len()
    }

    /// The entries not yet handed out.
    pub open spec fn remaining(&self) -> Seq<StoredFile> {
        self.storage().all().skip(self.pos())
    }

    /// The next entry, if any is left.
    pub fn next(&mut self) -> (r: Option<StorageItem<'a>>)
        requires
            old(self).wf(),
        ensures
            final(self).wf(),
            final(self).storage() == old(self).storage(),
            match r {
                None => old(self).remaining().len() == 0 && final(self).remaining() == old(self).remaining(),
                Some(item) => {
                    &&& old(self).remaining().len() > 0
                    &&& stored_file(item.data@, item.name@) == old(self).remaining()[0]
                    &&& item.data@.name_id < old(self).storage().name_table().len()
                    &&& old(self).storage().name_table()[item.data@.name_id as int] == item.name@
                    &&& final(self).remaining() == old(self).remaining().drop_first()
                },
            },
    {
        if self.dir_pos < self.storage.dir_data.len() {
            let data = &self.storage.dir_data[self.dir_pos];
            let name = self.storage.names[data.name_id().0 as usize].as_str();
            self.dir_pos = self.dir_pos + 1;
            proof {
                assert(self.remaining() =~= old(self).remaining().drop_first());
            }
            Some(StorageItem { data, name })
        } else if self.file_pos < self.storage.file_data.len() {
            let data = &self.storage.file_data[self.file_pos];
            let name = self.storage.names[data.name_id().0 as usize].as_str();
            self.file_pos = self.file_pos + 1;
            proof {
                assert(self.remaining() =~= old(self).remaining().drop_first());
            }
            Some(StorageItem { data, name })
        } else {
            None
        }
    }
}

/// Finds the position of the record with key `k`, or where it would go.
fn search_key(v: &Vec<FileData>, k: u64) -> (r: Result<usize, usize>)
    requires
        data_sorted(v@),
    ensures
        match r {
            Ok(i) => i < v@.len() && id_key(v@[i as int]@.id) == k,
            Err(i) => {
                &&& i <= v@.len()
                &&& forall|j: int| 0 <= j < i ==> id_key(#[trigger] v@[j]@.id) < k
                &&& forall|j: int| i <= j < v@.len() ==> k < id_key(#[trigger] v@[j]@.id)
            },
        },
{
    let mut lo: usize = 0;
    let mut hi: usize = v.len();
    while lo < hi
        invariant
            data_sorted(v@),
            lo <= hi <= v@.len(),
            forall|j: int| 0 <= j < lo ==> id_key(#[trigger] v@[j]@.id) < k,
            forall|j: int| hi <= j < v@.len() ==> k < id_key(#[trigger] v@[j]@.id),
        decreases hi - lo,
    {
        let mid = lo + (hi - lo) / 2;
        let mk = v[mid].id().key();
        if mk == k {
            return Ok(mid);
        } else if mk < k {
            proof {
                assert forall|j: int| 0 <= j < mid + 1 implies id_key(#[trigger] v@[j]@.id) < k by {
                    if j < mid {
                        assert(id_key(v@[j]@.id) < id_key(v@[mid as int]@.id));
                    }
                }
            }
            lo = mid + 1;
        } else {
            proof {
                assert forall|j: int| mid <= j < v@.len() implies k < id_key(#[trigger] v@[j]@.id) by {
                    if j > mid {
                        assert(id_key(v@[mid as int]@.id) < id_key(v@[j]@.id));
                    }
                }
            }
            hi = mid;
        }
    }
    Err(lo)
}

/// Finds the position of `name` in the sorted table, or where it would go.
fn search_name(names: &Vec<String>, name: &str) -> (r: Result<usize, usize>)
    requires
        names_sorted(names@),
    ensures
        match r {
            Ok(i) => i < names@.len() && names@[i as int]@ == name@,
            Err(i) => {
                &&& i <= names@.len()
                &&& forall|j: int| 0 <= j < i ==> text_lt(#[trigger] names@[j]@, name@)
                &&& forall|j: int| i <= j < names@.len() ==> text_lt(name@, #[trigger] names@[j]@)
            },
        },
{
    let mut lo: usize = 0;
    let mut hi: usize = names.len();
    while lo < hi
        invariant
            names_sorted(names@),
            lo <= hi <= names@.len(),
            forall|j: int| 0 <= j < lo ==> text_lt(#[trigger] names@[j]@, name@),
            forall|j: int| hi <= j < names@.len() ==> text_lt(name@, #[trigger] names@[j]@),
        decreases hi - lo,
    {
        let mid = lo + (hi - lo) / 2;
        let c = compare_text(names[mid].as_str(), name);
        match c {
            Rank::Same => {
                return Ok(mid);
            },
            Rank::Before => {
                proof {
                    assert forall|j: int| 0 <= j < mid + 1 implies text_lt(#[trigger] names@[j]@, name@) by {
                        if j < mid {
                            lemma_text_order(names@[j]@, names@[mid as int]@, name@);
                        }
                    }
                }
                lo = mid + 1;
            },
            Rank::After => {
                proof {
                    assert forall|j: int| mid <= j < names@.len() implies text_lt(name@, #[trigger] names@[j]@) by {
                        if j > mid {
                            lemma_text_order(name@, names@[mid as int]@, names@[j]@);
                        }
                    }
                }
                hi = mid;
            },
        }
    }
    Err(lo)
}

/// Writes `d` into the sorted records: in place of the record with the same id,
/// or as a new record at its place in the order.
fn upsert_data(v: &mut Vec<FileData>, d: FileData)
    requires
        data_sorted(old(v)@),
    ensures
        data_sorted(final(v)@),
        (exists|i: int| 0 <= i < old(v)@.len() && (#[trigger] old(v)@[i])@.id == d@.id && final(v)@ == old(v)@.update(i, d))
            || ((forall|i: int| 0 <= i < old(v)@.len() ==> (#[trigger] old(v)@[i])@.id != d@.id)
                && exists|i: int| 0 <= i <= old(v)@.len() && final(v)@ == #[trigger] old(v)@.insert(i, d)),
{
    let ghost orig = v@;
    match search_key(v, d.id().key()) {
        Ok(pos) => {
            proof {
                FileId::lemma_key_injective(orig[pos as int]@.id, d@.id);
            }
            v.set(pos, d);
            proof {
                assert(v@ == orig.update(pos as int, d));
                assert forall|i: int, j: int| 0 <= i < j < v@.len() implies id_key(#[trigger] v@[i]@.id) < id_key(#[trigger] v@[j]@.id) by {
                    assert(id_key(orig[i]@.id) < id_key(orig[j]@.id));
                }
            }
        },
        Err(pos) => {
            v.insert(pos, d);
            proof {
                assert forall|i: int| 0 <= i < orig.len() implies (#[trigger] orig[i])@.id != d@.id by {
                    FileId::lemma_key_injective(orig[i]@.id, d@.id);
                }
                assert forall|i: int, j: int| 0 <= i < j < v@.len() implies id_key(#[trigger] v@[i]@.id) < id_key(#[trigger] v@[j]@.id) by {
                    if j < pos {
                        assert(id_key(orig[i]@.id) < id_key(orig[j]@.id));
                    } else if j == pos {
                        assert(id_key(orig[i]@.id) < id_key(d@.id));
                    } else if i < pos {
                        assert(id_key(orig[i]@.id) < id_key(orig[j - 1]@.id));
                    } else if i == pos {
                        assert(id_key(orig[j - 1]@.id) > id_key(d@.id));
                    } else {
                        assert(id_key(orig[i - 1]@.id) < id_key(orig[j - 1]@.id));
                    }
                }
            }
        },
    }
}

/// Marks the record with id `id` deleted, if there is one.
fn mark_deleted(v: &mut Vec<FileData>, id: FileId)
    requires
        data_sorted(old(v)@),
    ensures
        final(v)@.len() == old(v)@.len(),
        forall|i: int| 0 <= i < old(v)@.len() ==> (#[trigger] final(v)@[i])@ == if old(v)@[i]@.id == id {
            FileDataView { deleted: true, ..old(v)@[i]@ }
        } else {
            old(v)@[i]@
        },
{
    let ghost orig = v@;
    match search_key(v, id.key()) {
        Ok(pos) => {
            let mut d = v[pos];
            d.set_deleted(true);
            v.set(pos, d);
            proof {
                FileId::lemma_key_injective(orig[pos as int]@.id, id);
                assert forall|i: int| 0 <= i < orig.len() && i != pos implies (#[trigger] orig[i])@.id != id by {
                    if i < pos {
                        assert(id_key(orig[i]@.id) < id_key(orig[pos as int]@.id));
                    } else {
                        assert(id_key(orig[pos as int]@.id) < id_key(orig[i]@.id));
                    }
                }
            }
        },
        Err(_) => {
            proof {
                assert forall|i: int| 0 <= i < orig.len() implies (#[trigger] orig[i])@.id != id by {
                    FileId::lemma_key_injective(orig[i]@.id, id);
                }
            }
        },
    }
}

/// The names of the received files, in order.
fn collect_names(files: &Vec<FileEntity>) -> (r: Vec<String>)
    ensures
        r@.len() == files@.len(),
        forall|k: int| 0 <= k < files@.len() ==> (#[trigger] r@[k])@ == files@[k]@.name,
        forall|k: int| 0 <= k < files@.len() ==> id_agrees(#[trigger] files@[k]@),
{
    let mut r: Vec<String> = Vec::new();
    let mut i: usize = 0;
    while i < files.len()
        invariant
            0 <= i <= files@.len(),
            r@.len() == i,
            forall|k: int| 0 <= k < i ==> (#[trigger] r@[k])@ == files@[k]@.name,
            forall|k: int| 0 <= k < i ==> id_agrees(#[trigger] files@[k]@),
        decreases files@.len() - i,
    {
        let f = &files[i];
        proof {
            use_type_invariant(f);
        }
        r.push(f.name().to_owned());
        i = i + 1;
    }
    r
}

/// Sorts names by their bytes (`String`'s order).
#[verifier::external_body]
fn sort_texts(v: &mut Vec<String>)
    ensures
        final(v)@.to_multiset() == old(v)@.to_multiset(),
        names_ascending(final(v)@),
{
    v.sort();
}

/// The key records are sorted by: that of their ids.
fn sort_key(f: &FileData) -> (r: u64)
    ensures
        r == id_key(f@.id),
{
    f.id().key()
}

/// Sorts records by the key of their ids.
#[verifier::external_body]
fn sort_by_id(v: &mut Vec<FileData>)
    ensures
        final(v)@.to_multiset() == old(v)@.to_multiset(),
        forall|i: int, j: int| 0 <= i < j < final(v)@.len() ==> id_key(#[trigger] final(v)@[i]@.id) <= id_key(#[trigger] final(v)@[j]@.id),
{
    v.sort_unstable_by_key(|f: &FileData| sort_key(f));
}

/// `v`'s names are in order, repeats allowed.
pub open spec fn names_ascending(v: Seq<String>) -> bool {
    forall|i: int, j: int| 0 <= i < j < v.len() ==> !text_lt(#[trigger] v[j]@, #[trigger] v[i]@)
}

/// Some entry of `r` is the name `x`.
pub open spec fn has_text(r: Seq<String>, x: Seq<char>) -> bool {
    exists|t: int| 0 <= t < r.len() && #[trigger] r[t]@ == x
}

/// Every name of `v[..n]` is a name of `r`.
pub open spec fn covers(r: Seq<String>, v: Seq<String>, n: int) -> bool {
    forall|k: int| 0 <= k < n ==> #[trigger] has_text(r, v[k]@)
}

/// Every name of `r` is a name of `v[..n]`.
pub open spec fn drawn_from(r: Seq<String>, v: Seq<String>, n: int) -> bool {
    forall|t: int| 0 <= t < r.len() ==> #[trigger] has_text(v.take(n), r[t]@)
}

proof fn lemma_dedup_keep(old_r: Seq<String>, r: Seq<String>, v: Seq<String>, i: int)
    requires
        0 <= i < v.len(),
        names_ascending(v),
        names_sorted(old_r),
        i > 0 ==> old_r.len() > 0 && old_r[old_r.len() - 1]@ == v[i - 1]@,
        i > 0 ==> old_r[old_r.len() - 1]@ != v[i]@,
        i == 0 ==> old_r.len() == 0,
        covers(old_r, v, i),
        drawn_from(old_r, v, i),
        r == old_r.push(v[i]),
    ensures
        names_sorted(r),
        covers(r, v, i + 1),
        drawn_from(r, v, i + 1),
{
    if i > 0 {
        let last = old_r[old_r.len() - 1]@;
        assert(!text_lt(v[i]@, v[i - 1]@));
        lemma_text_order(last, v[i]@, v[i]@);
        assert(text_lt(last, v[i]@));
        assert forall|a: int, b: int| 0 <= a < b < r.len() implies text_lt(#[trigger] r[a]@, #[trigger] r[b]@) by {
            if b == r.len() - 1 {
                if a < old_r.len() - 1 {
                    assert(text_lt(old_r[a]@, last));
                    lemma_text_order(old_r[a]@, last, v[i]@);
                }
            } else {
                assert(text_lt(old_r[a]@, old_r[b]@));
            }
        }
    }
    assert forall|k: int| 0 <= k < i + 1 implies #[trigger] has_text(r, v[k]@) by {
        if k < i {
            assert(has_text(old_r, v[k]@));
            let t = choose|t: int| 0 <= t < old_r.len() && #[trigger] old_r[t]@ == v[k]@;
            assert(r[t] == old_r[t]);
        } else {
            assert(r[r.len() - 1]@ == v[k]@);
        }
    }
    assert forall|t: int| 0 <= t < r.len() implies #[trigger] has_text(v.take(i + 1), r[t]@) by {
        if t < old_r.len() {
            assert(r[t] == old_r[t]);
            assert(has_text(v.take(i), old_r[t]@));
            let k = choose|k: int| 0 <= k < i && #[trigger] v.take(i)[k]@ == old_r[t]@;
            assert(v.take(i + 1)[k] == v.take(i)[k]);
        } else {
            assert(v.take(i + 1)[i]@ == r[t]@);
        }
    }
}

proof fn lemma_dedup_skip(r: Seq<String>, v: Seq<String>, i: int)
    requires
        0 < i < v.len(),
        r.len() > 0,
        r[r.len() - 1]@ == v[i]@,
        covers(r, v, i),
        drawn_from(r, v, i),
    ensures
        covers(r, v, i + 1),
        drawn_from(r, v, i + 1),
{
    assert forall|k: int| 0 <= k < i + 1 implies #[trigger] has_text(r, v[k]@) by {
        if k == i {
            assert(r[r.len() - 1]@ == v[k]@);
        }
    }
    assert forall|t: int| 0 <= t < r.len() implies #[trigger] has_text(v.take(i + 1), r[t]@) by {
        assert(has_text(v.take(i), r[t]@));
        let k = choose|k: int| 0 <= k < i && #[trigger] v.take(i)[k]@ == r[t]@;
        assert(v.take(i + 1)[k] == v.take(i)[k]);
    }
}

/// The distinct names of a sorted list, once each.
fn dedup_sorted(v: &Vec<String>) -> (r: Vec<String>)
    requires
        names_ascending(v@),
    ensures
        names_sorted(r@),
        r@.len() <= v@.len(),
        covers(r@, v@, v@.len() as int),
        drawn_from(r@, v@, v@.len() as int),
{
    let mut r: Vec<String> = Vec::new();
    let mut i: usize = 0;
    while i < v.len()
        invariant
            0 <= i <= v@.len(),
            names_ascending(v@),
            names_sorted(r@),
            r@.len() <= i,
            i > 0 ==> r@.len() > 0 && r@[r@.len() - 1]@ == v@[i - 1]@,
            covers(r@, v@, i as int),
            drawn_from(r@, v@, i as int),
        decreases v@.len() - i,
    {
        let keep = if r.len() == 0 {
            true
        } else {
            match compare_text(r[r.len() - 1].as_str(), v[i].as_str()) {
                Rank::Same => false,
                _ => true,
            }
        };
        let ghost old_r = r@;
        if keep {
            r.push(v[i].clone());
            proof {
                lemma_dedup_keep(old_r, r@, v@, i as int);
            }
        } else {
            proof {
                lemma_dedup_skip(r@, v@, i as int);
            }
        }
        i = i + 1;
    }
    r
}

/// Records for the received files, each referring to its name in `table`.
fn records_with_names(files: &Vec<FileEntity>, table: &Vec<String>) -> (r: Vec<FileData>)
    requires
        names_sorted(table@),
        table@.len() <= u32::MAX,
        forall|k: int| 0 <= k < files@.len() ==> #[trigger] has_text(table@, files@[k]@.name),
    ensures
        r@.len() == files@.len(),
        forall|k: int|
            0 <= k < files@.len() ==> (#[trigger] r@[k])@.name_id < table@.len() && stored_file(
                r@[k]@,
                table@[r@[k]@.name_id as int]@,
            ) == stored_entity(files@[k]@),
{
    let mut r: Vec<FileData> = Vec::new();
    let mut i: usize = 0;
    while i < files.len()
        invariant
            0 <= i <= files@.len(),
            names_sorted(table@),
            table@.len() <= u32::MAX,
            forall|k: int| 0 <= k < files@.len() ==> #[trigger] has_text(table@, files@[k]@.name),
            r@.len() == i,
            forall|k: int|
                0 <= k < i ==> (#[trigger] r@[k])@.name_id < table@.len() && stored_file(
                    r@[k]@,
                    table@[r@[k]@.name_id as int]@,
                ) == stored_entity(files@[k]@),
        decreases files@.len() - i,
    {
        let f = &files[i];
        match search_name(table, f.name()) {
            Ok(pos) => {
                let mut d = FileData::from_entity(f);
                d.set_name_id(NameId(pos as u32));
                r.push(d);
                proof {
                    assert(r@[i as int] == d);
                }
            },
            Err(pos) => {
                proof {
                    assert(has_text(table@, f@.name));
                    let t = choose|t: int| 0 <= t < table@.len() && #[trigger] table@[t]@ == f@.name;
                    lemma_text_order(f@.name, f@.name, f@.name);
                    if t < pos {
                        assert(text_lt(table@[t]@, f@.name));
                    } else {
                        assert(text_lt(f@.name, table@[t]@));
                    }
                }
                vstd::pervasive::unreached()
            },
        }
        i = i + 1;
    }
    r
}

/// The ids of `s` are distinct.
pub open spec fn distinct_ids(s: Seq<FileData>) -> bool {
    forall|i: int, j: int| 0 <= i < j < s.len() ==> (#[trigger] s[i])@.id != (#[trigger] s[j])@.id
}

/// Sorting records with distinct ids sorts them strictly and keeps them all.
proof fn lemma_sorted_distinct(pre: Seq<FileData>, sorted: Seq<FileData>)
    requires
        distinct_ids(pre),
        sorted.to_multiset() == pre.to_multiset(),
        forall|i: int, j: int| 0 <= i < j < sorted.len() ==> id_key(#[trigger] sorted[i]@.id) <= id_key(#[trigger] sorted[j]@.id),
    ensures
        data_sorted(sorted),
        sorted.len() == pre.len(),
        forall|x: FileData| #[trigger] sorted.contains(x) <==> pre.contains(x),
{
    broadcast use vstd::seq_lib::group_to_multiset_ensures;

    assert(pre.no_duplicates()) by {
        assert forall|i: int, j: int| 0 <= i < pre.len() && 0 <= j < pre.len() && i != j implies pre[i] != pre[j] by {
            if i < j {
                assert(pre[i]@.id != pre[j]@.id);
            } else {
                assert(pre[j]@.id != pre[i]@.id);
            }
        }
    }
    pre.lemma_multiset_has_no_duplicates();
    sorted.lemma_multiset_has_no_duplicates_conv();
    assert(sorted.len() == sorted.to_multiset().len());
    assert(pre.len() == pre.to_multiset().len());
    assert forall|x: FileData| #[trigger] sorted.contains(x) <==> pre.contains(x) by {
        assert(sorted.contains(x) <==> sorted.to_multiset().count(x) > 0);
        assert(pre.contains(x) <==> pre.to_multiset().count(x) > 0);
    }
    assert forall|i: int, j: int| 0 <= i < j < sorted.len() implies id_key(#[trigger] sorted[i]@.id) < id_key(#[trigger] sorted[j]@.id) by {
        if id_key(sorted[i]@.id) == id_key(sorted[j]@.id) {
            FileId::lemma_key_injective(sorted[i]@.id, sorted[j]@.id);
            assert(sorted.contains(sorted[i]));
            assert(sorted.contains(sorted[j]));
            let m1 = choose|m: int| 0 <= m < pre.len() && pre[m] == sorted[i];
            let m2 = choose|m: int| 0 <= m < pre.len() && pre[m] == sorted[j];
            if m1 < m2 {
                assert(pre[m1]@.id != pre[m2]@.id);
            } else if m2 < m1 {
                assert(pre[m2]@.id != pre[m1]@.id);
            }
        }
    }
}

/// Record `d` after the name at position `from` has been inserted into the table.
pub open spec fn shifted(d: FileDataView, from: u32) -> FileDataView {
    if d.name_id >= from {
        FileDataView { name_id: (d.name_id + 1) as u32, ..d }
    } else {
        d
    }
}

/// Moves every name id at or after `from` one place on.
fn update_file_name_ids(v: &mut Vec<FileData>, from: u32)
    requires
        forall|i: int| 0 <= i < old(v)@.len() ==> (#[trigger] old(v)@[i]@).name_id < u32::MAX,
    ensures
        final(v)@.len() == old(v)@.len(),
        forall|i: int| 0 <= i < old(v)@.len() ==> (#[trigger] final(v)@[i])@ == shifted(old(v)@[i]@, from),
{
    let ghost orig = v@;
    let mut i: usize = 0;
    while i < v.len()
        invariant
            v@.len() == orig.len(),
            0 <= i <= orig.len(),
            forall|j: int| 0 <= j < orig.len() ==> (#[trigger] orig[j]@).name_id < u32::MAX,
            forall|j: int| 0 <= j < i ==> (#[trigger] v@[j])@ == shifted(orig[j]@, from),
            forall|j: int| i <= j < orig.len() ==> #[trigger] v@[j] == orig[j],
        decreases orig.len() - i,
    {
        let mut d = v[i];
        let old_id = d.name_id().0;
        if old_id >= from {
            d.set_name_id(NameId(old_id + 1));
            v.set(i, d);
        }
        i = i + 1;
    }
}

} // verus!
