use vstd::prelude::*;

use crate::file_entity::{dir_id, file_id, id_agrees, is_directory_flags, lemma_id_parts, FileEntity, FileEntityView, FileId, DIRECTORY_FLAG};
use crate::storage::{name_added, stored_entity, stored_file, upserted, is_dir_id, marked_deleted, Storage, StorageItem, StoredFile};
use crate::text::{contains_text, find_str};
use crate::usn_record::UsnChange;
use crate::laws::law_upsert_then_get;

verus! {

/// The position of a name in the index's sorted table of names.
#[derive(Clone, Copy, Debug, PartialEq, Eq, Structural)]
pub struct NameId(pub u32);

/// What a stored file record holds.
pub struct FileDataView {
    pub id: FileId,
    pub parent_id: FileId,
    pub name_id: u32,
    pub size: i64,
    pub flags: u16,
    pub deleted: bool,
}

/// A file as the index stores it; its name is kept apart, in the name table.
#[derive(Clone, Copy, Debug)]
pub struct FileData {
    id: FileId,
    parent_id: FileId,
    name_id: NameId,
    size: i64,
    flags: u16,
    deleted: bool,
}

impl View for FileData {
    type V = FileDataView;

    closed spec fn view(&self) -> FileDataView {
        FileDataView {
            id: self.id,
            parent_id: self.parent_id,
            name_id: self.name_id.0,
            size: self.size,
            flags: self.flags,
            deleted: self.deleted,
        }
    }
}

/// The record the index keeps for a received file, before it is given a name id.
pub open spec fn data_of_entity(f: FileEntityView) -> FileDataView {
    FileDataView {
        id: f.id,
        parent_id: f.parent_id,
        name_id: 0,
        size: f.size,
        flags: f.flags,
        deleted: false,
    }
}

impl FileData {
    pub fn new(id: FileId, parent_id: FileId, size: i64, flags: u16, deleted: bool) -> (r: FileData)
        ensures
            r@ == (FileDataView { id, parent_id, name_id: 0, size, flags, deleted }),
    {
        FileData { id, parent_id, size, flags, deleted, name_id: NameId(0) }
    }

    /// The record kept for a received file.
    pub fn from_entity(f: &FileEntity) -> (r: FileData)
        ensures
            r@ == data_of_entity(f@),
            id_agrees(f@),
    {
        FileData {
            parent_id: f.parent_id(),
            size: f.size(),
            id: f.id(),
            flags: f.flags(),
            deleted: false,
            name_id: NameId(0),
        }
    }

    pub fn set_name_id(&mut self, name_id: NameId)
        ensures
            final(self)@ == (FileDataView { name_id: name_id.0, ..old(self)@ }),
    {
        self.name_id = name_id;
    }

    pub fn set_deleted(&mut self, deleted: bool)
        ensures
            final(self)@ == (FileDataView { deleted, ..old(self)@ }),
    {
        self.deleted = deleted;
    }

    pub fn deleted(&self) -> (r: bool)
        ensures
            r == self@.deleted,
    {
        self.deleted
    }

    pub fn name_id(&self) -> (r: NameId)
        ensures
            r.0 == self@.name_id,
    {
        self.name_id
    }

    pub fn id(&self) -> (r: FileId)
        ensures
            r == self@.id,
    {
        self.id
    }

    pub fn parent_id(&self) -> (r: FileId)
        ensures
            r == self@.parent_id,
    {
        self.parent_id
    }

    pub fn size(&self) -> (r: i64)
        ensures
            r == self@.size,
    {
        self.size
    }

    pub fn flags(&self) -> (r: u16)
        ensures
            r == self@.flags,
    {
        self.flags
    }

    /// A file is the root when it is its own parent.
    pub fn is_root(&self) -> (r: bool)
        ensures
            r == (self@.parent_id == self@.id),
    {
        self.parent_id == self.id
    }

    pub fn is_directory(&self) -> (r: bool)
        ensures
            r == is_directory_flags(self@.flags),
    {
        self.flags & DIRECTORY_FLAG != 0
    }
}

/// Whether following parent links from an entry with id `id` and parent
/// `parent`, at most `fuel` times, reaches a root (an entry that is its own
/// parent), every link leading to an entry of the index.
pub open spec fn reaches_root(s: Storage, id: FileId, parent: FileId, fuel: nat) -> bool
    decreases fuel,
{
    if parent == id {
        true
    } else if fuel == 0 {
        false
    } else {
        s.present(parent) && reaches_root(s, parent, s.entry_of(parent).parent_id, (fuel - 1) as nat)
    }
}

/// The names of the directories above an entry with id `id` and parent
/// `parent`, the topmost first, following at most `fuel` parent links.
pub open spec fn ancestor_names(s: Storage, id: FileId, parent: FileId, fuel: nat) -> Seq<Seq<char>>
    decreases fuel,
{
    if parent == id || fuel == 0 {
        seq![]
    } else {
        ancestor_names(s, parent, s.entry_of(parent).parent_id, (fuel - 1) as nat).push(s.entry_of(parent).name)
    }
}

/// The names, each followed by the separator.
pub open spec fn path_text(names: Seq<Seq<char>>, sep: Seq<char>) -> Seq<char>
    decreases names.len(),
{
    if names.len() == 0 {
        seq![]
    } else {
        path_text(names.drop_last(), sep) + names.last() + sep
    }
}

/// The ids of the entries of `s` whose names contain `n`, in order.
pub open spec fn matching_ids(s: Seq<StoredFile>, n: Seq<char>) -> Seq<FileId>
    decreases s.len(),
{
    if s.len() == 0 {
        seq![]
    } else if contains_text(s.last().name, n) {
        matching_ids(s.drop_last(), n).push(s.last().id)
    } else {
        matching_ids(s.drop_last(), n)
    }
}

/// The path of an entry that is not a root is the path of its parent,
/// followed by the parent's name and the separator.
pub proof fn law_path_extends_parent(files: Files, id: FileId, parent: FileId)
    requires
        parent != id,
        exists|n: nat| reaches_root(files.index(), id, parent, n),
    ensures
        files.path_spec(id, parent) == files.path_spec(parent, files.index().entry_of(parent).parent_id)
            + files.index().entry_of(parent).name + "\\"@,
{
    let s = files.index();
    let e = s.entry_of(parent);
    let f = choose|n: nat| reaches_root(s, id, parent, n);
    assert(reaches_root(s, parent, e.parent_id, (f - 1) as nat));
    let g = choose|n: nat| reaches_root(s, parent, e.parent_id, n);
    lemma_ancestor_names_fuel(s, parent, e.parent_id, (f - 1) as nat, g);
    let names = ancestor_names(s, parent, e.parent_id, (f - 1) as nat);
    assert(ancestor_names(s, id, parent, f) == names.push(e.name));
    assert(names.push(e.name).drop_last() =~= names);
}

/// A search finds an id exactly when an entry with that id has a name
/// containing the query.
pub proof fn law_search_finds_matching(s: Seq<StoredFile>, n: Seq<char>)
    ensures
        forall|x: FileId| #[trigger] matching_ids(s, n).contains(x) <==> exists|i: int|
            0 <= i < s.len() && (#[trigger] s[i]).id == x && contains_text(s[i].name, n),
    decreases s.len(),
{
    if s.len() > 0 {
        let t = s.drop_last();
        law_search_finds_matching(t, n);
        assert forall|x: FileId| #[trigger] matching_ids(s, n).contains(x) <==> exists|i: int|
            0 <= i < s.len() && (#[trigger] s[i]).id == x && contains_text(s[i].name, n) by {
            if matching_ids(s, n).contains(x) {
                if matching_ids(t, n).contains(x) {
                    let i = choose|i: int| 0 <= i < t.len() && (#[trigger] t[i]).id == x && contains_text(t[i].name, n);
                    assert(s[i] == t[i]);
                } else {
                    let m = matching_ids(t, n).push(s.last().id);
                    let j = choose|j: int| 0 <= j < m.len() && m[j] == x;
                    assert(j == m.len() - 1);
                    assert(s[s.len() - 1].id == x);
                }
            }
            if exists|i: int| 0 <= i < s.len() && (#[trigger] s[i]).id == x && contains_text(s[i].name, n) {
                let i = choose|i: int| 0 <= i < s.len() && (#[trigger] s[i]).id == x && contains_text(s[i].name, n);
                if i < s.len() - 1 {
                    assert(t[i] == s[i]);
                    assert(matching_ids(t, n).contains(x));
                    if contains_text(s.last().name, n) {
                        let m = matching_ids(t, n);
                        let j = choose|j: int| 0 <= j < m.len() && m[j] == x;
                        assert(m.push(s.last().id)[j] == x);
                    }
                } else {
                    let m = matching_ids(t, n).push(s.last().id);
                    assert(m[m.len() - 1] == x);
                }
            }
        }
    }
}

/// Any two amounts of fuel that reach the root give the same names.
pub proof fn lemma_ancestor_names_fuel(s: Storage, id: FileId, parent: FileId, f1: nat, f2: nat)
    requires
        reaches_root(s, id, parent, f1),
        reaches_root(s, id, parent, f2),
    ensures
        ancestor_names(s, id, parent, f1) == ancestor_names(s, id, parent, f2),
    decreases f1,
{
    if parent != id {
        lemma_ancestor_names_fuel(s, parent, s.entry_of(parent).parent_id, (f1 - 1) as nat, (f2 - 1) as nat);
    }
}

/// `after` is `before` with the received file `f` written in: in place of
/// the entry with its id, or as a new entry, among the directories or the
/// plain files as its flags say; its name is in the table.
pub open spec fn written(before: Storage, after: Storage, f: FileEntityView) -> bool {
    let d = is_directory_flags(f.flags);
    &&& upserted(before.kind(d), after.kind(d), stored_entity(f))
    &&& after.kind(!d) == before.kind(!d)
    &&& forall|n: Seq<char>| #[trigger] after.name_table().contains(n) <==> (before.name_table().contains(n) || n == f.name)
    &&& after.name_table().len() <= before.name_table().len() + 1
    &&& name_added(before.name_table(), after.name_table(), f.name)
}

/// What one change read from the change journal does to the index: a new or
/// updated file is written in; a deleted record number marks the plain file
/// and the directory with that number deleted; an ignored change does nothing.
pub open spec fn change_applied(before: Storage, after: Storage, change: UsnChange) -> bool {
    match change {
        UsnChange::NEW(f) => written(before, after, f@),
        UsnChange::UPDATE(f) => written(before, after, f@),
        UsnChange::DELETE(number) => {
            &&& after.files() == marked_deleted(before.files(), file_id(number))
            &&& after.dirs() == marked_deleted(before.dirs(), dir_id(number))
            &&& after.name_table() == before.name_table()
        },
        UsnChange::IGNORE => after == before,
    }
}

/// `after` is `before` with `changes` applied one after the other.
pub open spec fn changes_applied(before: Storage, after: Storage, changes: Seq<UsnChange>) -> bool {
    exists|states: Seq<Storage>|
        {
            &&& states.len() == changes.len() + 1
            &&& states[0] == before
            &&& states[changes.len() as int] == after
            &&& forall|k: int| 0 <= k < changes.len() ==> change_applied(#[trigger] states[k], states[k + 1], changes[k])
        }
}

/// The file index: the stored files and the separator their paths are written with.
pub struct Files {
    separator: String,
    storage: Storage,
}

impl Files {
    /// The stored files.
    pub closed spec fn index(&self) -> Storage {
        self.storage
    }

    /// The separator paths are written with.
    pub closed spec fn separator(&self) -> Seq<char> {
        self.separator@
    }

    pub open spec fn wf(&self) -> bool {
        &&& self.index().wf()
        &&& self.separator() == "\\"@
    }

    /// The path of the directory holding a file with id `id` and parent `parent`.
    pub open spec fn path_spec(&self, id: FileId, parent: FileId) -> Seq<char> {
        path_text(
            ancestor_names(self.index(), id, parent, choose|n: nat| reaches_root(self.index(), id, parent, n)),
            "\\"@,
        )
    }

    /// An empty index; the expected number of files is only a hint.
    pub fn new(_count: usize) -> (r: Files)
        ensures
            r.wf(),
            r.index().all() == Seq::<StoredFile>::empty(),
            r.index().name_table() == Seq::<Seq<char>>::empty(),
    {
        let storage = Storage::new();
        let separator = "\\".to_owned();
        Files { storage, separator }
    }

    /// Direct access to the stored files.
    pub fn storage_mut(&mut self) -> (r: &mut Storage)
        ensures
            *r == old(self).index(),
            final(self).index() == *final(r),
            final(self).separator() == old(self).separator(),
    {
        &mut self.storage
    }

    /// Fills an empty index with the received files at once.
    pub fn bulk_add(&mut self, files: Vec<FileEntity>)
        requires
            old(self).wf(),
            old(self).index().all().len() == 0,
            files@.len() <= u32::MAX,
            forall|i: int, j: int| 0 <= i < j < files@.len() ==> (#[trigger] files@[i])@.id != (#[trigger] files@[j])@.id,
        ensures
            final(self).wf(),
            forall|n: Seq<char>|
                #[trigger] final(self).index().name_table().contains(n) <==> exists|k: int|
                    0 <= k < files@.len() && (#[trigger] files@[k])@.name == n,
            forall|e: StoredFile|
                #[trigger] final(self).index().dirs().contains(e) <==> exists|k: int|
                    0 <= k < files@.len() && is_directory_flags((#[trigger] files@[k])@.flags) && e == stored_entity(files@[k]@),
            forall|e: StoredFile|
                #[trigger] final(self).index().files().contains(e) <==> exists|k: int|
                    0 <= k < files@.len() && !is_directory_flags((#[trigger] files@[k])@.flags) && e == stored_entity(files@[k]@),
            forall|k: int|
                0 <= k < files@.len() ==> #[trigger] final(self).index().present(files@[k]@.id)
                    && final(self).index().entry_of(files@[k]@.id) == stored_entity(files@[k]@),
            final(self).index().all().len() == files@.len(),
    {
        self.storage.bulk_insert(files);
    }

    /// Adds a received file to the index, or replaces the entry with its id.
    pub fn add_file(&mut self, f: FileEntity)
        requires
            old(self).wf(),
            old(self).index().name_table().len() < u32::MAX,
        ensures
            final(self).wf(),
            upserted(
                old(self).index().kind(is_directory_flags(f@.flags)),
                final(self).index().kind(is_directory_flags(f@.flags)),
                stored_entity(f@),
            ),
            final(self).index().kind(!is_directory_flags(f@.flags)) == old(self).index().kind(!is_directory_flags(f@.flags)),
            forall|n: Seq<char>| #[trigger] final(self).index().name_table().contains(n) <==> (old(self).index().name_table().contains(n) || n == f@.name),
            final(self).index().name_table().len() == old(self).index().name_table().len() + if old(self).index().name_table().contains(f@.name) {
                0int
            } else {
                1int
            },
            name_added(old(self).index().name_table(), final(self).index().name_table(), f@.name),
            final(self).index().present(f@.id),
            final(self).index().entry_of(f@.id) == stored_entity(f@),
            forall|id: FileId| id != f@.id ==> (#[trigger] final(self).index().present(id) <==> old(self).index().present(id)),
            forall|id: FileId|
                id != f@.id && old(self).index().present(id) ==> #[trigger] final(self).index().entry_of(id) == old(self).index().entry_of(id),
            final(self).index().all().len() == old(self).index().all().len() + if old(self).index().present(f@.id) {
                0int
            } else {
                1int
            },
    {
        let data = FileData::from_entity(&f);
        self.storage.upsert(data, f.name());
        proof {
            law_upsert_then_get(old(self).index(), self.index(), stored_entity(f@));
        }
    }

    /// Replaces the entry with the received file's id, or adds it.
    pub fn update_file(&mut self, f: FileEntity)
        requires
            old(self).wf(),
            old(self).index().name_table().len() < u32::MAX,
        ensures
            final(self).wf(),
            upserted(
                old(self).index().kind(is_directory_flags(f@.flags)),
                final(self).index().kind(is_directory_flags(f@.flags)),
                stored_entity(f@),
            ),
            final(self).index().kind(!is_directory_flags(f@.flags)) == old(self).index().kind(!is_directory_flags(f@.flags)),
            forall|n: Seq<char>| #[trigger] final(self).index().name_table().contains(n) <==> (old(self).index().name_table().contains(n) || n == f@.name),
            final(self).index().name_table().len() == old(self).index().name_table().len() + if old(self).index().name_table().contains(f@.name) {
                0int
            } else {
                1int
            },
            name_added(old(self).index().name_table(), final(self).index().name_table(), f@.name),
            final(self).index().present(f@.id),
            final(self).index().entry_of(f@.id) == stored_entity(f@),
            forall|id: FileId| id != f@.id ==> (#[trigger] final(self).index().present(id) <==> old(self).index().present(id)),
            forall|id: FileId|
                id != f@.id && old(self).index().present(id) ==> #[trigger] final(self).index().entry_of(id) == old(self).index().entry_of(id),
            final(self).index().all().len() == old(self).index().all().len() + if old(self).index().present(f@.id) {
                0int
            } else {
                1int
            },
    {
        let data = FileData::from_entity(&f);
        self.storage.upsert(data, f.name());
        proof {
            law_upsert_then_get(old(self).index(), self.index(), stored_entity(f@));
        }
    }

    /// The entry with id `id`.
    pub fn get_file(&self, id: FileId) -> (r: StorageItem<'_>)
        requires
            self.wf(),
            self.index().present(id),
        ensures
            r.data@.id == id,
            self.index().entry_of(id) == stored_file(r.data@, r.name@),
    {
        self.storage.get(id)
    }

    /// Marks the entry with id `id` deleted; an id the index lacks is ignored.
    pub fn delete_file(&mut self, id: FileId)
        requires
            old(self).wf(),
        ensures
            final(self).wf(),
            final(self).index().kind(is_dir_id(id)) == marked_deleted(old(self).index().kind(is_dir_id(id)), id),
            final(self).index().kind(!is_dir_id(id)) == old(self).index().kind(!is_dir_id(id)),
            final(self).index().name_table() == old(self).index().name_table(),
    {
        self.storage.delete(id);
    }

    /// Applies one change read from the change journal.
    fn apply_change(&mut self, change: UsnChange)
        requires
            old(self).wf(),
            old(self).index().name_table().len() < u32::MAX,
        ensures
            final(self).wf(),
            change_applied(old(self).index(), final(self).index(), change),
    {
        broadcast use lemma_id_parts;

        match change {
            UsnChange::NEW(f) => self.add_file(f),
            UsnChange::UPDATE(f) => self.update_file(f),
            UsnChange::DELETE(number) => {
                self.delete_file(FileId::file(number));
                self.delete_file(FileId::directory(number));
            },
            UsnChange::IGNORE => {},
        }
    }

    /// Applies the changes read from the change journal, in order.
    pub fn update_files(&mut self, changes: Vec<UsnChange>)
        requires
            old(self).wf(),
            old(self).index().name_table().len() + changes@.len() < u32::MAX,
        ensures
            final(self).wf(),
            changes_applied(old(self).index(), final(self).index(), changes@),
    {
        let ghost all = changes@;
        let ghost start = self.index();
        let mut rest = changes;
        let ghost mut k: int = 0;
        let ghost mut states: Seq<Storage> = seq![start];
        proof {
            assert(all.skip(0) =~= all);
        }
        while rest.len() > 0
            invariant
                rest@ == all.skip(k),
                0 <= k <= all.len(),
                self.wf(),
                states.len() == k + 1,
                states[0] == start,
                states[k] == self.index(),
                forall|j: int| 0 <= j < k ==> change_applied(#[trigger] states[j], states[j + 1], all[j]),
                self.index().name_table().len() <= start.name_table().len() + k,
                start.name_table().len() + all.len() < u32::MAX,
            decreases all.len() - k,
        {
            let change = rest.remove(0);
            proof {
                assert(rest@ =~= all.skip(k + 1));
                assert(change == all[k]);
            }
            self.apply_change(change);
            proof {
                let old_states = states;
                states = states.push(self.index());
                assert forall|j: int| 0 <= j < k + 1 implies change_applied(#[trigger] states[j], states[j + 1], all[j]) by {
                    if j < k {
                        assert(states[j] == old_states[j]);
                        assert(states[j + 1] == old_states[j + 1]);
                    }
                }
                k = k + 1;
            }
        }
        proof {
            assert(k == all.len());
            assert(states[all.len() as int] == self.index());
        }
    }

    /// Whether the index holds an entry with id `id`.
    pub fn contains(&self, id: FileId) -> (r: bool)
        requires
            self.wf(),
        ensures
            r == self.index().present(id),
    {
        self.storage.contains(id)
    }

    /// The number of names the index keeps.
    pub fn name_count(&self) -> (r: usize)
        requires
            self.wf(),
        ensures
            r == self.index().name_table().len(),
    {
        self.storage.name_count()
    }

    /// The number of entries, directories and files, or `usize::MAX` when
    /// there are more.
    pub fn len(&self) -> (r: usize)
        requires
            self.wf(),
        ensures
            r == if self.index().all().len() <= usize::MAX {
                self.index().all().len() as usize
            } else {
                usize::MAX
            },
    {
        let dirs = self.storage.dir_count();
        let files = self.storage.file_count();
        if dirs > usize::MAX - files {
            usize::MAX
        } else {
            dirs + files
        }
    }

    /// Whether following parent links from `file`, at most `limit` times,
    /// reaches a root through entries of the index.
    pub fn reaches_root_within(&self, file: &FileData, limit: usize) -> (r: bool)
        requires
            self.wf(),
        ensures
            r == reaches_root(self.index(), file@.id, file@.parent_id, limit as nat),
    {
        let ghost s = self.index();
        let mut id = file.id();
        let mut parent = file.parent_id();
        let mut fuel = limit;
        loop
            invariant
                s == self.index(),
                self.wf(),
                reaches_root(s, file@.id, file@.parent_id, limit as nat) == reaches_root(s, id, parent, fuel as nat),
            decreases fuel,
        {
            if parent == id {
                return true;
            }
            if fuel == 0 {
                return false;
            }
            if !self.storage.contains(parent) {
                return false;
            }
            let item = self.storage.get(parent);
            id = parent;
            parent = item.data.parent_id();
            fuel = fuel - 1;
        }
    }

    /// The path of the directory holding `file`: the names of the
    /// directories above it, the topmost first, each followed by `\`.
    pub fn path_of(&self, file: &FileData) -> (r: String)
        requires
            self.wf(),
            exists|n: nat| reaches_root(self.index(), file@.id, file@.parent_id, n),
        ensures
            r@ == self.path_spec(file@.id, file@.parent_id),
    {
        let ghost s = self.index();
        let ghost fuel = choose|n: nat| reaches_root(s, file@.id, file@.parent_id, n);
        let ghost full = ancestor_names(s, file@.id, file@.parent_id, fuel);
        let mut parents: Vec<&str> = Vec::new();
        let mut current = file;
        let ghost mut f: nat = fuel;
        proof {
            assert(full =~= ancestor_names(s, current@.id, current@.parent_id, f) + parents@.map_values(|p: &str| p@).reverse());
        }
        while !current.is_root()
            invariant
                s == self.index(),
                self.wf(),
                reaches_root(s, current@.id, current@.parent_id, f),
                full == ancestor_names(s, current@.id, current@.parent_id, f) + parents@.map_values(|p: &str| p@).reverse(),
            decreases f,
        {
            let item = self.storage.get(current.parent_id());
            let ghost old_parents = parents@.map_values(|p: &str| p@);
            let ghost e = s.entry_of(current@.parent_id);
            parents.push(item.name);
            proof {
                assert(parents@.map_values(|p: &str| p@) =~= old_parents.push(e.name));
                assert(old_parents.push(e.name).reverse() =~= seq![e.name] + old_parents.reverse());
                assert(ancestor_names(s, current@.id, current@.parent_id, f) == ancestor_names(
                    s,
                    current@.parent_id,
                    e.parent_id,
                    (f - 1) as nat,
                ).push(e.name));
                assert(full =~= ancestor_names(s, current@.parent_id, e.parent_id, (f - 1) as nat) + parents@.map_values(|p: &str| p@).reverse());
            }
            current = item.data;
            proof {
                f = (f - 1) as nat;
            }
        }
        let ghost names = parents@.map_values(|p: &str| p@).reverse();
        proof {
            assert(full =~= names);
        }
        let mut result = String::new();
        let n = parents.len();
        let mut j: usize = 0;
        proof {
            assert(names.take(0) =~= Seq::<Seq<char>>::empty());
        }
        while j < n
            invariant
                n == parents@.len(),
                names == parents@.map_values(|p: &str| p@).reverse(),
                self.wf(),
                0 <= j <= n,
                result@ == path_text(names.take(j as int), "\\"@),
            decreases n - j,
        {
            let p = parents[n - 1 - j];
            result.append(p);
            result.append(self.separator.as_str());
            proof {
                assert(names.take(j + 1).drop_last() =~= names.take(j as int));
                assert(names.take(j + 1).last() == p@);
            }
            j = j + 1;
        }
        proof {
            assert(names.take(n as int) =~= names);
        }
        result
    }

    /// The ids of the entries whose names contain `name`: directories first,
    /// then plain files, each in order of id. The previous search is not used.
    pub fn search_by_name(&self, name: &str, _prev_search: Option<&[FileId]>) -> (r: Vec<FileId>)
        requires
            self.wf(),
        ensures
            r@ == matching_ids(self.index().all(), name@),
    {
        let ghost all = self.index().all();
        let mut it = self.storage.iter();
        let mut r: Vec<FileId> = Vec::new();
        let ghost mut k: int = 0;
        proof {
            assert(all.take(0) =~= Seq::<StoredFile>::empty());
        }
        loop
            invariant
                it.wf(),
                it.storage() == self.index(),
                all == self.index().all(),
                0 <= k <= all.len(),
                it.remaining() == all.skip(k),
                r@ == matching_ids(all.take(k), name@),
            ensures
                r@ == matching_ids(all, name@),
            decreases all.len() - k,
        {
            match it.next() {
                None => {
                    proof {
                        assert(all.take(k) =~= all);
                    }
                    break;
                },
                Some(item) => {
                    proof {
                        assert(all.take(k + 1).drop_last() =~= all.take(k));
                        assert(all.take(k + 1).last() == all[k]);
                        assert(all.skip(k + 1) =~= all.skip(k).drop_first());
                    }
                    if find_str(item.name, name).is_some() {
                        r.push(item.data.id());
                    }
                    proof {
                        k = k + 1;
                    }
                },
            }
        }
        r
    }
}

impl PartialEq for FileData {
    /// Two records are the same file when their ids are equal.
    fn eq(&self, other: &FileData) -> (r: bool) {
        self.id == other.id
    }
}

impl vstd::std_specs::cmp::PartialEqSpecImpl for FileData {
    open spec fn obeys_eq_spec() -> bool {
        true
    }

    open spec fn eq_spec(&self, other: &FileData) -> bool {
        self@.id == other@.id
    }
}

impl From<FileEntity> for FileData {
    fn from(f: FileEntity) -> (r: FileData) {
        FileData::from_entity(&f)
    }
}

impl vstd::std_specs::convert::FromSpecImpl<FileEntity> for FileData {
    open spec fn obeys_from_spec() -> bool {
        true
    }

    closed spec fn from_spec(f: FileEntity) -> FileData {
        FileData {
            id: f@.id,
            parent_id: f@.parent_id,
            name_id: NameId(0),
            size: f@.size,
            flags: f@.flags,
            deleted: false,
        }
    }
}

} // verus!
