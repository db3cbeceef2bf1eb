use vstd::prelude::*;

verus! {

/// Namespace of the short DOS alias of a file name in an MFT file-name attribute.
pub const DOS_NAMESPACE: u8 = 2;

/// The flag bit that marks a file record as a directory.
pub const DIRECTORY_FLAG: u16 = 0x02;

/// Whether a file is a directory or a plain file.
#[allow(non_camel_case_types)]
#[derive(Clone, Copy, Debug, PartialEq, Eq, Structural, Hash, PartialOrd, Ord)]
pub enum FileType {
    DIRECTORY,
    FILE,
}

/// Identifies a file by its record number and its type.
#[derive(Clone, Copy, Debug, PartialEq, Eq, Structural, Hash, PartialOrd, Ord)]
pub struct FileId {
    id: u32,
    f_type: FileType,
}

/// The position of a file id in the order the index keeps its entries in:
/// by record number, directories before files for the same number.
pub open spec fn id_key(id: FileId) -> int {
    id.id_spec() * 2 + if id.type_spec() == FileType::FILE { 1int } else { 0int }
}

/// Whether the flags of a file record mark it as a directory.
pub open spec fn is_directory_flags(flags: u16) -> bool {
    flags & DIRECTORY_FLAG != 0
}

impl FileId {
    pub closed spec fn id_spec(self) -> u32 {
        self.id
    }

    pub closed spec fn type_spec(self) -> FileType {
        self.f_type
    }

    pub fn file(id: u32) -> (r: FileId)
        ensures
            r == file_id(id),
            r.id_spec() == id,
            r.type_spec() == FileType::FILE,
    {
        FileId { id, f_type: FileType::FILE }
    }

    pub fn directory(id: u32) -> (r: FileId)
        ensures
            r == dir_id(id),
            r.id_spec() == id,
            r.type_spec() == FileType::DIRECTORY,
    {
        FileId { id, f_type: FileType::DIRECTORY }
    }

    pub fn id(&self) -> (r: u32)
        ensures
            r == self.id_spec(),
    {
        self.id
    }

    pub fn f_type(&self) -> (r: FileType)
        ensures
            r == self.type_spec(),
    {
        self.f_type
    }

    /// The id's position in the index order, as a number (see `id_key`).
    pub fn key(&self) -> (r: u64)
        ensures
            r == id_key(*self),
    {
        let bit: u64 = match self.f_type {
            FileType::DIRECTORY => 0,
            FileType::FILE => 1,
        };
        self.id as u64 * 2 + bit
    }

    /// Two ids are equal exactly when their keys are.
    pub proof fn lemma_key_injective(a: FileId, b: FileId)
        ensures
            id_key(a) == id_key(b) <==> a == b,
    {
    }
}


/// A file-name attribute of an MFT file record.
#[derive(Clone, Debug, Default)]
pub struct FilenameAttr {
    pub parent_id: i64,
    pub namespace: u8,
    pub name: String,
}

/// The fixed header of an MFT file record.
#[derive(Clone, Copy, Debug, Default)]
pub struct FileRecordHeader {
    pub fr_number: u32,
    pub flags: u16,
}

/// The data attribute of an MFT file record.
#[derive(Clone, Copy, Debug, Default)]
pub struct DataAttr {
    pub size: i64,
}

/// An MFT file record, as far as the index reads it.
#[derive(Clone, Debug, Default)]
pub struct FileRecord {
    pub header: FileRecordHeader,
    pub name_attrs: Vec<FilenameAttr>,
    pub data_attr: DataAttr,
}

impl FileRecord {
    pub fn fr_number(&self) -> (r: u32)
        ensures
            r == self.header.fr_number,
    {
        self.header.fr_number
    }
}

/// The file a change-journal record refers to, as read back from the volume.
#[derive(Clone, Debug, Default)]
pub struct FileEntry {
    pub fr_number: i64,
    pub parent_fr_number: i64,
    pub name: String,
    pub flags: u16,
    pub size: i64,
}

/// `i` is the position of the first name of `attrs` that is not a DOS alias.
pub open spec fn is_first_long_name(attrs: Seq<FilenameAttr>, i: int) -> bool {
    &&& 0 <= i < attrs.len()
    &&& attrs[i].namespace != DOS_NAMESPACE
    &&& forall|j: int| 0 <= j < i ==> #[trigger] attrs[j].namespace == DOS_NAMESPACE
}

/// Some name of `attrs` is not a DOS alias.
pub open spec fn has_long_name(attrs: Seq<FilenameAttr>) -> bool {
    exists|i: int| 0 <= i < attrs.len() && #[trigger] attrs[i].namespace != DOS_NAMESPACE
}

/// The first name of `attrs` that is not a DOS alias.
pub open spec fn long_name(attrs: Seq<FilenameAttr>) -> Seq<char> {
    attrs[choose|i: int| is_first_long_name(attrs, i)].name@
}

/// The id of a record with number `number` and flags `flags`.
pub closed spec fn id_for(number: u32, flags: u16) -> FileId {
    if is_directory_flags(flags) {
        FileId { id: number, f_type: FileType::DIRECTORY }
    } else {
        FileId { id: number, f_type: FileType::FILE }
    }
}

/// The id of the plain file with record number `number`.
pub closed spec fn file_id(number: u32) -> FileId {
    FileId { id: number, f_type: FileType::FILE }
}

/// The id of the directory with record number `number`.
pub closed spec fn dir_id(number: u32) -> FileId {
    FileId { id: number, f_type: FileType::DIRECTORY }
}

/// What the ids built from a record number are made of.
pub broadcast proof fn lemma_id_parts(number: u32, flags: u16)
    ensures
        #[trigger] id_for(number, flags).id_spec() == number,
        id_for(number, flags).type_spec() == if is_directory_flags(flags) {
            FileType::DIRECTORY
        } else {
            FileType::FILE
        },
        #[trigger] dir_id(number).id_spec() == number,
        dir_id(number).type_spec() == FileType::DIRECTORY,
        #[trigger] file_id(number).id_spec() == number,
        file_id(number).type_spec() == FileType::FILE,
{
}

/// What the index knows of a file.
pub struct FileEntityView {
    pub name: Seq<char>,
    pub parent_id: FileId,
    pub size: i64,
    pub id: FileId,
    pub row_id: u32,
    pub flags: u16,
}

/// The file a change-journal entry refers to, as the index receives it.
pub open spec fn entry_view(entry: FileEntry) -> FileEntityView {
    FileEntityView {
        name: entry.name@,
        parent_id: dir_id(entry.parent_fr_number as u32),
        size: entry.size,
        id: id_for(entry.fr_number as u32, entry.flags),
        row_id: u32::MAX,
        flags: entry.flags,
    }
}

/// A file as the index receives it.
#[derive(Debug, PartialEq)]
pub struct FileEntity {
    name: String,
    parent_id: FileId,
    size: i64,
    id: FileId,
    _id: u32,
    flags: u16,
}

impl View for FileEntity {
    type V = FileEntityView;

    closed spec fn view(&self) -> FileEntityView {
        FileEntityView {
            name: self.name@,
            parent_id: self.parent_id,
            size: self.size,
            id: self.id,
            row_id: self._id,
            flags: self.flags,
        }
    }
}

/// The id of a record with number `number` and flags `flags`.
fn make_id(number: u32, flags: u16) -> (r: FileId)
    ensures
        r == id_for(number, flags),
{
    if flags & DIRECTORY_FLAG != 0 {
        FileId::directory(number)
    } else {
        FileId::file(number)
    }
}

impl Clone for FileEntity {
    fn clone(&self) -> (r: FileEntity)
        ensures
            r@ == self@,
    {
        proof {
            use_type_invariant(self);
        }
        FileEntity {
            name: self.name.clone(),
            parent_id: self.parent_id,
            size: self.size,
            id: self.id,
            _id: self._id,
            flags: self.flags,
        }
    }
}

/// A file's id says it is a directory exactly when its flags do.
pub open spec fn id_agrees(f: FileEntityView) -> bool {
    is_directory_flags(f.flags) == (f.id.type_spec() == FileType::DIRECTORY)
}

impl FileEntity {
    /// Every file is built with an id made from its record number and flags.
    #[verifier::type_invariant]
    pub(crate) open spec fn id_made_from_flags(self) -> bool {
        id_agrees(self@)
    }

    /// The file stored in a row of the file table: its row id, record number,
    /// parent record number, size, name and flags, in the table's order.
    pub fn from_row_values(row_id: u32, fr_number: u32, parent: i64, size: i64, name: String, flags: u16) -> (r: FileEntity)
        ensures
            r@.name == name@,
            r@.parent_id == dir_id(parent as u32),
            r@.size == size,
            r@.id == id_for(fr_number, flags),
            r@.row_id == row_id,
            r@.flags == flags,
    {
        let parent_id = FileId::directory(parent as u32);
        let id = make_id(fr_number, flags);
        FileEntity { name, parent_id, size, id, _id: row_id, flags }
    }

    /// The file described by an MFT record: its first name that is not a DOS
    /// alias, with that name's parent, the record's number, flags and size.
    pub fn from_file_entry(file: FileRecord) -> (r: FileEntity)
        requires
            has_long_name(file.name_attrs@),
        ensures
            r@.name == long_name(file.name_attrs@),
            exists|i: int|
                is_first_long_name(file.name_attrs@, i) && r@.parent_id == dir_id(
                    #[trigger] file.name_attrs@[i].parent_id as u32,
                ),
            r@.size == file.data_attr.size,
            r@.id == id_for(file.header.fr_number, file.header.flags),
            r@.row_id == u32::MAX,
            r@.flags == file.header.flags,
    {
        let fr_number = file.fr_number();
        let FileRecord { header, name_attrs, data_attr } = file;
        let ghost attrs = name_attrs@;
        let mut attrs_v = name_attrs;
        let mut i: usize = 0;
        while i < attrs_v.len()
            invariant_except_break
                attrs_v@ == attrs,
                has_long_name(attrs),
                0 <= i <= attrs.len(),
                forall|j: int| 0 <= j < i ==> #[trigger] attrs[j].namespace == DOS_NAMESPACE,
            ensures
                attrs_v@ == attrs,
                is_first_long_name(attrs, i as int),
            decreases attrs.len() - i,
        {
            if attrs_v[i].namespace != DOS_NAMESPACE {
                break;
            }
            i = i + 1;
        }
        proof {
            if i == attrs.len() {
                let k = choose|k: int| 0 <= k < attrs.len() && #[trigger] attrs[k].namespace != DOS_NAMESPACE;
                assert(attrs[k].namespace == DOS_NAMESPACE);
            }
            lemma_first_long_name_unique(attrs, i as int);
        }
        let name = attrs_v.remove(i);
        let id = make_id(fr_number, header.flags);
        FileEntity {
            name: name.name,
            parent_id: FileId::directory(name.parent_id as u32),
            size: data_attr.size,
            id,
            _id: u32::MAX,
            flags: header.flags,
        }
    }

    /// The file a change-journal entry refers to.
    pub fn from_entry(entry: FileEntry) -> (r: FileEntity)
        ensures
            r@ == entry_view(entry),
    {
        let FileEntry { fr_number, parent_fr_number, name, flags, size } = entry;
        let id = make_id(fr_number as u32, flags);
        FileEntity {
            name,
            parent_id: FileId::directory(parent_fr_number as u32),
            size,
            id,
            _id: u32::MAX,
            flags,
        }
    }

    pub fn id(&self) -> (r: FileId)
        ensures
            r == self@.id,
            id_agrees(self@),
    {
        proof {
            use_type_invariant(self);
        }
        self.id
    }

    pub fn parent_id(&self) -> (r: FileId)
        ensures
            r == self@.parent_id,
    {
        self.parent_id
    }

    pub fn name(&self) -> (r: &str)
        ensures
            r@ == self@.name,
    {
        self.name.as_str()
    }

    pub fn size(&self) -> (r: i64)
        ensures
            r == self@.size,
    {
        self.size
    }

    pub fn flags(&self) -> (r: u16)
        ensures
            r == self@.flags,
    {
        self.flags
    }

    pub fn is_directory(&self) -> (r: bool)
        ensures
            r == is_directory_flags(self@.flags),
    {
        self.flags & DIRECTORY_FLAG != 0
    }
}

/// At most one position is the first long name.
proof fn lemma_first_long_name_unique(attrs: Seq<FilenameAttr>, i: int)
    requires
        is_first_long_name(attrs, i),
    ensures
        long_name(attrs) == attrs[i].name@,
{
    let k = choose|k: int| is_first_long_name(attrs, k);
    assert(is_first_long_name(attrs, k));
    if k < i {
        assert(attrs[k].namespace == DOS_NAMESPACE);
    } else if k > i {
        assert(attrs[i].namespace == DOS_NAMESPACE);
    }
}

} // verus!
