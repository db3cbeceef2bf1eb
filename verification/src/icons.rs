use vstd::prelude::*;

use crate::file_entity::is_directory_flags;
use crate::item::DisplayItem;

verus! {

/// An icon to draw: how wide it is, the system image list it comes from and
/// its place in that list.
#[derive(Copy, Clone, Debug, PartialEq, Eq, Structural)]
pub struct Icon {
    pub width: i32,
    pub image_list: usize,
    pub index: i32,
}

/// The name holds no character a path would read as a separator or a
/// drive prefix, so the whole of it is one file name.
pub open spec fn plain_file_name(name: Seq<char>) -> bool {
    forall|i: int| 0 <= i < name.len() ==> (#[trigger] name[i] != '/' && name[i] != '\\' && name[i] != ':')
}

/// Where the last `.` of `name` is.
pub open spec fn last_dot(name: Seq<char>) -> Option<int>
    decreases name.len(),
{
    if name.len() == 0 {
        None
    } else if name.last() == '.' {
        Some(name.len() - 1)
    } else {
        last_dot(name.drop_last())
    }
}

/// The extension of a file name: what follows its last `.`; none when the
/// name has no `.` but at its start, or is `.` or `..`.
pub open spec fn extension_of(name: Seq<char>) -> Option<Seq<char>> {
    if name == seq!['.'] || name == seq!['.', '.'] {
        None
    } else {
        match last_dot(name) {
            None => None,
            Some(p) => if p == 0 {
                None
            } else {
                Some(name.skip(p + 1))
            },
        }
    }
}

/// `std::path::Path::extension` on a file name, as its documentation gives
/// it: the part after the final `.`; none when there is no file name, no
/// embedded `.`, or the name begins with `.` and has no other.
#[verifier::external_body]
fn path_extension(name: &str) -> (r: Option<String>)
    requires
        plain_file_name(name@),
    ensures
        match r {
            None => extension_of(name@) is None,
            Some(e) => extension_of(name@) == Some(e@),
        },
{
    match std::path::Path::new(name).extension() {
        Some(e) => Some(e.to_string_lossy().into_owned()),
        None => None,
    }
}

/// The icon remembered for `ext` in `entries`: the latest one.
pub open spec fn cached(entries: Seq<(String, i32)>, ext: Seq<char>) -> Option<i32>
    decreases entries.len(),
{
    if entries.len() == 0 {
        None
    } else if entries.last().0@ == ext {
        Some(entries.last().1)
    } else {
        cached(entries.drop_last(), ext)
    }
}

/// What looking up an icon gives: an icon, or the extension whose icon the
/// system is to be asked for.
#[derive(Debug, PartialEq, Eq)]
pub enum IconLookup {
    Found(i32),
    Missing(String),
}

/// The icons of listed files: one for directories, one for files without an
/// extension, and those already looked up, by extension.
pub struct Icons {
    cache: Vec<(String, i32)>,
    default_index: i32,
    directory_index: i32,
}

/// The icon for a row, given what is remembered.
pub open spec fn icon_for(
    cache: Seq<(String, i32)>,
    default_index: i32,
    directory_index: i32,
    flags: u16,
    name: Seq<char>,
) -> Option<i32> {
    if is_directory_flags(flags) {
        Some(directory_index)
    } else {
        match extension_of(name) {
            None => Some(default_index),
            Some(ext) => cached(cache, ext),
        }
    }
}

impl Icons {
    pub closed spec fn entries(&self) -> Seq<(String, i32)> {
        self.cache@
    }

    pub closed spec fn default_icon(&self) -> i32 {
        self.default_index
    }

    pub closed spec fn directory_icon(&self) -> i32 {
        self.directory_index
    }

    /// The icon for `ext`, when it was looked up before.
    pub open spec fn known(&self, ext: Seq<char>) -> Option<i32> {
        cached(self.entries(), ext)
    }

    /// No extension looked up yet.
    pub fn new(default_index: i32, directory_index: i32) -> (r: Icons)
        ensures
            r.default_icon() == default_index,
            r.directory_icon() == directory_index,
            forall|ext: Seq<char>| r.known(ext) is None,
    {
        Icons { cache: Vec::new(), default_index, directory_index }
    }

    /// The icon for a row: a directory's, a file's without extension, or the
    /// one remembered for its extension; otherwise the extension to look up.
    /// The name is a single NTFS file name, which holds no `/`, `\` or `:`;
    /// only on such names is the whole name the file name whose extension
    /// the system's path rules give.
    pub fn get(&self, item: &DisplayItem) -> (r: IconLookup)
        requires
            plain_file_name(item.name@),
        ensures
            match r {
                IconLookup::Found(i) => icon_for(
                    self.entries(),
                    self.default_icon(),
                    self.directory_icon(),
                    item.flags,
                    item.name@,
                ) == Some(i),
                IconLookup::Missing(ext) => {
                    &&& !is_directory_flags(item.flags)
                    &&& extension_of(item.name@) == Some(ext@)
                    &&& self.known(ext@) is None
                },
            },
    {
        if item.is_directory() {
            return IconLookup::Found(self.directory_index);
        }
        match path_extension(item.name.as_str()) {
            None => IconLookup::Found(self.default_index),
            Some(ext) => match self.lookup(&ext) {
                Some(i) => IconLookup::Found(i),
                None => IconLookup::Missing(ext),
            },
        }
    }

    /// The icon remembered for `ext`.
    pub fn lookup(&self, ext: &String) -> (r: Option<i32>)
        ensures
            r == self.known(ext@),
    {
        let mut i = self.cache.len();
        proof {
            assert(self.cache@.take(i as int) =~= self.cache@);
        }
        while i > 0
            invariant
                i <= self.cache@.len(),
                cached(self.cache@, ext@) == cached(self.cache@.take(i as int), ext@),
            decreases i,
        {
            proof {
                assert(self.cache@.take(i as int).drop_last() =~= self.cache@.take(i - 1));
                assert(self.cache@.take(i as int).last() == self.cache@[i - 1]);
            }
            let entry = &self.cache[i - 1];
            if entry.0.eq(ext) {
                return Some(entry.1);
            }
            i = i - 1;
        }
        None
    }

    /// Remembers the icon the system gave for `ext`.
    pub fn remember(&mut self, ext: String, index: i32)
        ensures
            final(self).default_icon() == old(self).default_icon(),
            final(self).directory_icon() == old(self).directory_icon(),
            forall|e: Seq<char>| #[trigger] final(self).known(e) == if e == ext@ {
                Some(index)
            } else {
                old(self).known(e)
            },
    {
        let ghost old_cache = self.cache@;
        self.cache.push((ext, index));
        proof {
            assert(self.cache@.drop_last() =~= old_cache);
        }
    }

    /// The icon to draw for a row whose icon is known.
    pub fn icon(&self, image_list: usize, index: i32) -> (r: Icon)
        ensures
            r == (Icon { width: 16, image_list, index }),
    {
        Icon { width: 16, image_list, index }
    }
}

/// Once the system's icon for an extension is remembered, every file with
/// that extension gets it, and the icons of other rows stay as they were.
pub proof fn law_remembered_icon_is_found(before: Icons, after: Icons, ext: Seq<char>, index: i32, flags: u16, name: Seq<char>)
    requires
        after.default_icon() == before.default_icon(),
        after.directory_icon() == before.directory_icon(),
        forall|e: Seq<char>| #[trigger] after.known(e) == if e == ext {
            Some(index)
        } else {
            before.known(e)
        },
    ensures
        !is_directory_flags(flags) && extension_of(name) == Some(ext) ==> icon_for(
            after.entries(),
            after.default_icon(),
            after.directory_icon(),
            flags,
            name,
        ) == Some(index),
        extension_of(name) != Some(ext) ==> icon_for(
            after.entries(),
            after.default_icon(),
            after.directory_icon(),
            flags,
            name,
        ) == icon_for(before.entries(), before.default_icon(), before.directory_icon(), flags, name),
{
    if let Some(e) = extension_of(name) {
        assert(after.known(e) == cached(after.entries(), e));
        assert(before.known(e) == cached(before.entries(), e));
    }
}

} // verus!
