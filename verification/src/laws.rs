use vstd::prelude::*;

use crate::files::written;
use crate::order::{lemma_text_order, text_lt};

use crate::file_entity::{id_agrees, id_key, is_directory_flags, FileEntity, FileEntityView, FileId};
use crate::storage::{StorageIter, has_id, name_added, is_dir_id, marked_deleted, stored_entity, stored_sorted, upserted, Storage, StoredFile};

verus! {

/// In a list sorted by id, an entry with a given id is the only one.
proof fn lemma_unique_id(s: Seq<StoredFile>, i: int, j: int)
    requires
        stored_sorted(s),
        0 <= i < s.len(),
        0 <= j < s.len(),
        s[i].id == s[j].id,
    ensures
        i == j,
{
    if i < j {
        assert(id_key(s[i].id) < id_key(s[j].id));
    } else if j < i {
        assert(id_key(s[j].id) < id_key(s[i].id));
    }
}

/// The entry of a sorted list with id `id` is the one at the index holding it.
proof fn lemma_entry_at(st: Storage, id: FileId, i: int)
    requires
        st.wf(),
        0 <= i < st.kind(is_dir_id(id)).len(),
        st.kind(is_dir_id(id))[i].id == id,
    ensures
        st.present(id),
        st.entry_of(id) == st.kind(is_dir_id(id))[i],
{
    st.lemma_sorted();
    let k = st.kind(is_dir_id(id));
    let j = choose|j: int| 0 <= j < k.len() && #[trigger] k[j].id == id;
    lemma_unique_id(k, i, j);
}

/// What a write gives back: once a file is written in (added or updated),
/// the index holds it under its id, and every other id reads as before. A
/// file is kept with the directories when its flags say so, and is looked up
/// there when its id says so; the law is about files on which both agree.
pub proof fn law_upsert_then_get(before: Storage, after: Storage, e: StoredFile)
    requires
        before.wf(),
        after.wf(),
        is_directory_flags(e.flags) == is_dir_id(e.id),
        upserted(before.kind(is_directory_flags(e.flags)), after.kind(is_directory_flags(e.flags)), e),
        after.kind(!is_directory_flags(e.flags)) == before.kind(!is_directory_flags(e.flags)),
    ensures
        after.present(e.id),
        after.entry_of(e.id) == e,
        forall|id: FileId| id != e.id ==> (#[trigger] after.present(id) <==> before.present(id)),
        forall|id: FileId| id != e.id && before.present(id) ==> #[trigger] after.entry_of(id) == before.entry_of(id),
        after.all().len() == before.all().len() + if before.present(e.id) {
            0int
        } else {
            1int
        },
{
    let d = is_directory_flags(e.flags);
    let s = before.kind(d);
    let t = after.kind(d);
    before.lemma_sorted();
    after.lemma_sorted();
    if exists|i: int| 0 <= i < s.len() && #[trigger] s[i].id == e.id && t == s.update(i, e) {
        let i = choose|i: int| 0 <= i < s.len() && #[trigger] s[i].id == e.id && t == s.update(i, e);
        lemma_entry_at(after, e.id, i);
        assert forall|id: FileId| id != e.id implies (#[trigger] after.present(id) <==> before.present(id)) by {
            if is_dir_id(id) == d {
                if after.present(id) {
                    let j = choose|j: int| 0 <= j < t.len() && #[trigger] t[j].id == id;
                    assert(j != i);
                    assert(s[j].id == id);
                }
                if before.present(id) {
                    let j = choose|j: int| 0 <= j < s.len() && #[trigger] s[j].id == id;
                    assert(j != i);
                    assert(t[j].id == id);
                }
            }
        }
        assert forall|id: FileId| id != e.id && before.present(id) implies #[trigger] after.entry_of(id)
            == before.entry_of(id) by {
            if is_dir_id(id) == d {
                let j = choose|j: int| 0 <= j < s.len() && #[trigger] s[j].id == id;
                assert(j != i);
                lemma_entry_at(before, id, j);
                lemma_entry_at(after, id, j);
            }
        }
    } else {
        let i = choose|i: int| 0 <= i <= s.len() && t == #[trigger] s.insert(i, e);
        assert(t[i] == e);
        lemma_entry_at(after, e.id, i);
        assert forall|id: FileId| id != e.id implies (#[trigger] after.present(id) <==> before.present(id)) by {
            if is_dir_id(id) == d {
                if after.present(id) {
                    let j = choose|j: int| 0 <= j < t.len() && #[trigger] t[j].id == id;
                    if j < i {
                        assert(s[j].id == id);
                    } else {
                        assert(j > i);
                        assert(s[j - 1].id == id);
                    }
                }
                if before.present(id) {
                    let j = choose|j: int| 0 <= j < s.len() && #[trigger] s[j].id == id;
                    if j < i {
                        assert(t[j].id == id);
                    } else {
                        assert(t[j + 1].id == id);
                    }
                }
            }
        }
        assert forall|id: FileId| id != e.id && before.present(id) implies #[trigger] after.entry_of(id)
            == before.entry_of(id) by {
            if is_dir_id(id) == d {
                let j = choose|j: int| 0 <= j < s.len() && #[trigger] s[j].id == id;
                lemma_entry_at(before, id, j);
                if j < i {
                    assert(t[j] == s[j]);
                    lemma_entry_at(after, id, j);
                } else {
                    assert(t[j + 1] == s[j]);
                    lemma_entry_at(after, id, j + 1);
                }
            }
        }
    }
}

/// What deleting does: the entry with the id stays, marked deleted; every
/// other entry, and which ids the index holds, stay as they were.
pub proof fn law_delete_marks_only_that_entry(before: Storage, after: Storage, id: FileId)
    requires
        before.wf(),
        after.wf(),
        after.kind(is_dir_id(id)) == marked_deleted(before.kind(is_dir_id(id)), id),
        after.kind(!is_dir_id(id)) == before.kind(!is_dir_id(id)),
    ensures
        forall|x: FileId| #[trigger] after.present(x) <==> before.present(x),
        before.present(id) ==> after.entry_of(id) == (StoredFile { deleted: true, ..before.entry_of(id) }),
        forall|x: FileId| x != id && before.present(x) ==> #[trigger] after.entry_of(x) == before.entry_of(x),
{
    let d = is_dir_id(id);
    let s = before.kind(d);
    let t = after.kind(d);
    assert(t.len() == s.len());
    assert forall|j: int| 0 <= j < s.len() implies (#[trigger] t[j]).id == s[j].id by {}
    assert forall|x: FileId| #[trigger] after.present(x) <==> before.present(x) by {
        if is_dir_id(x) == d {
            if after.present(x) {
                let j = choose|j: int| 0 <= j < t.len() && #[trigger] t[j].id == x;
                assert(s[j].id == x);
            }
            if before.present(x) {
                let j = choose|j: int| 0 <= j < s.len() && #[trigger] s[j].id == x;
                assert(t[j].id == x);
            }
        }
    }
    if before.present(id) {
        let j = choose|j: int| 0 <= j < s.len() && #[trigger] s[j].id == id;
        lemma_entry_at(before, id, j);
        assert(t[j].id == id);
        lemma_entry_at(after, id, j);
    }
    assert forall|x: FileId| x != id && before.present(x) implies #[trigger] after.entry_of(x) == before.entry_of(x) by {
        if is_dir_id(x) == d {
            let j = choose|j: int| 0 <= j < s.len() && #[trigger] s[j].id == x;
            lemma_entry_at(before, x, j);
            assert(t[j].id == x);
            lemma_entry_at(after, x, j);
        }
    }
}

/// What a bulk load gives back: each loaded file is found under its id,
/// as it was received.
pub proof fn law_bulk_insert_then_get(after: Storage, files: Seq<FileEntity>, k: int)
    requires
        after.wf(),
        0 <= k < files.len(),
        id_agrees(files[k]@),
        forall|e: StoredFile|
            #[trigger] after.dirs().contains(e) <==> exists|j: int|
                0 <= j < files.len() && is_directory_flags((#[trigger] files[j])@.flags) && e == stored_entity(files[j]@),
        forall|e: StoredFile|
            #[trigger] after.files().contains(e) <==> exists|j: int|
                0 <= j < files.len() && !is_directory_flags((#[trigger] files[j])@.flags) && e == stored_entity(files[j]@),
    ensures
        after.present(files[k]@.id),
        after.entry_of(files[k]@.id) == stored_entity(files[k]@),
{
    let f = files[k]@;
    let e = stored_entity(f);
    let t = after.kind(is_dir_id(f.id));
    if is_directory_flags(f.flags) {
        assert(after.dirs().contains(e));
    } else {
        assert(after.files().contains(e));
    }
    let i = choose|i: int| 0 <= i < t.len() && t[i] == e;
    lemma_entry_at(after, f.id, i);
}

/// In a strictly sorted list there is one place for a new entry.
proof fn lemma_one_place_for_entry(s: Seq<StoredFile>, e: StoredFile, p: int, q: int)
    requires
        0 <= p <= s.len(),
        0 <= q <= s.len(),
        stored_sorted(s.insert(p, e)),
        stored_sorted(s.insert(q, e)),
    ensures
        p == q,
{
    if p < q {
        assert(s.insert(q, e)[p] == s[p] && s.insert(q, e)[q] == e);
        assert(s.insert(p, e)[p] == e && s.insert(p, e)[p + 1] == s[p]);
        assert(id_key(s.insert(q, e)[p].id) < id_key(s.insert(q, e)[q].id));
        assert(id_key(s.insert(p, e)[p].id) < id_key(s.insert(p, e)[p + 1].id));
    } else if q < p {
        assert(s.insert(p, e)[q] == s[q] && s.insert(p, e)[p] == e);
        assert(s.insert(q, e)[q] == e && s.insert(q, e)[q + 1] == s[q]);
        assert(id_key(s.insert(p, e)[q].id) < id_key(s.insert(p, e)[p].id));
        assert(id_key(s.insert(q, e)[q].id) < id_key(s.insert(q, e)[q + 1].id));
    }
}

/// In a strictly sorted table there is one place for a new name.
proof fn lemma_one_place_for_name(s: Seq<Seq<char>>, x: Seq<char>, p: int, q: int)
    requires
        0 <= p <= s.len(),
        0 <= q <= s.len(),
        forall|i: int, j: int| 0 <= i < j < s.insert(p, x).len() ==> text_lt(#[trigger] s.insert(p, x)[i], #[trigger] s.insert(p, x)[j]),
        forall|i: int, j: int| 0 <= i < j < s.insert(q, x).len() ==> text_lt(#[trigger] s.insert(q, x)[i], #[trigger] s.insert(q, x)[j]),
    ensures
        p == q,
{
    if p < q {
        assert(text_lt(s.insert(q, x)[p], s.insert(q, x)[q]));
        assert(text_lt(s.insert(p, x)[p], s.insert(p, x)[p + 1]));
        lemma_text_order(s[p], x, s[p]);
    } else if q < p {
        assert(text_lt(s.insert(p, x)[q], s.insert(p, x)[p]));
        assert(text_lt(s.insert(q, x)[q], s.insert(q, x)[q + 1]));
        lemma_text_order(s[q], x, s[q]);
    }
}

/// Writing a file in has one outcome: from the same index, adding a file
/// and updating it (or any two writes of it) leave the same directories,
/// plain files and names.
pub proof fn law_write_is_deterministic(before: Storage, a: Storage, b: Storage, f: FileEntityView)
    requires
        before.wf(),
        a.wf(),
        b.wf(),
        written(before, a, f),
        written(before, b, f),
    ensures
        a.dirs() == b.dirs(),
        a.files() == b.files(),
        a.name_table() == b.name_table(),
{
    let d = is_directory_flags(f.flags);
    let e = stored_entity(f);
    let s = before.kind(d);
    before.lemma_sorted();
    a.lemma_sorted();
    b.lemma_sorted();
    if has_id(s, e.id) {
        let i = choose|i: int| 0 <= i < s.len() && #[trigger] s[i].id == e.id;
        assert(exists|k: int| 0 <= k < s.len() && #[trigger] s[k].id == e.id && a.kind(d) == s.update(k, e));
        assert(exists|k: int| 0 <= k < s.len() && #[trigger] s[k].id == e.id && b.kind(d) == s.update(k, e));
        let ka = choose|k: int| 0 <= k < s.len() && #[trigger] s[k].id == e.id && a.kind(d) == s.update(k, e);
        let kb = choose|k: int| 0 <= k < s.len() && #[trigger] s[k].id == e.id && b.kind(d) == s.update(k, e);
        lemma_unique_id(s, ka, kb);
    } else {
        let ka = choose|k: int| 0 <= k <= s.len() && a.kind(d) == #[trigger] s.insert(k, e);
        let kb = choose|k: int| 0 <= k <= s.len() && b.kind(d) == #[trigger] s.insert(k, e);
        lemma_one_place_for_entry(s, e, ka, kb);
    }
    assert(a.dirs() == b.dirs() && a.files() == b.files()) by {
        if d {
            assert(a.kind(true) == b.kind(true));
        } else {
            assert(a.kind(false) == b.kind(false));
        }
    }
    let nt = before.name_table();
    if !nt.contains(f.name) {
        let pa = choose|p: int| 0 <= p <= nt.len() && a.name_table() == nt.insert(p, f.name);
        let pb = choose|p: int| 0 <= p <= nt.len() && b.name_table() == nt.insert(p, f.name);
        lemma_one_place_for_name(nt, f.name, pa, pb);
    }
}

/// The iterator's remaining entries after `k` of the steps `next` takes.
proof fn lemma_walk_prefix(s: Storage, states: Seq<StorageIter>, items: Seq<StoredFile>, k: int)
    requires
        states.len() == items.len() + 1,
        states[0].remaining() == s.all(),
        forall|j: int|
            0 <= j < items.len() ==> (#[trigger] states[j]).remaining().len() > 0 && items[j] == states[j].remaining()[0]
                && states[j + 1].remaining() == states[j].remaining().drop_first(),
        0 <= k <= items.len(),
    ensures
        states[k].remaining() == s.all().skip(k),
        k <= s.all().len(),
        items.take(k) == s.all().take(k),
    decreases k,
{
    if k == 0 {
        assert(s.all().skip(0) =~= s.all());
        assert(items.take(0) =~= s.all().take(0));
    } else {
        lemma_walk_prefix(s, states, items, k - 1);
        assert(states[k - 1].remaining().len() > 0);
        assert(s.all().skip(k - 1).drop_first() =~= s.all().skip(k));
        assert(items[k - 1] == s.all()[k - 1]);
        assert(items.take(k) =~= items.take(k - 1).push(items[k - 1]));
        assert(s.all().take(k) =~= s.all().take(k - 1).push(s.all()[k - 1]));
    }
}

/// A whole walk of the iterator: the entries `next` hands out, one per
/// step, are the index's entries in listing order (directories first, each
/// kind by id), each once; once it gives nothing, every entry was handed out.
pub proof fn law_iter_walk(s: Storage, states: Seq<StorageIter>, items: Seq<StoredFile>)
    requires
        states.len() == items.len() + 1,
        states[0].remaining() == s.all(),
        forall|j: int|
            0 <= j < items.len() ==> (#[trigger] states[j]).remaining().len() > 0 && items[j] == states[j].remaining()[0]
                && states[j + 1].remaining() == states[j].remaining().drop_first(),
    ensures
        items.len() <= s.all().len(),
        items == s.all().take(items.len() as int),
        states[items.len() as int].remaining().len() == 0 ==> items == s.all(),
{
    lemma_walk_prefix(s, states, items, items.len() as int);
    assert(items.take(items.len() as int) =~= items);
    if states[items.len() as int].remaining().len() == 0 {
        assert(s.all().take(items.len() as int) =~= s.all());
    }
}

} // verus!
