use vstd::prelude::*;

use crate::domain::connection::SavedConnection;
use crate::services::config::{folder_view, folders_view, lemma_folders_view_ext, Folder};
use crate::text::same_text;

verus! {

/// Pre-order search from sibling `i` on: the index path of the first folder whose id is `id`,
/// looking at a folder, then into its subfolders, then at its later siblings.
pub open spec fn folder_path_from(fs: Seq<Folder>, id: Seq<char>, i: int) -> Option<Seq<int>>
    decreases fs, fs.len() - i,
{
    if i < 0 || i >= fs.len() {
        None
    } else if fs[i].id@ == id {
        Some(seq![i])
    } else {
        match folder_path_from(fs[i].subfolders@, id, 0) {
            Some(p) => Some(seq![i] + p),
            None => folder_path_from(fs, id, i + 1),
        }
    }
}

/// The index path of the first folder with id `id` in pre-order, if any.
pub open spec fn folder_path(fs: Seq<Folder>, id: Seq<char>) -> Option<Seq<int>> {
    folder_path_from(fs, id, 0)
}

/// Whether `path` leads from the list `fs` to a folder.
pub open spec fn valid_path(fs: Seq<Folder>, path: Seq<int>) -> bool
    decreases path.len(),
{
    &&& path.len() > 0
    &&& 0 <= path[0] < fs.len()
    &&& (path.len() == 1 || valid_path(fs[path[0]].subfolders@, path.drop_first()))
}

/// The folder that `path` leads to.
pub open spec fn folder_at(fs: Seq<Folder>, path: Seq<int>) -> Folder
    decreases path.len(),
{
    if path.len() <= 1 {
        fs[path[0]]
    } else {
        folder_at(fs[path[0]].subfolders@, path.drop_first())
    }
}

/// Two folders that agree on everything but their subfolders.
pub open spec fn same_but_subfolders(a: Folder, b: Folder) -> bool {
    &&& a.id == b.id
    &&& a.name == b.name
    &&& a.connections == b.connections
    &&& a.expanded == b.expanded
    &&& a.text_tint_rgba == b.text_tint_rgba
}

/// `new` is `old` in which only the folder at `path` changed, from `a` to `b` with `rel(a, b)`.
pub open spec fn changed_at(
    old: Seq<Folder>,
    new: Seq<Folder>,
    path: Seq<int>,
    rel: spec_fn(Folder, Folder) -> bool,
) -> bool
    decreases path.len(),
{
    &&& path.len() > 0
    &&& 0 <= path[0] < old.len()
    &&& new.len() == old.len()
    &&& forall|i: int| 0 <= i < old.len() && i != path[0] ==> new[i] == old[i]
    &&& if path.len() == 1 {
        rel(old[path[0]], new[path[0]])
    } else {
        &&& same_but_subfolders(old[path[0]], new[path[0]])
        &&& changed_at(
            old[path[0]].subfolders@,
            new[path[0]].subfolders@,
            path.drop_first(),
            rel,
        )
    }
}

/// A change at `path` that satisfies `r1` also satisfies `r2`, when `r2` follows from `r1`
/// for the folder that stands there.
pub proof fn lemma_changed_at_weaken(
    old: Seq<Folder>,
    path: Seq<int>,
    r1: spec_fn(Folder, Folder) -> bool,
    r2: spec_fn(Folder, Folder) -> bool,
)
    requires
        valid_path(old, path),
        forall|b: Folder| #[trigger] r1(folder_at(old, path), b) ==> r2(folder_at(old, path), b),
    ensures
        forall|new: Seq<Folder>|
            #[trigger] changed_at(old, new, path, r1) ==> changed_at(old, new, path, r2),
    decreases path.len(),
{
    if path.len() > 1 {
        let sub = old[path[0]].subfolders@;
        let rest = path.drop_first();
        assert(folder_at(old, path) == folder_at(sub, rest));
        lemma_changed_at_weaken(sub, rest, r1, r2);
        assert forall|new: Seq<Folder>| #[trigger]
            changed_at(old, new, path, r1) implies changed_at(old, new, path, r2) by {
            assert(changed_at(sub, new[path[0]].subfolders@, rest, r1));
        }
    }
}

/// A change at `path` that leaves the folder standing there with the same contents leaves the
/// whole tree with the same contents.
pub proof fn lemma_changed_at_same_contents(
    old: Seq<Folder>,
    new: Seq<Folder>,
    path: Seq<int>,
    rel: spec_fn(Folder, Folder) -> bool,
)
    requires
        valid_path(old, path),
        changed_at(old, new, path, rel),
        forall|b: Folder| #[trigger] rel(folder_at(old, path), b) ==> folder_view(b) == folder_view(folder_at(old, path)),
    ensures
        folders_view(new) == folders_view(old),
    decreases path.len(),
{
    if path.len() > 1 {
        let sub = old[path[0]].subfolders@;
        let rest = path.drop_first();
        assert(folder_at(old, path) == folder_at(sub, rest));
        lemma_changed_at_same_contents(sub, new[path[0]].subfolders@, rest, rel);
    }
    assert forall|i: int| 0 <= i < old.len() implies folder_view(old[i]) == folder_view(new[i]) by {
        if i == path[0] && path.len() == 1 {
            assert(rel(folder_at(old, path), new[i]));
        }
    }
    lemma_folders_view_ext(old, new);
}

/// A connection lent out by `find_connection_mut` and given back as it was leaves the tree
/// with the same contents: looking at a connection through the lend changes nothing.
pub proof fn lemma_unwritten_lend_keeps_tree(old: Seq<Folder>, new: Seq<Folder>, path: Seq<int>, k: int, c: SavedConnection)
    requires
        valid_path(old, path),
        0 <= k < folder_at(old, path).connections@.len(),
        c == folder_at(old, path).connections@[k],
        changed_at(
            old,
            new,
            path,
            |a: Folder, b: Folder| same_but_connections(a, b) && b.connections@ == a.connections@.update(k, c),
        ),
    ensures
        folders_view(new) == folders_view(old),
{
    let rel = |a: Folder, b: Folder| same_but_connections(a, b) && b.connections@ == a.connections@.update(k, c);
    let f = folder_at(old, path);
    assert forall|b: Folder| #[trigger] rel(f, b) implies folder_view(b) == folder_view(f) by {
        assert(b.connections@ =~= f.connections@);
    }
    lemma_changed_at_same_contents(old, new, path, rel);
}

/// Whether some folder in the tree has id `id`.
fn contains_folder(folders: &Vec<Folder>, id: &str) -> (r: bool)
    ensures
        r == (folder_path(folders@, id@) is Some),
    decreases folders,
{
    let mut i: usize = 0;
    while i < folders.len()
        invariant
            i <= folders.len(),
            folder_path(folders@, id@) == folder_path_from(folders@, id@, i as int),
        decreases folders.len() - i,
    {
        if same_text(folders[i].id.as_str(), id) {
            return true;
        }
        if contains_folder(&folders[i].subfolders, id) {
            return true;
        }
        i += 1;
    }
    false
}

/// Finds the first folder with id `id` (pre-order) and lends it out for change.
pub fn find_folder_mut<'a>(folders: &'a mut Vec<Folder>, id: &str) -> (res: Option<&'a mut Folder>)
    ensures
        match folder_path(old(folders)@, id@) {
            None => res is None && final(folders)@ == old(folders)@,
            Some(p) => res matches Some(r) && valid_path(old(folders)@, p) && *r == folder_at(
                old(folders)@,
                p,
            ) && changed_at(old(folders)@, final(folders)@, p, |a: Folder, b: Folder| b == *final(r)),
        },
    decreases *old(folders),
{
    let mut i: usize = 0;
    while i < folders.len()
        invariant
            i <= folders.len(),
            folders@ == old(folders)@,
            folder_path(folders@, id@) == folder_path_from(folders@, id@, i as int),
        decreases folders.len() - i,
    {
        if same_text(folders[i].id.as_str(), id) {
            return Some(&mut folders[i]);
        }
        if contains_folder(&folders[i].subfolders, id) {
            proof {
                let p = folder_path(folders@[i as int].subfolders@, id@)->0;
                assert((seq![i as int] + p).drop_first() == p);
                assert((seq![i as int] + p)[0] == i);
            }
            let f = &mut folders[i];
            return find_folder_mut(&mut f.subfolders, id);
        }
        i += 1;
    }
    None
}

/// The first index from `k` on of a connection whose id is `id`.
pub open spec fn conn_index_from(cs: Seq<SavedConnection>, id: Seq<char>, k: int) -> Option<int>
    decreases cs.len() - k,
{
    if k < 0 || k >= cs.len() {
        None
    } else if cs[k].id@ == id {
        Some(k)
    } else {
        conn_index_from(cs, id, k + 1)
    }
}

/// Pre-order search from sibling `i` on: the path of the first folder holding, among its own
/// connections, one whose id is `id`, and that connection's first index there.
pub open spec fn connection_path_from(fs: Seq<Folder>, id: Seq<char>, i: int) -> Option<(Seq<int>, int)>
    decreases fs, fs.len() - i,
{
    if i < 0 || i >= fs.len() {
        None
    } else {
        match conn_index_from(fs[i].connections@, id, 0) {
            Some(k) => Some((seq![i], k)),
            None => match connection_path_from(fs[i].subfolders@, id, 0) {
                Some(pk) => Some((seq![i] + pk.0, pk.1)),
                None => connection_path_from(fs, id, i + 1),
            },
        }
    }
}

/// Where the first connection with id `id` stands: its folder's path and its index there.
pub open spec fn connection_path(fs: Seq<Folder>, id: Seq<char>) -> Option<(Seq<int>, int)> {
    connection_path_from(fs, id, 0)
}

/// The connection that `connection_path` finds, if any.
pub open spec fn spec_find_connection(fs: Seq<Folder>, id: Seq<char>) -> Option<SavedConnection> {
    match connection_path(fs, id) {
        Some(pk) => Some(folder_at(fs, pk.0).connections@[pk.1]),
        None => None,
    }
}

/// Two folders that agree on everything but their own connections.
pub open spec fn same_but_connections(a: Folder, b: Folder) -> bool {
    &&& a.id == b.id
    &&& a.name == b.name
    &&& a.subfolders == b.subfolders
    &&& a.expanded == b.expanded
    &&& a.text_tint_rgba == b.text_tint_rgba
}

/// What the connection search finds from index `k` on is a connection with that id.
proof fn lemma_conn_index_from_finds(cs: Seq<SavedConnection>, id: Seq<char>, k: int)
    ensures
        conn_index_from(cs, id, k) matches Some(j) ==> k <= j < cs.len() && cs[j].id@ == id,
    decreases cs.len() - k,
{
    if 0 <= k < cs.len() && cs[k].id@ != id {
        lemma_conn_index_from_finds(cs, id, k + 1);
    }
}

/// A path that starts at sibling `i` and goes on with `p` below it.
pub proof fn lemma_path_below(fs: Seq<Folder>, i: int, p: Seq<int>)
    requires
        0 <= i < fs.len(),
        valid_path(fs[i].subfolders@, p),
    ensures
        valid_path(fs, seq![i] + p),
        folder_at(fs, seq![i] + p) == folder_at(fs[i].subfolders@, p),
{
    let q = seq![i] + p;
    assert(q.drop_first() =~= p);
    assert(q[0] == i);
}

/// The folder search only finds what it looks for: from sibling `i` on, the path it gives
/// leads to a folder with the id.
pub proof fn lemma_folder_path_from_finds(fs: Seq<Folder>, id: Seq<char>, i: int)
    ensures
        folder_path_from(fs, id, i) matches Some(p) ==> valid_path(fs, p) && folder_at(fs, p).id@ == id,
    decreases fs, fs.len() - i,
{
    if 0 <= i < fs.len() && fs[i].id@ != id {
        lemma_folder_path_from_finds(fs[i].subfolders@, id, 0);
        lemma_folder_path_from_finds(fs, id, i + 1);
        if let Some(p) = folder_path_from(fs[i].subfolders@, id, 0) {
            lemma_path_below(fs, i, p);
        }
    } else if 0 <= i < fs.len() {
        assert(seq![i].len() == 1 && seq![i][0] == i);
    }
}

/// The connection search only finds what it looks for: from sibling `i` on, the folder path
/// and index it gives lead to a connection with the id.
pub proof fn lemma_connection_path_from_finds(fs: Seq<Folder>, id: Seq<char>, i: int)
    ensures
        connection_path_from(fs, id, i) matches Some(pk) ==> valid_path(fs, pk.0) && 0 <= pk.1 < folder_at(
            fs,
            pk.0,
        ).connections@.len() && folder_at(fs, pk.0).connections@[pk.1].id@ == id,
    decreases fs, fs.len() - i,
{
    if 0 <= i < fs.len() {
        lemma_conn_index_from_finds(fs[i].connections@, id, 0);
        if conn_index_from(fs[i].connections@, id, 0) is Some {
            assert(seq![i].len() == 1 && seq![i][0] == i);
        } else {
            lemma_connection_path_from_finds(fs[i].subfolders@, id, 0);
            lemma_connection_path_from_finds(fs, id, i + 1);
            if let Some(pk) = connection_path_from(fs[i].subfolders@, id, 0) {
                lemma_path_below(fs, i, pk.0);
            }
        }
    }
}

/// `find_connection` and `remove_connection` give a connection with the id asked for, and
/// `find_folder_mut` a folder with the id asked for.
pub proof fn lemma_found_items_have_the_id(fs: Seq<Folder>, id: Seq<char>)
    ensures
        spec_find_connection(fs, id) matches Some(c) ==> c.id@ == id,
        folder_path(fs, id) matches Some(p) ==> folder_at(fs, p).id@ == id,
{
    lemma_connection_path_from_finds(fs, id, 0);
    lemma_folder_path_from_finds(fs, id, 0);
}

/// The index of the first connection in `cs` whose id is `id`.
fn position_of_connection(cs: &Vec<SavedConnection>, id: &str) -> (r: Option<usize>)
    ensures
        match r {
            Some(k) => conn_index_from(cs@, id@, 0) == Some(k as int),
            None => conn_index_from(cs@, id@, 0) is None,
        },
        r matches Some(k) ==> k < cs@.len(),
{
    let mut k: usize = 0;
    while k < cs.len()
        invariant
            k <= cs.len(),
            conn_index_from(cs@, id@, 0) == conn_index_from(cs@, id@, k as int),
        decreases cs.len() - k,
    {
        if same_text(cs[k].id.as_str(), id) {
            return Some(k);
        }
        k += 1;
    }
    None
}

/// Whether some folder of the tree holds a connection with id `id`.
fn contains_connection(folders: &Vec<Folder>, id: &str) -> (r: bool)
    ensures
        r == (connection_path(folders@, id@) is Some),
    decreases folders,
{
    let mut i: usize = 0;
    while i < folders.len()
        invariant
            i <= folders.len(),
            connection_path(folders@, id@) == connection_path_from(folders@, id@, i as int),
        decreases folders.len() - i,
    {
        if position_of_connection(&folders[i].connections, id).is_some() {
            return true;
        }
        if contains_connection(&folders[i].subfolders, id) {
            return true;
        }
        i += 1;
    }
    false
}

/// Finds the first connection with id `conn_id` (pre-order over folders) and lends it out for change.
pub fn find_connection_mut<'a>(folders: &'a mut Vec<Folder>, conn_id: &str) -> (res: Option<
    &'a mut SavedConnection,
>)
    ensures
        match connection_path(old(folders)@, conn_id@) {
            None => res is None && final(folders)@ == old(folders)@,
            Some(pk) => res matches Some(r) && valid_path(old(folders)@, pk.0) && 0 <= pk.1
                < folder_at(old(folders)@, pk.0).connections@.len() && *r == folder_at(
                old(folders)@,
                pk.0,
            ).connections@[pk.1] && changed_at(
                old(folders)@,
                final(folders)@,
                pk.0,
                |a: Folder, b: Folder|
                    same_but_connections(a, b) && b.connections@ == a.connections@.update(
                        pk.1,
                        *final(r),
                    ),
            ),
        },
    decreases *old(folders),
{
    let mut i: usize = 0;
    while i < folders.len()
        invariant
            i <= folders.len(),
            folders@ == old(folders)@,
            connection_path(folders@, conn_id@) == connection_path_from(folders@, conn_id@, i as int),
        decreases folders.len() - i,
    {
        if let Some(k) = position_of_connection(&folders[i].connections, conn_id) {
            assert(seq![i as int][0] == i as int && seq![i as int].len() == 1);
            let f = &mut folders[i];
            return Some(&mut f.connections[k]);
        }
        if contains_connection(&folders[i].subfolders, conn_id) {
            proof {
                let pk = connection_path(folders@[i as int].subfolders@, conn_id@)->0;
                assert((seq![i as int] + pk.0).drop_first() == pk.0);
                assert((seq![i as int] + pk.0)[0] == i);
            }
            let f = &mut folders[i];
            return find_connection_mut(&mut f.subfolders, conn_id);
        }
        i += 1;
    }
    None
}

/// Finds the first connection with id `conn_id`, looking in each folder's own connections
/// before its subfolders, and in a folder before its later siblings.
pub fn find_connection<'a>(folders: &'a [Folder], conn_id: &str) -> (res: Option<&'a SavedConnection>)
    ensures
        match spec_find_connection(folders@, conn_id@) {
            Some(c) => res matches Some(r) && *r == c,
            None => res is None,
        },
        match connection_path(folders@, conn_id@) {
            Some(pk) => valid_path(folders@, pk.0) && 0 <= pk.1 < folder_at(folders@, pk.0).connections@.len(),
            None => true,
        },
    decreases folders@,
{
    let mut i: usize = 0;
    while i < folders.len()
        invariant
            i <= folders.len(),
            connection_path(folders@, conn_id@) == connection_path_from(folders@, conn_id@, i as int),
        decreases folders.len() - i,
    {
        if let Some(k) = position_of_connection(&folders[i].connections, conn_id) {
            assert(seq![i as int][0] == i as int && seq![i as int].len() == 1);
            return Some(&folders[i].connections[k]);
        }
        let sub = folders[i].subfolders.as_slice();
        let found = find_connection(sub, conn_id);
        if found.is_some() {
            proof {
                let pk = connection_path(sub@, conn_id@)->0;
                assert((seq![i as int] + pk.0).drop_first() == pk.0);
                assert((seq![i as int] + pk.0)[0] == i);
            }
            return found;
        }
        i += 1;
    }
    None
}

/// `new` is `old` without the connection that `connection_path` finds for `id`; the same tree
/// where there is none.
pub open spec fn connection_removed(old: Seq<Folder>, new: Seq<Folder>, id: Seq<char>) -> bool {
    match connection_path(old, id) {
        None => new == old,
        Some(pk) => changed_at(
            old,
            new,
            pk.0,
            |a: Folder, b: Folder|
                same_but_connections(a, b) && b.connections@ == a.connections@.remove(pk.1),
        ),
    }
}

/// Takes out of the tree the first connection with id `conn_id` (same search as
/// `find_connection`) and returns it.
pub fn remove_connection(folders: &mut Vec<Folder>, conn_id: &str) -> (res: Option<SavedConnection>)
    ensures
        res == spec_find_connection(old(folders)@, conn_id@),
        connection_removed(old(folders)@, final(folders)@, conn_id@),
    decreases *old(folders),
{
    let mut i: usize = 0;
    while i < folders.len()
        invariant
            i <= folders.len(),
            folders@ == old(folders)@,
            connection_path(folders@, conn_id@) == connection_path_from(folders@, conn_id@, i as int),
        decreases folders.len() - i,
    {
        if let Some(k) = position_of_connection(&folders[i].connections, conn_id) {
            assert(seq![i as int][0] == i as int && seq![i as int].len() == 1);
            let f = &mut folders[i];
            return Some(f.connections.remove(k));
        }
        if contains_connection(&folders[i].subfolders, conn_id) {
            proof {
                let pk = connection_path(folders@[i as int].subfolders@, conn_id@)->0;
                assert((seq![i as int] + pk.0).drop_first() == pk.0);
                assert((seq![i as int] + pk.0)[0] == i);
            }
            let f = &mut folders[i];
            return remove_connection(&mut f.subfolders, conn_id);
        }
        i += 1;
    }
    None
}

/// `c` with its text tint set to `tint`.
pub open spec fn with_tint(c: SavedConnection, tint: Option<[u8; 4]>) -> SavedConnection {
    SavedConnection { text_tint_rgba: tint, ..c }
}

/// `b` is `a` with each of its own connections tinted `tint`.
pub open spec fn tinted_children(a: Folder, b: Folder, tint: Option<[u8; 4]>) -> bool {
    &&& same_but_connections(a, b)
    &&& b.connections@.len() == a.connections@.len()
    &&& forall|j: int|
        0 <= j < a.connections@.len() ==> b.connections@[j] == with_tint(a.connections@[j], tint)
}

/// Sets the text tint of every connection directly inside the folder `folder_id`
/// (not those of its subfolders). Returns whether the folder was found.
pub fn set_direct_child_connection_text_tint(
    folders: &mut Vec<Folder>,
    folder_id: &str,
    tint: Option<[u8; 4]>,
) -> (found: bool)
    ensures
        found == (folder_path(old(folders)@, folder_id@) is Some),
        match folder_path(old(folders)@, folder_id@) {
            None => final(folders)@ == old(folders)@,
            Some(p) => changed_at(
                old(folders)@,
                final(folders)@,
                p,
                |a: Folder, b: Folder| tinted_children(a, b, tint),
            ),
        },
{
    if let Some(folder) = find_folder_mut(folders, folder_id) {
        let ghost before = *folder;
        let mut j: usize = 0;
        while j < folder.connections.len()
            invariant
                j <= folder.connections.len(),
                same_but_connections(before, *folder),
                folder.connections@.len() == before.connections@.len(),
                forall|t: int| 0 <= t < j ==> folder.connections@[t] == with_tint(before.connections@[t], tint),
                forall|t: int| j <= t < folder.connections@.len() ==> folder.connections@[t] == before.connections@[t],
            decreases folder.connections.len() - j,
        {
            folder.connections[j].text_tint_rgba = tint;
            j += 1;
        }
        proof {
            let p = folder_path(old(folders)@, folder_id@)->0;
            assert(folder.connections@ =~= folder.connections@);
            lemma_changed_at_weaken(
                old(folders)@,
                p,
                |a: Folder, b: Folder| b == *folder,
                |a: Folder, b: Folder| tinted_children(a, b, tint),
            );
        }
        return true;
    }
    false
}

/// The first index from `k` on of a folder (in this list only) whose id is `id`.
pub open spec fn sibling_index_from(fs: Seq<Folder>, id: Seq<char>, k: int) -> Option<int>
    decreases fs.len() - k,
{
    if k < 0 || k >= fs.len() {
        None
    } else if fs[k].id@ == id {
        Some(k)
    } else {
        sibling_index_from(fs, id, k + 1)
    }
}

/// The path of the folder that `remove_folder` takes out: a folder of this list with id `id`
/// if there is one (the first), else the first one found by the same search inside each
/// sibling's subfolders, sibling by sibling.
pub open spec fn removal_path(fs: Seq<Folder>, id: Seq<char>) -> Option<Seq<int>>
    decreases fs, fs.len() + 1,
{
    match sibling_index_from(fs, id, 0) {
        Some(k) => Some(seq![k]),
        None => removal_path_below(fs, id, 0),
    }
}

/// `removal_path` inside the subfolders of the siblings from `j` on.
pub open spec fn removal_path_below(fs: Seq<Folder>, id: Seq<char>, j: int) -> Option<Seq<int>>
    decreases fs, fs.len() - j,
{
    if j < 0 || j >= fs.len() {
        None
    } else {
        match removal_path(fs[j].subfolders@, id) {
            Some(p) => Some(seq![j] + p),
            None => removal_path_below(fs, id, j + 1),
        }
    }
}

/// `new` is `old` with the folder at `path` taken out, everything else kept.
pub open spec fn removed_at(old: Seq<Folder>, new: Seq<Folder>, path: Seq<int>) -> bool
    decreases path.len(),
{
    &&& path.len() > 0
    &&& 0 <= path[0] < old.len()
    &&& if path.len() == 1 {
        new == old.remove(path[0])
    } else {
        &&& new.len() == old.len()
        &&& forall|i: int| 0 <= i < old.len() && i != path[0] ==> new[i] == old[i]
        &&& same_but_subfolders(old[path[0]], new[path[0]])
        &&& removed_at(old[path[0]].subfolders@, new[path[0]].subfolders@, path.drop_first())
    }
}

/// A folder with id `id` can be removed from the tree exactly when one can be found in it:
/// `remove_folder` reports success on the same trees on which `find_folder_mut` finds one.
pub proof fn lemma_removal_iff_found(fs: Seq<Folder>, id: Seq<char>)
    ensures
        (removal_path(fs, id) is Some) == (folder_path(fs, id) is Some),
    decreases fs, fs.len() + 1,
{
    lemma_removal_below_iff_found_from(fs, id, 0);
}

/// From sibling `i` on, the pre-order search finds a folder exactly when a sibling has the id
/// or the removal search finds one below.
pub proof fn lemma_removal_below_iff_found_from(fs: Seq<Folder>, id: Seq<char>, i: int)
    requires
        0 <= i,
    ensures
        (folder_path_from(fs, id, i) is Some) == (sibling_index_from(fs, id, i) is Some
            || removal_path_below(fs, id, i) is Some),
    decreases fs, fs.len() - i,
{
    if i < fs.len() {
        lemma_removal_iff_found(fs[i].subfolders@, id);
        lemma_removal_below_iff_found_from(fs, id, i + 1);
    }
}

/// The index of the first folder of this list (not below) whose id is `id`.
fn position_of_folder(fs: &Vec<Folder>, id: &str) -> (r: Option<usize>)
    ensures
        match r {
            Some(k) => sibling_index_from(fs@, id@, 0) == Some(k as int) && k < fs@.len(),
            None => sibling_index_from(fs@, id@, 0) is None,
        },
{
    let mut k: usize = 0;
    while k < fs.len()
        invariant
            k <= fs.len(),
            sibling_index_from(fs@, id@, 0) == sibling_index_from(fs@, id@, k as int),
        decreases fs.len() - k,
    {
        if same_text(fs[k].id.as_str(), id) {
            return Some(k);
        }
        k += 1;
    }
    None
}

/// Removes a folder with id `folder_id`: one of this list if any, else the first found
/// below, sibling by sibling. Returns whether one was removed.
pub fn remove_folder(folders: &mut Vec<Folder>, folder_id: &str) -> (removed: bool)
    ensures
        removed == (removal_path(old(folders)@, folder_id@) is Some),
        match removal_path(old(folders)@, folder_id@) {
            None => final(folders)@ == old(folders)@,
            Some(p) => removed_at(old(folders)@, final(folders)@, p),
        },
    decreases *old(folders),
{
    if let Some(pos) = position_of_folder(folders, folder_id) {
        assert(seq![pos as int][0] == pos as int && seq![pos as int].len() == 1);
        folders.remove(pos);
        return true;
    }
    let mut i: usize = 0;
    while i < folders.len()
        invariant
            i <= folders.len(),
            folders@ == old(folders)@,
            removal_path(folders@, folder_id@) == removal_path_below(folders@, folder_id@, i as int),
        decreases folders.len() - i,
    {
        proof {
            lemma_removal_iff_found(folders@[i as int].subfolders@, folder_id@);
        }
        if contains_folder(&folders[i].subfolders, folder_id) {
            proof {
                let p = removal_path(old(folders)@[i as int].subfolders@, folder_id@)->0;
                assert((seq![i as int] + p).drop_first() == p);
                assert((seq![i as int] + p)[0] == i);
            }
            let f = &mut folders[i];
            let removed = remove_folder(&mut f.subfolders, folder_id);
            return removed;
        }
        i += 1;
    }
    false
}

} // verus!
