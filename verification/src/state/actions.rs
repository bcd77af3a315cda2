use vstd::prelude::*;

use crate::domain::connection::{AuthMethod, SavedConnection};
use crate::domain::folder_tree::{
    changed_at, connection_path, connection_removed, find_connection_mut, find_folder_mut, folder_at,
    folder_path, lemma_changed_at_weaken, remove_connection, same_but_connections, same_but_subfolders,
    set_direct_child_connection_text_tint, spec_find_connection, tinted_children, valid_path,
};
use crate::services::config::{
    any_encrypted, folders_view, has_encrypted_passwords, new_uuid, AppConfig, Folder, ServerExport, TailscaleGroupRule,
};
use crate::services::ssh::PortForwardRule;
use crate::services::tailscale::{lowercase, to_lowercase, TailscaleDevice};
use crate::text::{chars_lex_lt, chars_of, lex_lt, same_text, texts, texts_contain, trim, trim_chars};

verus! {

/// Moves the connection `conn_id` into the folder `target_folder_id`: takes it out of the tree
/// (as `remove_connection` does), then appends it to the target folder's own connections.
/// Where the target folder is not found after the removal, the connection stays removed.
/// Returns whether the connection reached the target folder.
pub fn move_connection(folders: &mut Vec<Folder>, conn_id: &str, target_folder_id: &str) -> (moved: bool)
    ensures
        match spec_find_connection(old(folders)@, conn_id@) {
            None => !moved && final(folders)@ == old(folders)@,
            Some(c) => exists|mid: Seq<Folder>|
                #![trigger connection_removed(old(folders)@, mid, conn_id@)]
                connection_removed(old(folders)@, mid, conn_id@) && match folder_path(mid, target_folder_id@) {
                    None => !moved && final(folders)@ == mid,
                    Some(p) => moved && changed_at(
                        mid,
                        final(folders)@,
                        p,
                        |a: Folder, b: Folder|
                            same_but_connections(a, b) && b.connections@ == a.connections@.push(c),
                    ),
                },
        },
{
    let removed = remove_connection(folders, conn_id);
    let ghost mid = folders@;
    match removed {
        None => false,
        Some(conn) => {
            let ghost c = conn;
            match find_folder_mut(folders, target_folder_id) {
                None => {
                    assert(connection_removed(old(folders)@, mid, conn_id@));
                    false
                },
                Some(folder) => {
                    let ghost before = *folder;
                    folder.connections.push(conn);
                    proof {
                        let p = folder_path(mid, target_folder_id@)->0;
                        lemma_changed_at_weaken(
                            mid,
                            p,
                            |a: Folder, b: Folder| b == *folder,
                            |a: Folder, b: Folder|
                                same_but_connections(a, b) && b.connections@ == a.connections@.push(c),
                        );
                        assert(connection_removed(old(folders)@, mid, conn_id@));
                    }
                    true
                },
            }
        },
    }
}

/// A freshly made folder: the given id and name, empty, expanded, without tint.
pub open spec fn is_new_folder(f: Folder, id: Seq<char>, name: Seq<char>) -> bool {
    &&& f.id@ == id
    &&& f.name@ == name
    &&& f.connections@.len() == 0
    &&& f.subfolders@.len() == 0
    &&& f.expanded
    &&& f.text_tint_rgba is None
}

/// Adds a new folder named `name` with a fresh id: as the last subfolder of the folder
/// `parent_id`, or at the top level where there is no such folder. Returns the new id.
pub fn add_new_folder(config: &mut AppConfig, parent_id: &str, name: String) -> (id: String)
    requires
        old(config).next_id < u64::MAX,
    ensures
        id@.len() == 36,
        *final(config) == (AppConfig {
            folders: final(config).folders,
            next_id: (old(config).next_id + 1) as u64,
            ..*old(config)
        }),
        match folder_path(old(config).folders@, parent_id@) {
            Some(p) => changed_at(
                old(config).folders@,
                final(config).folders@,
                p,
                |a: Folder, b: Folder|
                    same_but_subfolders(a, b) && b.subfolders@.drop_last() == a.subfolders@
                        && b.subfolders@.len() == a.subfolders@.len() + 1 && is_new_folder(
                        b.subfolders@.last(),
                        id@,
                        name@,
                    ),
            ),
            None => final(config).folders@.drop_last() == old(config).folders@
                && final(config).folders@.len() == old(config).folders@.len() + 1 && is_new_folder(
                final(config).folders@.last(),
                id@,
                name@,
            ),
        },
{
    let id = config.generate_id();
    let ghost name_text = name@;
    let folder = Folder {
        id: id.clone(),
        name,
        connections: Vec::new(),
        subfolders: Vec::new(),
        expanded: true,
        text_tint_rgba: None,
    };
    let ghost fv = folder;
    assert(is_new_folder(fv, id@, name_text));
    let ghost start = config.folders@;
    match find_folder_mut(&mut config.folders, parent_id) {
        Some(parent) => {
            let ghost before = *parent;
            parent.subfolders.push(folder);
            proof {
                assert(parent.subfolders@ == before.subfolders@.push(fv));
                assert(parent.subfolders@.drop_last() == before.subfolders@);
                let p = folder_path(start, parent_id@)->0;
                lemma_changed_at_weaken(
                    start,
                    p,
                    |a: Folder, b: Folder| b == *parent,
                    |a: Folder, b: Folder|
                        same_but_subfolders(a, b) && b.subfolders@.drop_last() == a.subfolders@
                            && b.subfolders@.len() == a.subfolders@.len() + 1 && is_new_folder(
                            b.subfolders@.last(),
                            id@,
                            name_text,
                        ),
                );
            }
        },
        None => {
            config.folders.push(folder);
        },
    }
    id
}

/// A saved connection made from a Tailscale device: a fresh id, the device's host name as
/// display name, its first address (its DNS name where it has none) as host, port 22, no user
/// name, agent authentication, no password and no tint.
pub open spec fn saved_from_device(c: SavedConnection, d: TailscaleDevice) -> bool {
    &&& c.id@.len() == 36
    &&& c.display_name@ == d.hostname@
    &&& c.host@ == (if d.addresses@.len() > 0 {
        d.addresses@[0]@
    } else {
        d.dns_name@
    })
    &&& c.port == 22
    &&& c.username@.len() == 0
    &&& c.auth == AuthMethod::Agent
    &&& c.encrypted_password is None
    &&& c.text_tint_rgba is None
}

/// Saves a Tailscale device as a connection at the end of the first top-level folder; without
/// folders only the id counter moves.
pub fn add_tailscale_device_as_saved(config: &mut AppConfig, device: &TailscaleDevice)
    requires
        old(config).next_id < u64::MAX,
    ensures
        old(config).folders@.len() == 0 ==> *final(config) == (AppConfig {
            next_id: (old(config).next_id + 1) as u64,
            ..*old(config)
        }),
        old(config).folders@.len() > 0 ==> {
            &&& *final(config) == (AppConfig {
                folders: final(config).folders,
                next_id: (old(config).next_id + 1) as u64,
                ..*old(config)
            })
            &&& final(config).folders@.len() == old(config).folders@.len()
            &&& forall|i: int|
                1 <= i < old(config).folders@.len() ==> #[trigger] final(config).folders@[i]
                    == old(config).folders@[i]
            &&& same_but_connections(old(config).folders@[0], final(config).folders@[0])
            &&& final(config).folders@[0].connections@.drop_last() == old(config).folders@[0].connections@
            &&& final(config).folders@[0].connections@.len() == old(config).folders@[0].connections@.len() + 1
            &&& saved_from_device(final(config).folders@[0].connections@.last(), *device)
        },
{
    let id = config.generate_id();
    let host = if device.addresses.len() > 0 {
        device.addresses[0].clone()
    } else {
        device.dns_name.clone()
    };
    let conn = SavedConnection {
        id,
        display_name: device.hostname.clone(),
        host,
        port: 22,
        username: String::new(),
        auth: AuthMethod::Agent,
        encrypted_password: None,
        text_tint_rgba: None,
    };
    if config.folders.len() > 0 {
        let first = &mut config.folders[0];
        first.connections.push(conn);
    }
}

/// Adds a Tailscale group rule with a fresh id at the end of the list.
pub fn add_tailscale_group(config: &mut AppConfig, name: String, pattern: String)
    requires
        old(config).next_id < u64::MAX,
    ensures
        *final(config) == (AppConfig {
            tailscale_groups: final(config).tailscale_groups,
            next_id: (old(config).next_id + 1) as u64,
            ..*old(config)
        }),
        final(config).tailscale_groups@.len() == old(config).tailscale_groups@.len() + 1,
        final(config).tailscale_groups@.drop_last() == old(config).tailscale_groups@,
        final(config).tailscale_groups@.last().id@.len() == 36,
        final(config).tailscale_groups@.last().name == name,
        final(config).tailscale_groups@.last().pattern == pattern,
{
    let id = config.generate_id();
    config.tailscale_groups.push(TailscaleGroupRule { id, name, pattern });
}

/// The group rules without those whose id is `id`, in their order.
pub open spec fn groups_without(gs: Seq<TailscaleGroupRule>, id: Seq<char>) -> Seq<TailscaleGroupRule>
    decreases gs.len(),
{
    if gs.len() == 0 {
        gs
    } else {
        let prev = groups_without(gs.drop_last(), id);
        if gs.last().id@ == id {
            prev
        } else {
            prev.push(gs.last())
        }
    }
}

/// After deleting the rules with id `id`, none with that id is left, and every other rule is
/// still there.
pub proof fn lemma_groups_without(gs: Seq<TailscaleGroupRule>, id: Seq<char>)
    ensures
        groups_without(gs, id).len() <= gs.len(),
        forall|g: TailscaleGroupRule| #[trigger] groups_without(gs, id).contains(g) <==> gs.contains(g) && g.id@ != id,
    decreases gs.len(),
{
    if gs.len() > 0 {
        let rest = gs.drop_last();
        lemma_groups_without(rest, id);
        let prev = groups_without(rest, id);
        let cur = groups_without(gs, id);
        assert forall|g: TailscaleGroupRule| #[trigger] cur.contains(g) <==> gs.contains(g) && g.id@ != id by {
            if gs.contains(g) && g.id@ != id {
                let i = choose|i: int| 0 <= i < gs.len() && gs[i] == g;
                if i < gs.len() - 1 {
                    assert(rest[i] == g);
                    assert(rest.contains(g));
                    assert(prev.contains(g));
                    let k = choose|k: int| 0 <= k < prev.len() && prev[k] == g;
                    if gs.last().id@ != id {
                        assert(prev.push(gs.last())[k] == g);
                    }
                } else {
                    assert(cur == prev.push(gs.last()));
                    assert(prev.push(gs.last())[prev.len() as int] == g);
                }
            }
            if cur.contains(g) {
                let k = choose|k: int| 0 <= k < cur.len() && cur[k] == g;
                if k < prev.len() {
                    if gs.last().id@ != id {
                        assert(prev.push(gs.last())[k] == prev[k]);
                    }
                    assert(prev.contains(g));
                    let i = choose|i: int| 0 <= i < rest.len() && rest[i] == g;
                    assert(gs[i] == g);
                } else {
                    assert(gs.last().id@ != id);
                    assert(g == gs.last());
                    assert(gs[gs.len() - 1] == g);
                }
            }
        }
    }
}

/// Removes every group rule whose id is `id`.
pub fn delete_tailscale_group(groups: &mut Vec<TailscaleGroupRule>, id: &str)
    ensures
        final(groups)@ == groups_without(old(groups)@, id@),
{
    let ghost gs = groups@;
    let mut kept: Vec<TailscaleGroupRule> = Vec::new();
    let mut i: usize = 0;
    while i < groups.len()
        invariant
            i <= groups.len(),
            groups@ == gs,
            kept@ == groups_without(gs.take(i as int), id@),
        decreases groups.len() - i,
    {
        assert(gs.take(i + 1).drop_last() == gs.take(i as int));
        if !same_text(groups[i].id.as_str(), id) {
            kept.push(groups[i].clone());
        }
        i += 1;
    }
    assert(gs.take(gs.len() as int) == gs);
    *groups = kept;
}

/// The index of the first group rule whose id is `id`.
pub open spec fn first_group_index(gs: Seq<TailscaleGroupRule>, id: Seq<char>, k: int) -> Option<int>
    decreases gs.len() - k,
{
    if k < 0 || k >= gs.len() {
        None
    } else if gs[k].id@ == id {
        Some(k)
    } else {
        first_group_index(gs, id, k + 1)
    }
}

/// Renames and re-patterns the first group rule whose id is `id`; nothing changes without one.
pub fn edit_tailscale_group(groups: &mut Vec<TailscaleGroupRule>, id: &str, name: String, pattern: String)
    ensures
        match first_group_index(old(groups)@, id@, 0) {
            None => final(groups)@ == old(groups)@,
            Some(k) => final(groups)@ == old(groups)@.update(
                k,
                TailscaleGroupRule { name: name, pattern: pattern, ..old(groups)@[k] },
            ),
        },
{
    let mut i: usize = 0;
    while i < groups.len()
        invariant
            i <= groups.len(),
            groups@ == old(groups)@,
            first_group_index(groups@, id@, 0) == first_group_index(groups@, id@, i as int),
        decreases groups.len() - i,
    {
        if same_text(groups[i].id.as_str(), id) {
            let g = &mut groups[i];
            g.name = name;
            g.pattern = pattern;
            return;
        }
        i += 1;
    }
}

/// Adds `item` at the end of `list` unless the list holds it already; returns whether it added.
pub fn add_if_missing(list: &mut Vec<String>, item: String) -> (added: bool)
    ensures
        added == !texts(old(list)@).contains(item@),
        final(list)@ == (if added {
            old(list)@.push(item)
        } else {
            old(list)@
        }),
{
    if texts_contain(list, item.as_str()) {
        false
    } else {
        list.push(item);
        true
    }
}

/// Hides a Tailscale device by host name; returns whether it was not hidden before.
pub fn hide_tailscale_device(hidden: &mut Vec<String>, hostname: String) -> (added: bool)
    ensures
        added == !texts(old(hidden)@).contains(hostname@),
        final(hidden)@ == (if added {
            old(hidden)@.push(hostname)
        } else {
            old(hidden)@
        }),
{
    add_if_missing(hidden, hostname)
}

/// Hides a section of the Tailscale tree by its id; returns whether it was not hidden before.
pub fn hide_tailscale_section(hidden: &mut Vec<String>, section_id: String) -> (added: bool)
    ensures
        added == !texts(old(hidden)@).contains(section_id@),
        final(hidden)@ == (if added {
            old(hidden)@.push(section_id)
        } else {
            old(hidden)@
        }),
{
    add_if_missing(hidden, section_id)
}

/// Every saved connection of the tree: a folder's own connections, then those of its
/// subfolders, folder after folder.
pub open spec fn all_connections(fs: Seq<Folder>) -> Seq<SavedConnection>
    decreases fs,
{
    if fs.len() == 0 {
        Seq::empty()
    } else {
        all_connections(fs.drop_last()) + fs.last().connections@ + all_connections(
            fs.last().subfolders@,
        )
    }
}

fn collect_into(folders: &Vec<Folder>, out: &mut Vec<SavedConnection>)
    ensures
        final(out)@ == old(out)@ + all_connections(folders@),
    decreases folders,
{
    let ghost start = out@;
    let ghost fs = folders@;
    let mut i: usize = 0;
    while i < folders.len()
        invariant
            i <= folders.len(),
            fs == folders@,
            out@ == start + all_connections(fs.take(i as int)),
        decreases folders.len() - i,
    {
        assert(fs.take(i + 1).drop_last() == fs.take(i as int));
        assert(fs.take(i + 1).last() == fs[i as int]);
        let f = &folders[i];
        let mut k: usize = 0;
        let ghost before = out@;
        while k < f.connections.len()
            invariant
                k <= f.connections.len(),
                out@ == before + f.connections@.take(k as int),
            decreases f.connections.len() - k,
        {
            out.push(f.connections[k].clone());
            assert(f.connections@.take(k + 1) == f.connections@.take(k as int).push(f.connections@[k as int]));
            k += 1;
        }
        assert(f.connections@.take(f.connections@.len() as int) == f.connections@);
        collect_into(&f.subfolders, out);
        assert(out@ =~= start + all_connections(fs.take(i + 1)));
        i += 1;
    }
    assert(fs.take(fs.len() as int) == fs);
}

/// Every saved connection of the tree, in tree order.
pub fn collect_saved_connections(folders: &Vec<Folder>) -> (out: Vec<SavedConnection>)
    ensures
        out@ == all_connections(folders@),
{
    let mut out: Vec<SavedConnection> = Vec::new();
    collect_into(folders, &mut out);
    assert(out@ =~= all_connections(folders@));
    out
}

/// Whether a saved connection can be opened without asking: it names a user and a host (not
/// only blanks) and authenticates by agent, by key, or by a stored sealed password.
pub open spec fn spec_should_autoconnect(c: SavedConnection) -> bool {
    &&& trim(c.username@).len() > 0
    &&& trim(c.host@).len() > 0
    &&& match c.auth {
        AuthMethod::Agent => true,
        AuthMethod::Key { .. } => true,
        AuthMethod::Password => c.encrypted_password is Some,
    }
}

pub fn should_autoconnect(conn: &SavedConnection) -> (r: bool)
    ensures
        r == spec_should_autoconnect(*conn),
{
    if trim_chars(&chars_of(conn.username.as_str())).len() == 0 || trim_chars(&chars_of(conn.host.as_str())).len() == 0 {
        return false;
    }
    match &conn.auth {
        AuthMethod::Agent => true,
        AuthMethod::Key { .. } => true,
        AuthMethod::Password => conn.encrypted_password.is_some(),
    }
}

/// The connections to open at start: those that can be opened without asking and, where some
/// startup ids are chosen, whose id is among them; in tree order.
pub open spec fn startup_selection(cs: Seq<SavedConnection>, ids: Seq<Seq<char>>) -> Seq<SavedConnection>
    decreases cs.len(),
{
    if cs.len() == 0 {
        cs
    } else {
        let prev = startup_selection(cs.drop_last(), ids);
        let c = cs.last();
        if spec_should_autoconnect(c) && (ids.len() == 0 || ids.contains(c.id@)) {
            prev.push(c)
        } else {
            prev
        }
    }
}

/// The connections opened at start are exactly those of the tree that name a user and a host
/// (not only blanks), authenticate by agent, by key or by a sealed password, and, where some
/// startup ids are chosen, whose id is chosen.
pub proof fn lemma_startup_selection(cs: Seq<SavedConnection>, ids: Seq<Seq<char>>)
    ensures
        startup_selection(cs, ids).len() <= cs.len(),
        forall|c: SavedConnection| #[trigger] startup_selection(cs, ids).contains(c) <==> cs.contains(c) && trim(
            c.username@,
        ).len() > 0 && trim(c.host@).len() > 0 && (c.auth is Password ==> c.encrypted_password is Some) && (ids.len()
            == 0 || ids.contains(c.id@)),
    decreases cs.len(),
{
    if cs.len() > 0 {
        let rest = cs.drop_last();
        lemma_startup_selection(rest, ids);
        let prev = startup_selection(rest, ids);
        let cur = startup_selection(cs, ids);
        let last = cs.last();
        let keep = spec_should_autoconnect(last) && (ids.len() == 0 || ids.contains(last.id@));
        assert forall|c: SavedConnection| #[trigger] cur.contains(c) <==> cs.contains(c) && trim(c.username@).len() > 0
            && trim(c.host@).len() > 0 && (c.auth is Password ==> c.encrypted_password is Some) && (ids.len() == 0
            || ids.contains(c.id@)) by {
            let wanted = trim(c.username@).len() > 0 && trim(c.host@).len() > 0 && (c.auth is Password
                ==> c.encrypted_password is Some) && (ids.len() == 0 || ids.contains(c.id@));
            assert(wanted == (spec_should_autoconnect(c) && (ids.len() == 0 || ids.contains(c.id@))));
            if cs.contains(c) && wanted {
                let i = choose|i: int| 0 <= i < cs.len() && cs[i] == c;
                if i < cs.len() - 1 {
                    assert(rest[i] == c);
                    assert(rest.contains(c));
                    assert(prev.contains(c));
                    let k = choose|k: int| 0 <= k < prev.len() && prev[k] == c;
                    if keep {
                        assert(prev.push(last)[k] == c);
                    }
                } else {
                    assert(c == last);
                    assert(cur == prev.push(last));
                    assert(prev.push(last)[prev.len() as int] == c);
                }
            }
            if cur.contains(c) {
                let k = choose|k: int| 0 <= k < cur.len() && cur[k] == c;
                if k < prev.len() {
                    if keep {
                        assert(prev.push(last)[k] == prev[k]);
                    }
                    assert(prev.contains(c));
                    let i = choose|i: int| 0 <= i < rest.len() && rest[i] == c;
                    assert(cs[i] == c);
                } else {
                    assert(keep);
                    assert(c == last);
                    assert(cs[cs.len() - 1] == c);
                }
            }
        }
    }
}

/// The saved connections to open when the application starts.
pub fn startup_connections(config: &AppConfig) -> (out: Vec<SavedConnection>)
    ensures
        out@ == startup_selection(all_connections(config.folders@), texts(config.startup_connection_ids@)),
{
    let all = collect_saved_connections(&config.folders);
    let ghost ids = texts(config.startup_connection_ids@);
    let use_selection = config.startup_connection_ids.len() > 0;
    let mut out: Vec<SavedConnection> = Vec::new();
    let mut i: usize = 0;
    while i < all.len()
        invariant
            i <= all.len(),
            ids == texts(config.startup_connection_ids@),
            use_selection == (ids.len() > 0),
            out@ == startup_selection(all@.take(i as int), ids),
        decreases all.len() - i,
    {
        assert(all@.take(i + 1).drop_last() == all@.take(i as int));
        let c = &all[i];
        if should_autoconnect(c) && (!use_selection || texts_contain(&config.startup_connection_ids, c.id.as_str())) {
            out.push(c.clone());
        }
        i += 1;
    }
    assert(all@.take(all@.len() as int) == all@);
    out
}

/// Renames the folder `folder_id`; returns whether it was found.
pub fn rename_folder(folders: &mut Vec<Folder>, folder_id: &str, name: String) -> (found: bool)
    ensures
        found == (folder_path(old(folders)@, folder_id@) is Some),
        match folder_path(old(folders)@, folder_id@) {
            None => final(folders)@ == old(folders)@,
            Some(p) => changed_at(old(folders)@, final(folders)@, p, |a: Folder, b: Folder| b == (Folder { name: name, ..a })),
        },
{
    let ghost n = name;
    match find_folder_mut(folders, folder_id) {
        Some(f) => {
            let ghost before = *f;
            f.name = name;
            proof {
                let p = folder_path(old(folders)@, folder_id@)->0;
                lemma_changed_at_weaken(old(folders)@, p, |a: Folder, b: Folder| b == *f, |a: Folder, b: Folder| b == (Folder { name: n, ..a }));
            }
            true
        },
        None => false,
    }
}

/// Sets the text tint of the folder `folder_id`; returns whether it was found.
pub fn set_folder_tint(folders: &mut Vec<Folder>, folder_id: &str, tint: Option<[u8; 4]>) -> (found: bool)
    ensures
        found == (folder_path(old(folders)@, folder_id@) is Some),
        match folder_path(old(folders)@, folder_id@) {
            None => final(folders)@ == old(folders)@,
            Some(p) => changed_at(old(folders)@, final(folders)@, p, |a: Folder, b: Folder| b == (Folder { text_tint_rgba: tint, ..a })),
        },
{
    match find_folder_mut(folders, folder_id) {
        Some(f) => {
            f.text_tint_rgba = tint;
            proof {
                let p = folder_path(old(folders)@, folder_id@)->0;
                lemma_changed_at_weaken(old(folders)@, p, |a: Folder, b: Folder| b == *f, |a: Folder, b: Folder| b == (Folder { text_tint_rgba: tint, ..a }));
            }
            true
        },
        None => false,
    }
}

/// Sets the text tint of the connection `conn_id`; returns whether it was found.
pub fn set_connection_tint(folders: &mut Vec<Folder>, conn_id: &str, tint: Option<[u8; 4]>) -> (found: bool)
    ensures
        found == (connection_path(old(folders)@, conn_id@) is Some),
        match connection_path(old(folders)@, conn_id@) {
            None => final(folders)@ == old(folders)@,
            Some(pk) => changed_at(
                old(folders)@,
                final(folders)@,
                pk.0,
                |a: Folder, b: Folder|
                    same_but_connections(a, b) && b.connections@ == a.connections@.update(
                        pk.1,
                        SavedConnection { text_tint_rgba: tint, ..a.connections@[pk.1] },
                    ),
            ),
        },
{
    match find_connection_mut(folders, conn_id) {
        Some(c) => {
            c.text_tint_rgba = tint;
            proof {
                let pk = connection_path(old(folders)@, conn_id@)->0;
                lemma_changed_at_weaken(
                    old(folders)@,
                    pk.0,
                    |a: Folder, b: Folder| same_but_connections(a, b) && b.connections@ == a.connections@.update(pk.1, *c),
                    |a: Folder, b: Folder|
                        same_but_connections(a, b) && b.connections@ == a.connections@.update(
                            pk.1,
                            SavedConnection { text_tint_rgba: tint, ..a.connections@[pk.1] },
                        ),
                );
            }
            true
        },
        None => false,
    }
}

/// Gives every connection directly inside the folder `folder_id` the folder's own tint;
/// returns whether the folder was found.
pub fn propagate_folder_tint(folders: &mut Vec<Folder>, folder_id: &str) -> (found: bool)
    ensures
        found == (folder_path(old(folders)@, folder_id@) is Some),
        match folder_path(old(folders)@, folder_id@) {
            None => final(folders)@ == old(folders)@,
            Some(p) => changed_at(
                old(folders)@,
                final(folders)@,
                p,
                |a: Folder, b: Folder| tinted_children(a, b, folder_at(old(folders)@, p).text_tint_rgba),
            ),
        },
{
    let tint = folder_tint(folders, folder_id);
    set_direct_child_connection_text_tint(folders, folder_id, tint)
}

/// The text tint of the folder `folder_id` (none where there is no such folder).
fn folder_tint(folders: &Vec<Folder>, folder_id: &str) -> (r: Option<[u8; 4]>)
    ensures
        match folder_path(folders@, folder_id@) {
            Some(p) => valid_path(folders@, p) && r == folder_at(folders@, p).text_tint_rgba,
            None => r is None,
        },
{
    match folder_tint_below(folders, folder_id) {
        Some(t) => t,
        None => None,
    }
}

/// Like `folder_tint`, and telling whether the folder was found at all.
fn folder_tint_below(folders: &Vec<Folder>, folder_id: &str) -> (r: Option<Option<[u8; 4]>>)
    ensures
        match folder_path(folders@, folder_id@) {
            Some(p) => valid_path(folders@, p) && r == Some(folder_at(folders@, p).text_tint_rgba),
            None => r is None,
        },
    decreases folders,
{
    let mut i: usize = 0;
    while i < folders.len()
        invariant
            i <= folders.len(),
            folder_path(folders@, folder_id@) == crate::domain::folder_tree::folder_path_from(folders@, folder_id@, i as int),
        decreases folders.len() - i,
    {
        if same_text(folders[i].id.as_str(), folder_id) {
            return Some(folders[i].text_tint_rgba);
        }
        let inner = &folders[i].subfolders;
        if let Some(t) = folder_tint_below(inner, folder_id) {
            proof {
                let p = folder_path(folders@[i as int].subfolders@, folder_id@)->0;
                assert((seq![i as int] + p).drop_first() == p);
                assert((seq![i as int] + p)[0] == i);
            }
            return Some(t);
        }
        i += 1;
    }
    None
}

/// A copy of a connection to edit as a new one: a fresh id and the given display name.
pub fn duplicate_connection(conn: &SavedConnection, display_name: String) -> (dup: SavedConnection)
    ensures
        dup.id@.len() == 36,
        dup == (SavedConnection { id: dup.id, display_name: display_name, ..*conn }),
{
    let c = conn.clone();
    SavedConnection { id: new_uuid(), display_name, ..c }
}

/// The order of the startup list: by display name in lower case, then by host.
pub open spec fn listed_before(a: SavedConnection, b: SavedConnection) -> bool {
    ||| lex_lt(lowercase(a.display_name@), lowercase(b.display_name@))
    ||| (lowercase(a.display_name@) == lowercase(b.display_name@) && lex_lt(a.host@, b.host@))
}

/// `s` (sorted) with `x` put after every connection that is not listed after it.
pub open spec fn insert_listed(s: Seq<SavedConnection>, x: SavedConnection) -> Seq<SavedConnection>
    decreases s.len(),
{
    if s.len() > 0 && listed_before(x, s.last()) {
        insert_listed(s.drop_last(), x).push(s.last())
    } else {
        s.push(x)
    }
}

/// The stable sort of `s` in the startup list's order.
pub open spec fn sort_listed(s: Seq<SavedConnection>) -> Seq<SavedConnection>
    decreases s.len(),
{
    if s.len() == 0 {
        s
    } else {
        insert_listed(sort_listed(s.drop_last()), s.last())
    }
}

proof fn lemma_insert_listed_at(s: Seq<SavedConnection>, x: SavedConnection, pos: int)
    requires
        0 <= pos <= s.len(),
        forall|k: int| pos <= k < s.len() ==> listed_before(x, #[trigger] s[k]),
        pos == 0 || !listed_before(x, s[pos - 1]),
    ensures
        insert_listed(s, x) == s.take(pos).push(x) + s.skip(pos),
    decreases s.len(),
{
    if pos < s.len() {
        lemma_insert_listed_at(s.drop_last(), x, pos);
        assert(s.drop_last().take(pos) == s.take(pos));
        assert(s.drop_last().skip(pos).push(s.last()) == s.skip(pos));
        assert((s.take(pos).push(x) + s.drop_last().skip(pos)).push(s.last()) == s.take(pos).push(x) + s.skip(pos));
    } else {
        assert(s.take(pos) == s);
        assert(s.skip(pos).len() == 0);
        assert(s.take(pos).push(x) + s.skip(pos) == s.push(x));
    }
}

fn is_listed_before(a: &SavedConnection, b: &SavedConnection) -> (r: bool)
    ensures
        r == listed_before(*a, *b),
{
    let an = chars_of(to_lowercase(a.display_name.as_str()).as_str());
    let bn = chars_of(to_lowercase(b.display_name.as_str()).as_str());
    if chars_lex_lt(&an, &bn) {
        return true;
    }
    if chars_lex_lt(&bn, &an) {
        proof {
            crate::text::lemma_lex_trichotomy(an@, bn@);
        }
        return false;
    }
    proof {
        crate::text::lemma_lex_trichotomy(an@, bn@);
    }
    chars_lex_lt(&chars_of(a.host.as_str()), &chars_of(b.host.as_str()))
}

/// The saved connections as the settings list them for choosing what opens at start: every
/// connection of the tree, by display name in lower case, then by host.
pub fn startup_candidates(folders: &Vec<Folder>) -> (out: Vec<SavedConnection>)
    ensures
        out@ == sort_listed(all_connections(folders@)),
{
    let all = collect_saved_connections(folders);
    let mut out: Vec<SavedConnection> = Vec::new();
    let mut i: usize = 0;
    while i < all.len()
        invariant
            i <= all.len(),
            out@ == sort_listed(all@.take(i as int)),
        decreases all.len() - i,
    {
        assert(all@.take(i + 1).drop_last() == all@.take(i as int));
        let x = all[i].clone();
        let ghost s = out@;
        let mut pos = out.len();
        while pos > 0 && is_listed_before(&x, &out[pos - 1])
            invariant
                pos <= out.len(),
                s == out@,
                forall|k: int| pos <= k < s.len() ==> listed_before(x, #[trigger] s[k]),
            decreases pos,
        {
            pos -= 1;
        }
        proof {
            lemma_insert_listed_at(s, x, pos as int);
        }
        out.insert(pos, x);
        assert(out@ =~= s.take(pos as int).push(x) + s.skip(pos as int));
        i += 1;
    }
    assert(all@.take(all@.len() as int) == all@);
    out
}

/// The ids without `id`, in their order.
pub open spec fn texts_without(ids: Seq<Seq<char>>, id: Seq<char>) -> Seq<Seq<char>>
    decreases ids.len(),
{
    if ids.len() == 0 {
        ids
    } else if ids.last() == id {
        texts_without(ids.drop_last(), id)
    } else {
        texts_without(ids.drop_last(), id).push(ids.last())
    }
}

/// Dropping `id` from a list of ids leaves every other id and no entry of `id`.
pub proof fn lemma_texts_without(ids: Seq<Seq<char>>, id: Seq<char>)
    ensures
        texts_without(ids, id).len() <= ids.len(),
        forall|x: Seq<char>| #[trigger] texts_without(ids, id).contains(x) <==> ids.contains(x) && x != id,
    decreases ids.len(),
{
    if ids.len() > 0 {
        let rest = ids.drop_last();
        lemma_texts_without(rest, id);
        let prev = texts_without(rest, id);
        let cur = texts_without(ids, id);
        let keep = ids.last() != id;
        assert forall|x: Seq<char>| #[trigger] cur.contains(x) <==> ids.contains(x) && x != id by {
            if ids.contains(x) && x != id {
                let i = choose|i: int| 0 <= i < ids.len() && ids[i] == x;
                if i < ids.len() - 1 {
                    assert(rest[i] == x);
                    assert(rest.contains(x));
                    assert(prev.contains(x));
                    let k = choose|k: int| 0 <= k < prev.len() && prev[k] == x;
                    if keep {
                        assert(prev.push(ids.last())[k] == x);
                    }
                } else {
                    assert(cur == prev.push(ids.last()));
                    assert(prev.push(ids.last())[prev.len() as int] == x);
                }
            }
            if cur.contains(x) {
                let k = choose|k: int| 0 <= k < cur.len() && cur[k] == x;
                if k < prev.len() {
                    if keep {
                        assert(prev.push(ids.last())[k] == prev[k]);
                    }
                    assert(prev.contains(x));
                    let i = choose|i: int| 0 <= i < rest.len() && rest[i] == x;
                    assert(ids[i] == x);
                } else {
                    assert(keep);
                    assert(x == ids.last());
                    assert(ids[ids.len() - 1] == x);
                }
            }
        }
    }
}

/// Ticks or unticks a connection in the startup list: ticking also turns opening at start on
/// and adds the id unless it is there; unticking drops every entry of the id.
pub fn set_startup_selected(config: &mut AppConfig, id: &str, selected: bool)
    ensures
        selected ==> final(config).connect_instances_on_open,
        !selected ==> final(config).connect_instances_on_open == old(config).connect_instances_on_open,
        selected ==> texts(final(config).startup_connection_ids@) == (if texts(old(config).startup_connection_ids@).contains(id@) {
            texts(old(config).startup_connection_ids@)
        } else {
            texts(old(config).startup_connection_ids@).push(id@)
        }),
        !selected ==> texts(final(config).startup_connection_ids@) == texts_without(texts(old(config).startup_connection_ids@), id@),
        *final(config) == (AppConfig {
            startup_connection_ids: final(config).startup_connection_ids,
            connect_instances_on_open: final(config).connect_instances_on_open,
            ..*old(config)
        }),
{
    if selected {
        config.connect_instances_on_open = true;
        let ghost before = texts(config.startup_connection_ids@);
        let added = add_if_missing(&mut config.startup_connection_ids, String::from_str(id));
        assert(texts(config.startup_connection_ids@) =~= (if before.contains(id@) { before } else { before.push(id@) }));
    } else {
        let ghost ids = texts(config.startup_connection_ids@);
        let mut kept: Vec<String> = Vec::new();
        let mut i: usize = 0;
        while i < config.startup_connection_ids.len()
            invariant
                i <= config.startup_connection_ids.len(),
                ids == texts(config.startup_connection_ids@),
                texts(kept@) == texts_without(ids.take(i as int), id@),
            decreases config.startup_connection_ids.len() - i,
        {
            assert(ids.take(i + 1).drop_last() == ids.take(i as int));
            assert(ids.take(i + 1).last() == ids[i as int]);
            if !same_text(config.startup_connection_ids[i].as_str(), id) {
                let ghost before = texts(kept@);
                kept.push(config.startup_connection_ids[i].clone());
                assert(texts(kept@) =~= before.push(ids[i as int]));
            }
            i += 1;
        }
        assert(ids.take(ids.len() as int) == ids);
        config.startup_connection_ids = kept;
    }
}

/// Chooses every listed connection for opening at start, and turns opening at start on.
pub fn select_all_startup(config: &mut AppConfig)
    ensures
        final(config).connect_instances_on_open,
        texts(final(config).startup_connection_ids@) == sort_listed(all_connections(old(config).folders@)).map_values(|c: SavedConnection| c.id@),
        *final(config) == (AppConfig {
            startup_connection_ids: final(config).startup_connection_ids,
            connect_instances_on_open: true,
            ..*old(config)
        }),
{
    let listed = startup_candidates(&config.folders);
    let mut ids: Vec<String> = Vec::new();
    let mut i: usize = 0;
    while i < listed.len()
        invariant
            i <= listed.len(),
            ids@.len() == i,
            forall|j: int| 0 <= j < i ==> (#[trigger] ids@[j])@ == listed@[j].id@,
        decreases listed.len() - i,
    {
        let id = listed[i].id.clone();
        ids.push(id);
        i += 1;
    }
    assert(texts(ids@) =~= listed@.map_values(|c: SavedConnection| c.id@));
    config.startup_connection_ids = ids;
    config.connect_instances_on_open = true;
}

/// The tab shown after one of the tabs was closed, `remaining` tabs being left: the last tab
/// where the shown one is now past the end, else the same index.
pub fn tab_after_close(active: usize, remaining: usize) -> (r: usize)
    ensures
        r == (if active >= remaining && remaining > 0 {
            remaining - 1
        } else {
            active as int
        }),
{
    if active >= remaining && remaining > 0 {
        remaining - 1
    } else {
        active
    }
}

/// The forwards of `rules` that are switched on.
pub open spec fn enabled_rules(rules: Seq<PortForwardRule>) -> Seq<PortForwardRule> {
    rules.filter(|r: PortForwardRule| r.enabled)
}

/// The forwards that a session starts with: those of `rules` that are switched on, in order.
pub fn enabled_forwards(rules: &Vec<PortForwardRule>) -> (out: Vec<PortForwardRule>)
    ensures
        out@ == enabled_rules(rules@),
{
    let mut out: Vec<PortForwardRule> = Vec::new();
    let mut i: usize = 0;
    while i < rules.len()
        invariant
            i <= rules.len(),
            out@ == enabled_rules(rules@.take(i as int)),
        decreases rules.len() - i,
    {
        proof {
            assert(rules@.take(i + 1).drop_last() == rules@.take(i as int));
            reveal(Seq::filter);
        }
        if rules[i].enabled {
            out.push(rules[i].clone());
        }
        i += 1;
    }
    assert(rules@.take(rules.len() as int) == rules@);
    out
}

/// Takes in imported servers: the tree is replaced by theirs; where it holds sealed passwords
/// the import's master-password data replaces the config's too, and the master password must
/// then be unlocked again (the result says so). Nothing else changes.
pub fn apply_import(config: &mut AppConfig, imported: ServerExport) -> (unlock_needed: bool)
    ensures
        unlock_needed == any_encrypted(folders_view(imported.folders@)),
        *final(config) == (AppConfig {
            folders: imported.folders,
            master_password: if unlock_needed {
                imported.master_password
            } else {
                old(config).master_password
            },
            ..*old(config)
        }),
{
    let unlock_needed = has_encrypted_passwords(imported.folders.as_slice());
    config.folders = imported.folders;
    if unlock_needed {
        config.master_password = imported.master_password;
    }
    unlock_needed
}

} // verus!
