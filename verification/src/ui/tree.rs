use vstd::prelude::*;

use crate::domain::connection::SavedConnection;
use crate::domain::folder_tree::{folder_at, lemma_path_below, valid_path};
use crate::services::config::{insert_sorted, strictly_sorted, Folder};
use crate::services::tailscale::{
    device_view, devices_view, glob, glob_match, lowercase, to_lowercase, DeviceView, TailscaleDevice,
};
use crate::text::{chars_contain, chars_of, contains_text, same_text, texts, texts_contain};

verus! {

/// Whether `text`, put in lower case, contains `filter` (which the caller lowered).
pub open spec fn text_matches(text: Seq<char>, filter: Seq<char>) -> bool {
    contains_text(lowercase(text), filter)
}

fn lower_contains(text: &str, filter: &Vec<char>) -> (r: bool)
    ensures
        r == text_matches(text@, filter@),
{
    let lower = to_lowercase(text);
    chars_contain(&chars_of(lower.as_str()), filter)
}

/// Whether a folder matches the search: its name, the display name of one of its own
/// connections, or (recursively) one of its subfolders.
pub open spec fn spec_folder_matches(f: Folder, filter: Seq<char>) -> bool
    decreases f,
{
    ||| text_matches(f.name@, filter)
    ||| exists|i: int|
        0 <= i < f.connections@.len() && #[trigger] text_matches(f.connections@[i].display_name@, filter)
    ||| any_folder_matches(f.subfolders@, filter)
}

/// Whether one of the folders `fs` matches the search.
pub open spec fn any_folder_matches(fs: Seq<Folder>, filter: Seq<char>) -> bool
    decreases fs,
{
    fs.len() > 0 && (any_folder_matches(fs.drop_last(), filter) || spec_folder_matches(fs.last(), filter))
}

/// `any_folder_matches` holds exactly when one of the folders matches.
pub proof fn lemma_any_folder_matches(fs: Seq<Folder>, filter: Seq<char>)
    ensures
        any_folder_matches(fs, filter) <==> exists|i: int| 0 <= i < fs.len() && #[trigger] spec_folder_matches(fs[i], filter),
    decreases fs.len(),
{
    if fs.len() > 0 {
        lemma_any_folder_matches(fs.drop_last(), filter);
        assert(any_folder_matches(fs, filter) == (any_folder_matches(fs.drop_last(), filter)
            || spec_folder_matches(fs.last(), filter)));
        assert(fs.last() == fs[fs.len() - 1]);
        if any_folder_matches(fs.drop_last(), filter) {
            let i = choose|i: int| 0 <= i < fs.drop_last().len() && #[trigger] spec_folder_matches(fs.drop_last()[i], filter);
            assert(spec_folder_matches(fs[i], filter));
        }
        if exists|i: int| 0 <= i < fs.len() && #[trigger] spec_folder_matches(fs[i], filter) {
            let i = choose|i: int| 0 <= i < fs.len() && #[trigger] spec_folder_matches(fs[i], filter);
            if i < fs.len() - 1 {
                assert(spec_folder_matches(fs.drop_last()[i], filter));
            }
        }
    }
}

/// A folder matches the search by itself: its name or the display name of one of its own
/// connections contains the search.
pub open spec fn matches_here(f: Folder, filter: Seq<char>) -> bool {
    ||| text_matches(f.name@, filter)
    ||| exists|i: int|
        0 <= i < f.connections@.len() && #[trigger] text_matches(f.connections@[i].display_name@, filter)
}

proof fn lemma_matches_from_path(fs: Seq<Folder>, p: Seq<int>, filter: Seq<char>)
    requires
        valid_path(fs, p),
        matches_here(folder_at(fs, p), filter),
    ensures
        any_folder_matches(fs, filter),
    decreases p.len(),
{
    lemma_any_folder_matches(fs, filter);
    if p.len() == 1 {
        assert(spec_folder_matches(fs[p[0]], filter));
    } else {
        lemma_matches_from_path(fs[p[0]].subfolders@, p.drop_first(), filter);
        assert(spec_folder_matches(fs[p[0]], filter));
    }
}

proof fn lemma_matches_to_path(fs: Seq<Folder>, filter: Seq<char>)
    requires
        any_folder_matches(fs, filter),
    ensures
        exists|p: Seq<int>| #[trigger] valid_path(fs, p) && matches_here(folder_at(fs, p), filter),
    decreases fs,
{
    lemma_any_folder_matches(fs, filter);
    let i = choose|i: int| 0 <= i < fs.len() && #[trigger] spec_folder_matches(fs[i], filter);
    if matches_here(fs[i], filter) {
        let p = seq![i];
        assert(p.len() == 1 && p[0] == i);
        assert(valid_path(fs, p) && folder_at(fs, p) == fs[i]);
    } else {
        assert(any_folder_matches(fs[i].subfolders@, filter));
        lemma_matches_to_path(fs[i].subfolders@, filter);
        let q = choose|q: Seq<int>| #[trigger] valid_path(fs[i].subfolders@, q) && matches_here(
            folder_at(fs[i].subfolders@, q),
            filter,
        );
        lemma_path_below(fs, i, q);
    }
}

/// The search shows a folder when it matches by itself or some folder below it, at any depth,
/// does: a folder matches exactly when its name or one of its connections' names matches, or
/// one of its subfolders, reached by a path, matches by itself.
pub proof fn lemma_folder_matches_below(f: Folder, filter: Seq<char>)
    ensures
        spec_folder_matches(f, filter) <==> matches_here(f, filter) || exists|p: Seq<int>|
            #[trigger] valid_path(f.subfolders@, p) && matches_here(folder_at(f.subfolders@, p), filter),
{
    if any_folder_matches(f.subfolders@, filter) {
        lemma_matches_to_path(f.subfolders@, filter);
    }
    if exists|p: Seq<int>| #[trigger] valid_path(f.subfolders@, p) && matches_here(folder_at(f.subfolders@, p), filter) {
        let p = choose|p: Seq<int>| #[trigger] valid_path(f.subfolders@, p) && matches_here(
            folder_at(f.subfolders@, p),
            filter,
        );
        lemma_matches_from_path(f.subfolders@, p, filter);
    }
}

/// Whether `folder` matches the search `filter` (in lower case).
pub fn folder_matches(folder: &Folder, filter: &str) -> (r: bool)
    ensures
        r == spec_folder_matches(*folder, filter@),
    decreases folder,
{
    let fc = chars_of(filter);
    if lower_contains(folder.name.as_str(), &fc) {
        return true;
    }
    let mut i: usize = 0;
    while i < folder.connections.len()
        invariant
            i <= folder.connections.len(),
            fc@ == filter@,
            !text_matches(folder.name@, filter@),
            forall|j: int| 0 <= j < i ==> !#[trigger] text_matches(folder.connections@[j].display_name@, filter@),
        decreases folder.connections.len() - i,
    {
        if lower_contains(folder.connections[i].display_name.as_str(), &fc) {
            return true;
        }
        i += 1;
    }
    let mut k: usize = 0;
    while k < folder.subfolders.len()
        invariant
            k <= folder.subfolders.len(),
            !text_matches(folder.name@, filter@),
            forall|j: int| 0 <= j < folder.connections@.len() ==> !#[trigger] text_matches(folder.connections@[j].display_name@, filter@),
            forall|j: int| 0 <= j < k ==> !#[trigger] spec_folder_matches(folder.subfolders@[j], filter@),
        decreases folder.subfolders.len() - k,
    {
        if folder_matches(&folder.subfolders[k], filter) {
            proof {
                lemma_any_folder_matches(folder.subfolders@, filter@);
                assert(spec_folder_matches(folder.subfolders@[k as int], filter@));
            }
            return true;
        }
        k += 1;
    }
    proof {
        lemma_any_folder_matches(folder.subfolders@, filter@);
    }
    false
}

/// Whether the tree shows a folder under the search `filter`: always without a search.
pub fn folder_shown(folder: &Folder, filter: &str) -> (r: bool)
    ensures
        r == (filter@.len() == 0 || spec_folder_matches(*folder, filter@)),
{
    if chars_of(filter).len() == 0 {
        true
    } else {
        folder_matches(folder, filter)
    }
}

/// Whether the tree shows a connection under the search `filter`: always without a search.
pub fn connection_shown(conn: &SavedConnection, filter: &str) -> (r: bool)
    ensures
        r == (filter@.len() == 0 || text_matches(conn.display_name@, filter@)),
{
    let fc = chars_of(filter);
    fc.len() == 0 || lower_contains(conn.display_name.as_str(), &fc)
}

/// The id under which the section of a custom Tailscale group is hidden.
pub fn custom_group_section_id(group_id: &str) -> (id: String)
    ensures
        id@ == "custom:"@ + group_id@,
{
    let mut id = String::from_str("custom:");
    id.append(group_id);
    id
}

/// The devices of `ds` for which `keep` holds, in their order.
pub open spec fn keep_devices(ds: Seq<DeviceView>, keep: spec_fn(DeviceView) -> bool) -> Seq<DeviceView>
    decreases ds.len(),
{
    if ds.len() == 0 {
        ds
    } else {
        let prev = keep_devices(ds.drop_last(), keep);
        if keep(ds.last()) {
            prev.push(ds.last())
        } else {
            prev
        }
    }
}

/// Whether a device passes the search `filter`: always without a search, else by host name.
pub open spec fn device_matches_filter(d: DeviceView, filter: Seq<char>) -> bool {
    filter.len() == 0 || text_matches(d.hostname, filter)
}

fn device_matches(d: &TailscaleDevice, filter: &Vec<char>) -> (r: bool)
    ensures
        r == device_matches_filter(device_view(*d), filter@),
{
    filter.len() == 0 || lower_contains(d.hostname.as_str(), filter)
}

/// The peers that the Tailscale section lists: not this machine, not hidden by host name.
pub open spec fn peer_shown(hidden: Seq<Seq<char>>) -> spec_fn(DeviceView) -> bool {
    |d: DeviceView| !d.is_self && !hidden.contains(d.hostname)
}

/// The peers that the Tailscale section lists, in discovery order.
pub fn visible_peers(devices: &Vec<TailscaleDevice>, hidden: &Vec<String>) -> (out: Vec<TailscaleDevice>)
    ensures
        devices_view(out@) == keep_devices(devices_view(devices@), peer_shown(texts(hidden@))),
{
    let ghost ds = devices_view(devices@);
    let ghost keep = peer_shown(texts(hidden@));
    let mut out: Vec<TailscaleDevice> = Vec::new();
    let mut i: usize = 0;
    while i < devices.len()
        invariant
            i <= devices.len(),
            ds == devices_view(devices@),
            keep == peer_shown(texts(hidden@)),
            devices_view(out@) == keep_devices(ds.take(i as int), keep),
        decreases devices.len() - i,
    {
        assert(ds.take(i + 1).drop_last() == ds.take(i as int));
        assert(ds.take(i + 1).last() == device_view(devices@[i as int]));
        let d = &devices[i];
        if !d.is_self && !texts_contain(hidden, d.hostname.as_str()) {
            let c = d.clone();
            let ghost before = out@;
            out.push(c);
            assert(devices_view(out@) =~= devices_view(before).push(device_view(*d)));
        }
        i += 1;
    }
    assert(ds.take(ds.len() as int) == ds);
    out
}

/// The members of a custom group: peers whose host name matches the group's pattern (both in
/// lower case) and that pass the search.
pub open spec fn group_member(pattern: Seq<char>, filter: Seq<char>) -> spec_fn(DeviceView) -> bool {
    |d: DeviceView| glob(lowercase(pattern), lowercase(d.hostname)) && device_matches_filter(d, filter)
}

/// The peers that a custom group with `pattern` lists under the search `filter`.
pub fn group_members(peers: &Vec<TailscaleDevice>, pattern: &str, filter: &str) -> (out: Vec<TailscaleDevice>)
    ensures
        devices_view(out@) == keep_devices(devices_view(peers@), group_member(pattern@, filter@)),
{
    let fc = chars_of(filter);
    let ghost ds = devices_view(peers@);
    let ghost keep = group_member(pattern@, filter@);
    let mut out: Vec<TailscaleDevice> = Vec::new();
    let mut i: usize = 0;
    while i < peers.len()
        invariant
            i <= peers.len(),
            fc@ == filter@,
            ds == devices_view(peers@),
            keep == group_member(pattern@, filter@),
            devices_view(out@) == keep_devices(ds.take(i as int), keep),
        decreases peers.len() - i,
    {
        assert(ds.take(i + 1).drop_last() == ds.take(i as int));
        assert(ds.take(i + 1).last() == device_view(peers@[i as int]));
        let d = &peers[i];
        if glob_match(pattern, d.hostname.as_str()) && device_matches(d, &fc) {
            let c = d.clone();
            let ghost before = out@;
            out.push(c);
            assert(devices_view(out@) =~= devices_view(before).push(device_view(*d)));
        }
        i += 1;
    }
    assert(ds.take(ds.len() as int) == ds);
    out
}

/// The peers listed outside the custom groups: not placed in a group, passing the search.
pub open spec fn ungrouped(grouped: Seq<Seq<char>>, filter: Seq<char>) -> spec_fn(DeviceView) -> bool {
    |d: DeviceView| !grouped.contains(d.hostname) && device_matches_filter(d, filter)
}

/// The peers that are listed outside the custom groups, given the host names that the groups
/// took.
pub fn ungrouped_devices(peers: &Vec<TailscaleDevice>, grouped: &Vec<String>, filter: &str) -> (out: Vec<TailscaleDevice>)
    ensures
        devices_view(out@) == keep_devices(devices_view(peers@), ungrouped(texts(grouped@), filter@)),
{
    let fc = chars_of(filter);
    let ghost ds = devices_view(peers@);
    let ghost keep = ungrouped(texts(grouped@), filter@);
    let mut out: Vec<TailscaleDevice> = Vec::new();
    let mut i: usize = 0;
    while i < peers.len()
        invariant
            i <= peers.len(),
            fc@ == filter@,
            ds == devices_view(peers@),
            keep == ungrouped(texts(grouped@), filter@),
            devices_view(out@) == keep_devices(ds.take(i as int), keep),
        decreases peers.len() - i,
    {
        assert(ds.take(i + 1).drop_last() == ds.take(i as int));
        assert(ds.take(i + 1).last() == device_view(peers@[i as int]));
        let d = &peers[i];
        if !texts_contain(grouped, d.hostname.as_str()) && device_matches(d, &fc) {
            let c = d.clone();
            let ghost before = out@;
            out.push(c);
            assert(devices_view(out@) =~= devices_view(before).push(device_view(*d)));
        }
        i += 1;
    }
    assert(ds.take(ds.len() as int) == ds);
    out
}

/// The owner a device is listed under: its owner, or `unknown` where it has none.
pub open spec fn owner_key(d: DeviceView, unknown: Seq<char>) -> Seq<char> {
    if d.owner.len() == 0 {
        unknown
    } else {
        d.owner
    }
}

/// The devices listed under the owner `key`.
pub open spec fn owned_by(key: Seq<char>, unknown: Seq<char>) -> spec_fn(DeviceView) -> bool {
    |d: DeviceView| owner_key(d, unknown) == key
}

/// The owner names of a list of owner groups.
pub open spec fn group_keys(groups: Seq<(String, Vec<TailscaleDevice>)>) -> Seq<Seq<char>> {
    groups.map_values(|g: (String, Vec<TailscaleDevice>)| g.0@)
}

fn owner_key_of(d: &TailscaleDevice, unknown: &str) -> (k: String)
    ensures
        k@ == owner_key(device_view(*d), unknown@),
{
    if chars_of(d.owner.as_str()).len() == 0 {
        String::from_str(unknown)
    } else {
        d.owner.clone()
    }
}

/// The devices grouped by owner (`unknown_owner` standing for a missing owner): the owners in
/// ascending order, each once, each with its devices in their order.
pub fn devices_by_owner(devices: &Vec<TailscaleDevice>, unknown_owner: &str) -> (groups: Vec<(String, Vec<TailscaleDevice>)>)
    ensures
        strictly_sorted(group_keys(groups@)),
        forall|k: Seq<char>|
            group_keys(groups@).contains(k) <==> exists|i: int|
                0 <= i < devices@.len() && owner_key(device_view(#[trigger] devices@[i]), unknown_owner@) == k,
        forall|g: int|
            0 <= g < groups@.len() ==> devices_view((#[trigger] groups@[g]).1@) == keep_devices(
                devices_view(devices@),
                owned_by(groups@[g].0@, unknown_owner@),
            ),
{
    let ghost ds = devices_view(devices@);
    let mut keys: Vec<String> = Vec::new();
    let mut i: usize = 0;
    while i < devices.len()
        invariant
            i <= devices.len(),
            strictly_sorted(texts(keys@)),
            forall|k: Seq<char>|
                texts(keys@).contains(k) <==> exists|j: int|
                    0 <= j < i && owner_key(device_view(#[trigger] devices@[j]), unknown_owner@) == k,
        decreases devices.len() - i,
    {
        let key = owner_key_of(&devices[i], unknown_owner);
        let ghost kv = key@;
        let ghost before = texts(keys@);
        insert_sorted(&mut keys, key);
        proof {
            assert forall|k: Seq<char>|
                texts(keys@).contains(k) implies exists|j: int|
                    0 <= j < i + 1 && owner_key(device_view(#[trigger] devices@[j]), unknown_owner@) == k by {
                if k == kv {
                    assert(owner_key(device_view(devices@[i as int]), unknown_owner@) == k);
                } else {
                    assert(before.contains(k));
                }
            }
            assert forall|k: Seq<char>|
                (exists|j: int|
                    0 <= j < i + 1 && owner_key(device_view(#[trigger] devices@[j]), unknown_owner@) == k) implies texts(keys@).contains(k) by {
                let j = choose|j: int|
                    0 <= j < i + 1 && owner_key(device_view(#[trigger] devices@[j]), unknown_owner@) == k;
                if j < i {
                    assert(before.contains(k));
                }
            }
        }
        i += 1;
    }
    let mut groups: Vec<(String, Vec<TailscaleDevice>)> = Vec::new();
    let mut g: usize = 0;
    while g < keys.len()
        invariant
            g <= keys.len(),
            ds == devices_view(devices@),
            strictly_sorted(texts(keys@)),
            groups@.len() == g,
            forall|q: int| 0 <= q < g ==> (#[trigger] groups@[q]).0@ == keys@[q]@,
            forall|q: int|
                0 <= q < g ==> devices_view((#[trigger] groups@[q]).1@) == keep_devices(
                    ds,
                    owned_by(groups@[q].0@, unknown_owner@),
                ),
        decreases keys.len() - g,
    {
        let key = keys[g].clone();
        let ghost keep = owned_by(key@, unknown_owner@);
        let mut members: Vec<TailscaleDevice> = Vec::new();
        let mut j: usize = 0;
        while j < devices.len()
            invariant
                j <= devices.len(),
                ds == devices_view(devices@),
                keep == owned_by(key@, unknown_owner@),
                devices_view(members@) == keep_devices(ds.take(j as int), keep),
            decreases devices.len() - j,
        {
            assert(ds.take(j + 1).drop_last() == ds.take(j as int));
            assert(ds.take(j + 1).last() == device_view(devices@[j as int]));
            let d = &devices[j];
            let k = owner_key_of(d, unknown_owner);
            if same_text(k.as_str(), key.as_str()) {
                let c = d.clone();
                let ghost before = members@;
                members.push(c);
                assert(devices_view(members@) =~= devices_view(before).push(device_view(*d)));
            }
            j += 1;
        }
        assert(ds.take(ds.len() as int) == ds);
        groups.push((key, members));
        g += 1;
    }
    assert(group_keys(groups@) =~= texts(keys@));
    groups
}

/// Keeping the devices for which `keep` holds neither adds nor loses one: a device is kept
/// exactly when it is in the list and `keep` holds of it, in the list's order.
pub proof fn lemma_keep_devices(ds: Seq<DeviceView>, keep: spec_fn(DeviceView) -> bool)
    ensures
        keep_devices(ds, keep).len() <= ds.len(),
        forall|d: DeviceView| #[trigger] keep_devices(ds, keep).contains(d) <==> ds.contains(d) && keep(d),
    decreases ds.len(),
{
    if ds.len() > 0 {
        let rest = ds.drop_last();
        lemma_keep_devices(rest, keep);
        let prev = keep_devices(rest, keep);
        assert forall|d: DeviceView| #[trigger] keep_devices(ds, keep).contains(d) <==> ds.contains(d) && keep(d) by {
            if ds.contains(d) && keep(d) {
                let i = choose|i: int| 0 <= i < ds.len() && ds[i] == d;
                if i < ds.len() - 1 {
                    assert(rest[i] == d);
                    assert(rest.contains(d));
                    assert(prev.contains(d));
                    if keep(ds.last()) {
                        let k = choose|k: int| 0 <= k < prev.len() && prev[k] == d;
                        assert(prev.push(ds.last())[k] == d);
                    }
                } else {
                    assert(keep_devices(ds, keep) == prev.push(ds.last()));
                    assert(prev.push(ds.last())[prev.len() as int] == d);
                }
            }
            if keep_devices(ds, keep).contains(d) {
                let k = choose|k: int| 0 <= k < keep_devices(ds, keep).len() && keep_devices(ds, keep)[k] == d;
                if k < prev.len() {
                    if keep(ds.last()) {
                        assert(prev.push(ds.last())[k] == prev[k]);
                    }
                    assert(prev.contains(d));
                    let i = choose|i: int| 0 <= i < rest.len() && rest[i] == d;
                    assert(ds[i] == d);
                } else {
                    assert(keep(ds.last()));
                    assert(d == ds.last());
                    assert(ds[ds.len() - 1] == d);
                }
            }
        }
    }
}

/// The Tailscale section lists exactly the peers that are not this machine and whose host
/// name is not hidden.
pub proof fn lemma_visible_peers(ds: Seq<DeviceView>, hidden: Seq<Seq<char>>, d: DeviceView)
    ensures
        keep_devices(ds, peer_shown(hidden)).contains(d) <==> ds.contains(d) && !d.is_self && !hidden.contains(
            d.hostname,
        ),
{
    lemma_keep_devices(ds, peer_shown(hidden));
}

/// A custom group lists exactly the peers whose host name matches its pattern (both in lower
/// case) and, under a search, whose lower-cased host name contains the search.
pub proof fn lemma_group_members(ds: Seq<DeviceView>, pattern: Seq<char>, filter: Seq<char>, d: DeviceView)
    ensures
        keep_devices(ds, group_member(pattern, filter)).contains(d) <==> ds.contains(d) && glob(
            lowercase(pattern),
            lowercase(d.hostname),
        ) && (filter.len() == 0 || contains_text(lowercase(d.hostname), filter)),
{
    lemma_keep_devices(ds, group_member(pattern, filter));
}

/// Outside the custom groups are listed exactly the peers that no group took and that pass
/// the search.
pub proof fn lemma_ungrouped_devices(ds: Seq<DeviceView>, grouped: Seq<Seq<char>>, filter: Seq<char>, d: DeviceView)
    ensures
        keep_devices(ds, ungrouped(grouped, filter)).contains(d) <==> ds.contains(d) && !grouped.contains(
            d.hostname,
        ) && (filter.len() == 0 || contains_text(lowercase(d.hostname), filter)),
{
    lemma_keep_devices(ds, ungrouped(grouped, filter));
}

/// Each owner group lists exactly the devices of that owner, a device without owner going
/// under the name given for the unknown owner.
pub proof fn lemma_owner_groups(ds: Seq<DeviceView>, key: Seq<char>, unknown: Seq<char>, d: DeviceView)
    ensures
        keep_devices(ds, owned_by(key, unknown)).contains(d) <==> ds.contains(d) && (if d.owner.len() == 0 {
            unknown
        } else {
            d.owner
        }) == key,
{
    lemma_keep_devices(ds, owned_by(key, unknown));
}

} // verus!
