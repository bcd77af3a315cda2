use vstd::prelude::*;

use crate::text::{chars_lex_lt, chars_of, lemma_lex_transitive, lemma_lex_trichotomy, lex_lt, same_text, signed_decimal, signed_decimal_string, string_from_chars, texts};

verus! {

/// The lower-case form of `s`, as `str::to_lowercase` gives it (Unicode case mapping).
pub uninterp spec fn lowercase(s: Seq<char>) -> Seq<char>;

/// `str::to_lowercase`.
#[verifier::external_body]
pub(crate) fn to_lowercase(s: &str) -> (r: String)
    ensures
        r@ == lowercase(s@),
{
    s.to_lowercase()
}

/// Whether `text` matches `pattern`, where `*` stands for any run of characters (even none)
/// and `?` for any one character; other characters stand for themselves.
pub open spec fn glob(pattern: Seq<char>, text: Seq<char>) -> bool
    decreases pattern.len() + text.len(),
{
    if pattern.len() == 0 {
        text.len() == 0
    } else if pattern.last() == '*' {
        glob(pattern.drop_last(), text) || (text.len() > 0 && glob(pattern, text.drop_last()))
    } else {
        text.len() > 0 && (pattern.last() == '?' || pattern.last() == text.last()) && glob(
            pattern.drop_last(),
            text.drop_last(),
        )
    }
}

/// No wildcard in `p`.
pub open spec fn literal_pattern(p: Seq<char>) -> bool {
    forall|i: int| 0 <= i < p.len() ==> (#[trigger] p[i]) != '*' && p[i] != '?'
}

/// A pattern without wildcards matches exactly the text that is spelled like it.
pub proof fn lemma_glob_literal(p: Seq<char>, t: Seq<char>)
    requires
        literal_pattern(p),
    ensures
        glob(p, t) <==> p == t,
    decreases p.len() + t.len(),
{
    if p.len() > 0 {
        assert(p.last() == p[p.len() - 1]);
        assert(literal_pattern(p.drop_last()));
        if t.len() > 0 {
            lemma_glob_literal(p.drop_last(), t.drop_last());
            if p == t {
                assert(p.drop_last() == t.drop_last());
            }
            if p.last() == t.last() && p.drop_last() == t.drop_last() {
                assert(p =~= t.drop_last().push(t.last()));
                assert(t =~= t.drop_last().push(t.last()));
            }
        }
    } else {
        if t.len() == 0 {
            assert(p =~= t);
        }
    }
}

/// A literal prefix followed by `*` matches exactly the texts that start with the prefix.
pub proof fn lemma_glob_prefix_star(p: Seq<char>, t: Seq<char>)
    requires
        literal_pattern(p),
    ensures
        glob(p.push('*'), t) <==> (p.len() <= t.len() && t.take(p.len() as int) == p),
    decreases t.len(),
{
    let q = p.push('*');
    assert(q.last() == '*');
    assert(q.drop_last() =~= p);
    lemma_glob_literal(p, t);
    if t.len() > 0 {
        lemma_glob_prefix_star(p, t.drop_last());
        if p.len() <= t.len() - 1 {
            assert(t.drop_last().take(p.len() as int) =~= t.take(p.len() as int));
        }
        if p == t {
            assert(t.take(p.len() as int) =~= t);
        }
        if p.len() == t.len() && t.take(p.len() as int) == p {
            assert(t.take(p.len() as int) =~= t);
        }
    } else {
        if p.len() == 0 {
            assert(t.take(0) =~= p);
        }
    }
}

/// A pattern of a single `*` matches every text.
pub proof fn lemma_glob_star_matches_all(t: Seq<char>)
    ensures
        glob(seq!['*'], t),
    decreases t.len(),
{
    let q = seq!['*'];
    assert(q.last() == '*');
    assert(q.drop_last() =~= Seq::<char>::empty());
    if t.len() > 0 {
        lemma_glob_star_matches_all(t.drop_last());
    } else {
        assert(glob(q.drop_last(), t));
    }
}

/// Case-insensitive glob match (`*` any run, `?` any one character), after lower-casing both
/// sides.
pub fn glob_match(pattern: &str, text: &str) -> (r: bool)
    ensures
        r == glob(lowercase(pattern@), lowercase(text@)),
{
    let pl = to_lowercase(pattern);
    let tl = to_lowercase(text);
    let p = chars_of(pl.as_str());
    let t = chars_of(tl.as_str());
    let ghost ps = p@;
    let ghost ts = t@;
    // Row i of the table: prev[j] == glob(p[..i], t[..j]).
    let mut prev: Vec<bool> = Vec::new();
    prev.push(true);
    let mut j: usize = 0;
    while j < t.len()
        invariant
            j <= t.len(),
            ps == p@,
            ts == t@,
            prev@.len() == j + 1,
            forall|k: int| 0 <= k <= j ==> prev@[k] == glob(ps.take(0), ts.take(k)),
        decreases t.len() - j,
    {
        proof {
            assert(ps.take(0).len() == 0);
        }
        prev.push(false);
        j += 1;
    }
    let mut i: usize = 0;
    while i < p.len()
        invariant
            i <= p.len(),
            ps == p@,
            ts == t@,
            prev@.len() == t@.len() + 1,
            forall|k: int| 0 <= k <= t@.len() ==> prev@[k] == glob(ps.take(i as int), ts.take(k)),
        decreases p.len() - i,
    {
        let c = p[i];
        let ghost pi = ps.take(i + 1);
        proof {
            assert(pi.last() == c);
            assert(pi.drop_last() == ps.take(i as int));
            assert(ts.take(0).len() == 0);
        }
        let mut cur: Vec<bool> = Vec::new();
        cur.push(c == '*' && prev[0]);
        let mut j: usize = 0;
        while j < t.len()
            invariant
                i < p.len(),
                j <= t.len(),
                ps == p@,
                ts == t@,
                c == ps[i as int],
                pi == ps.take(i + 1),
                pi.last() == c,
                pi.drop_last() == ps.take(i as int),
                prev@.len() == t@.len() + 1,
                forall|k: int| 0 <= k <= t@.len() ==> prev@[k] == glob(ps.take(i as int), ts.take(k)),
                cur@.len() == j + 1,
                forall|k: int| 0 <= k <= j ==> cur@[k] == glob(pi, ts.take(k)),
            decreases t.len() - j,
        {
            proof {
                assert(ts.take(j + 1).drop_last() == ts.take(j as int));
                assert(ts.take(j + 1).last() == ts[j as int]);
            }
            let v = if c == '*' {
                prev[j + 1] || cur[j]
            } else if c == '?' || c == t[j] {
                prev[j]
            } else {
                false
            };
            cur.push(v);
            j += 1;
        }
        prev = cur;
        i += 1;
    }
    proof {
        assert(ps.take(p@.len() as int) == ps);
        assert(ts.take(t@.len() as int) == ts);
    }
    prev[t.len()]
}

/// A device of the tailnet, as the connection tree shows it.
#[derive(Debug)]
pub struct TailscaleDevice {
    pub hostname: String,
    pub dns_name: String,
    pub addresses: Vec<String>,
    pub os: String,
    pub online: bool,
    pub last_seen: Option<String>,
    pub is_self: bool,
    pub owner: String,
}

/// A copy of a list of texts.
pub fn clone_texts(v: &Vec<String>) -> (out: Vec<String>)
    ensures
        texts(out@) == texts(v@),
{
    let mut out: Vec<String> = Vec::new();
    let mut i: usize = 0;
    while i < v.len()
        invariant
            i <= v.len(),
            out@.len() == i,
            forall|j: int| 0 <= j < i ==> (#[trigger] out@[j])@ == v@[j]@,
        decreases v.len() - i,
    {
        let t = v[i].clone();
        out.push(t);
        i += 1;
    }
    assert(texts(out@) =~= texts(v@));
    out
}

impl Clone for TailscaleDevice {
    fn clone(&self) -> (res: Self)
        ensures
            device_view(res) == device_view(*self),
    {
        TailscaleDevice {
            hostname: self.hostname.clone(),
            dns_name: self.dns_name.clone(),
            addresses: clone_texts(&self.addresses),
            os: self.os.clone(),
            online: self.online,
            last_seen: match &self.last_seen {
                Some(t) => Some(t.clone()),
                None => None,
            },
            is_self: self.is_self,
            owner: self.owner.clone(),
        }
    }
}

/// A user of the tailnet.
#[derive(Debug)]
pub struct TsUser {
    pub login_name: String,
}

/// A node as Tailscale's status reports it.
#[derive(Debug)]
pub struct TsNode {
    pub hostname: String,
    pub dns_name: String,
    pub tailscale_ips: Vec<String>,
    pub os: String,
    pub online: bool,
    pub last_seen: Option<String>,
    pub user_id: i64,
}

/// Tailscale's status: this machine, its peers (by node key, in the order given), and the
/// users by their decimal id. Reported by Tailscale, the user ids are distinct
/// (`user_keys_distinct`); the lookup then acts as that of a map
/// (`lemma_user_login_is_map_lookup`).
#[derive(Debug)]
pub struct TsStatus {
    pub self_node: Option<TsNode>,
    pub peer: Option<Vec<(String, TsNode)>>,
    pub user: Vec<(String, TsUser)>,
}

/// A device's contents.
pub ghost struct DeviceView {
    pub hostname: Seq<char>,
    pub dns_name: Seq<char>,
    pub addresses: Seq<Seq<char>>,
    pub os: Seq<char>,
    pub online: bool,
    pub last_seen: Option<Seq<char>>,
    pub is_self: bool,
    pub owner: Seq<char>,
}

pub open spec fn opt_text(o: Option<String>) -> Option<Seq<char>> {
    match o {
        Some(s) => Some(s@),
        None => None,
    }
}

pub open spec fn device_view(d: TailscaleDevice) -> DeviceView {
    DeviceView {
        hostname: d.hostname@,
        dns_name: d.dns_name@,
        addresses: texts(d.addresses@),
        os: d.os@,
        online: d.online,
        last_seen: opt_text(d.last_seen),
        is_self: d.is_self,
        owner: d.owner@,
    }
}

pub open spec fn devices_view(ds: Seq<TailscaleDevice>) -> Seq<DeviceView> {
    ds.map_values(|d: TailscaleDevice| device_view(d))
}

/// `s` without the trailing dots (`str::trim_end_matches('.')`).
pub open spec fn trim_end_dots(s: Seq<char>) -> Seq<char>
    decreases s.len(),
{
    if s.len() > 0 && s.last() == '.' {
        trim_end_dots(s.drop_last())
    } else {
        s
    }
}

/// Trimming the trailing dots keeps the text up to its last character that is not a dot:
/// what is left is a prefix of the name without a dot at its end, and only dots were cut.
pub proof fn lemma_trim_end_dots(s: Seq<char>)
    ensures
        trim_end_dots(s).len() <= s.len(),
        s.take(trim_end_dots(s).len() as int) == trim_end_dots(s),
        trim_end_dots(s).len() == 0 || trim_end_dots(s).last() != '.',
        forall|i: int| trim_end_dots(s).len() <= i < s.len() ==> #[trigger] s[i] == '.',
    decreases s.len(),
{
    if s.len() > 0 && s.last() == '.' {
        let r = s.drop_last();
        lemma_trim_end_dots(r);
        let t = trim_end_dots(r);
        assert(s.take(t.len() as int) =~= r.take(t.len() as int));
        assert forall|i: int| t.len() <= i < s.len() implies #[trigger] s[i] == '.' by {
            if i < r.len() {
                assert(s[i] == r[i]);
            }
        }
    } else {
        assert(s.take(s.len() as int) =~= s);
    }
}

/// The login name of the user whose key is `key` (the first such), if any.
pub open spec fn user_login(users: Seq<(String, TsUser)>, key: Seq<char>) -> Option<Seq<char>>
    decreases users.len(),
{
    if users.len() == 0 {
        None
    } else if users[0].0@ == key {
        Some(users[0].1.login_name@)
    } else {
        user_login(users.drop_first(), key)
    }
}

/// The users of a status are keyed like a map: no key occurs twice (the status as Tailscale
/// reports it is a JSON object keyed by user id).
pub open spec fn user_keys_distinct(users: Seq<(String, TsUser)>) -> bool {
    forall|i: int, j: int| 0 <= i < j < users.len() ==> users[i].0@ != users[j].0@
}

/// With distinct keys the users behave as a map: the login found for a key is that of the one
/// user holding the key, and none is found for a key that no user holds.
pub proof fn lemma_user_login_is_map_lookup(users: Seq<(String, TsUser)>, key: Seq<char>)
    requires
        user_keys_distinct(users),
    ensures
        forall|i: int| 0 <= i < users.len() && users[i].0@ == key ==> user_login(users, key) == Some(users[i].1.login_name@),
        (forall|i: int| 0 <= i < users.len() ==> users[i].0@ != key) ==> user_login(users, key) is None,
    decreases users.len(),
{
    if users.len() > 0 {
        let rest = users.drop_first();
        assert(user_keys_distinct(rest)) by {
            assert forall|i: int, j: int| 0 <= i < j < rest.len() implies rest[i].0@ != rest[j].0@ by {
                assert(rest[i] == users[i + 1] && rest[j] == users[j + 1]);
            }
        }
        lemma_user_login_is_map_lookup(rest, key);
        assert forall|i: int| 0 <= i < users.len() && users[i].0@ == key implies user_login(users, key) == Some(users[i].1.login_name@) by {
            if i > 0 {
                assert(users[0].0@ != users[i].0@);
                assert(rest[i - 1] == users[i]);
            }
        }
        if forall|i: int| 0 <= i < users.len() ==> users[i].0@ != key {
            assert forall|i: int| 0 <= i < rest.len() implies rest[i].0@ != key by {
                assert(rest[i] == users[i + 1]);
            }
        }
    }
}

/// The device that a status node stands for: its DNS name without trailing dots, its owner
/// the login name of its user (empty if unknown).
pub open spec fn node_device(n: TsNode, is_self: bool, users: Seq<(String, TsUser)>) -> DeviceView {
    DeviceView {
        hostname: n.hostname@,
        dns_name: trim_end_dots(n.dns_name@),
        addresses: texts(n.tailscale_ips@),
        os: n.os@,
        online: n.online,
        last_seen: opt_text(n.last_seen),
        is_self,
        owner: match user_login(users, signed_decimal(n.user_id as int)) {
            Some(l) => l,
            None => Seq::empty(),
        },
    }
}

/// The login name of the first user whose key is `key`.
fn find_login(users: &Vec<(String, TsUser)>, key: &str) -> (r: Option<String>)
    ensures
        opt_text(r) == user_login(users@, key@),
{
    let mut k: usize = 0;
    assert(users@.skip(0) == users@);
    while k < users.len()
        invariant
            k <= users.len(),
            user_login(users@, key@) == user_login(users@.skip(k as int), key@),
        decreases users.len() - k,
    {
        assert(users@.skip(k as int).drop_first() == users@.skip(k + 1));
        if same_text(users[k].0.as_str(), key) {
            return Some(users[k].1.login_name.clone());
        }
        k += 1;
    }
    None
}

impl TsNode {
    /// The device this node stands for.
    pub fn into_device(self, is_self: bool, users: &Vec<(String, TsUser)>) -> (d: TailscaleDevice)
        ensures
            device_view(d) == node_device(self, is_self, users@),
    {
        let key = signed_decimal_string(self.user_id);
        let owner = match find_login(users, key.as_str()) {
            Some(l) => l,
            None => String::new(),
        };
        let dns = chars_of(self.dns_name.as_str());
        let mut n = dns.len();
        assert(dns@.take(n as int) == dns@);
        while n > 0 && dns[n - 1] == '.'
            invariant
                n <= dns.len(),
                trim_end_dots(dns@) == trim_end_dots(dns@.take(n as int)),
            decreases n,
        {
            assert(dns@.take(n as int).drop_last() == dns@.take(n - 1));
            n -= 1;
        }
        proof {
            assert(dns@.take(dns@.len() as int) == dns@);
        }
        let dns_name = string_from_chars(&crate::text::chars_slice(&dns, 0, n));
        assert(dns@.subrange(0, n as int) == dns@.take(n as int));
        TailscaleDevice {
            hostname: self.hostname,
            dns_name,
            addresses: self.tailscale_ips,
            os: self.os,
            online: self.online,
            last_seen: self.last_seen,
            is_self,
            owner,
        }
    }
}

/// The sort key of a device: its host name in lower case.
pub open spec fn device_key(d: DeviceView) -> Seq<char> {
    lowercase(d.hostname)
}

/// `s` (sorted) with `x` put after every device whose key does not exceed its own.
pub open spec fn insert_by_key(s: Seq<DeviceView>, x: DeviceView) -> Seq<DeviceView>
    decreases s.len(),
{
    if s.len() > 0 && lex_lt(device_key(x), device_key(s.last())) {
        insert_by_key(s.drop_last(), x).push(s.last())
    } else {
        s.push(x)
    }
}

/// The stable sort of `s` by key: what `sort_by` on the keys gives.
pub open spec fn sort_by_key(s: Seq<DeviceView>) -> Seq<DeviceView>
    decreases s.len(),
{
    if s.len() == 0 {
        s
    } else {
        insert_by_key(sort_by_key(s.drop_last()), s.last())
    }
}

/// Host-name keys do not decrease along the list.
pub open spec fn sorted_by_key(s: Seq<DeviceView>) -> bool {
    forall|i: int, j: int|
        0 <= i < j < s.len() ==> !lex_lt(device_key(#[trigger] s[j]), device_key(#[trigger] s[i]))
}

/// Every key of the list is at most `k`.
pub open spec fn keys_at_most(s: Seq<DeviceView>, k: Seq<char>) -> bool {
    forall|i: int| 0 <= i < s.len() ==> !lex_lt(k, device_key(#[trigger] s[i]))
}

proof fn lemma_at_most_trans(a: Seq<char>, b: Seq<char>, c: Seq<char>)
    requires
        !lex_lt(b, a),
        !lex_lt(c, b),
    ensures
        !lex_lt(c, a),
{
    lemma_lex_trichotomy(a, b);
    lemma_lex_trichotomy(b, c);
    lemma_lex_trichotomy(a, c);
    if lex_lt(a, b) && lex_lt(b, c) {
        lemma_lex_transitive(a, b, c);
    }
}

proof fn lemma_insert_by_key(s: Seq<DeviceView>, x: DeviceView, k: Seq<char>)
    requires
        sorted_by_key(s),
    ensures
        sorted_by_key(insert_by_key(s, x)),
        insert_by_key(s, x).to_multiset() == s.to_multiset().insert(x),
        keys_at_most(s, k) && !lex_lt(k, device_key(x)) ==> keys_at_most(insert_by_key(s, x), k),
    decreases s.len(),
{
    broadcast use vstd::multiset::group_multiset_axioms;
    if s.len() > 0 && lex_lt(device_key(x), device_key(s.last())) {
        let l = s.last();
        let rest = s.drop_last();
        assert(s == rest.push(l));
        assert(sorted_by_key(rest));
        assert forall|i: int| 0 <= i < rest.len() implies !lex_lt(device_key(l), device_key(#[trigger] rest[i])) by {
            assert(rest[i] == s[i]);
        }
        lemma_lex_trichotomy(device_key(x), device_key(l));
        lemma_insert_by_key(rest, x, device_key(l));
        lemma_insert_by_key(rest, x, k);
        let r = insert_by_key(rest, x);
        vstd::seq_lib::to_multiset_build(r, l);
        vstd::seq_lib::to_multiset_build(rest, l);
        assert(r.push(l).to_multiset() =~= s.to_multiset().insert(x));
        if keys_at_most(s, k) && !lex_lt(k, device_key(x)) {
            assert(!lex_lt(k, device_key(s[s.len() - 1])));
        }
    } else {
        vstd::seq_lib::to_multiset_build(s, x);
        if s.len() > 0 {
            lemma_lex_trichotomy(device_key(x), device_key(s.last()));
            assert forall|i: int| 0 <= i < s.len() implies !lex_lt(device_key(x), device_key(#[trigger] s[i])) by {
                if i < s.len() - 1 {
                    lemma_at_most_trans(device_key(s[i]), device_key(s.last()), device_key(x));
                }
            }
        }
    }
}

/// The devices that `parse_status` gives are in host-name order and are exactly those of the
/// status: sorting neither loses nor adds a device.
pub proof fn lemma_sort_by_key(s: Seq<DeviceView>)
    ensures
        sorted_by_key(sort_by_key(s)),
        sort_by_key(s).to_multiset() == s.to_multiset(),
    decreases s.len(),
{
    broadcast use vstd::multiset::group_multiset_axioms;
    if s.len() > 0 {
        lemma_sort_by_key(s.drop_last());
        lemma_insert_by_key(sort_by_key(s.drop_last()), s.last(), seq![]);
        vstd::seq_lib::to_multiset_build(s.drop_last(), s.last());
        assert(s.drop_last().push(s.last()) == s);
    } else {
        assert(s.to_multiset() =~= sort_by_key(s).to_multiset());
    }
}

/// The devices of a status before sorting: this machine first, then the peers in order.
pub open spec fn status_devices(status: TsStatus) -> Seq<DeviceView> {
    self_devices(status.self_node, status.user@) + peer_devices(status.peer, status.user@)
}

/// This machine's device, if the status has one.
pub open spec fn self_devices(node: Option<TsNode>, users: Seq<(String, TsUser)>) -> Seq<DeviceView> {
    match node {
        Some(n) => seq![node_device(n, true, users)],
        None => Seq::empty(),
    }
}

/// The peers' devices, in order.
pub open spec fn peer_devices(peers: Option<Vec<(String, TsNode)>>, users: Seq<(String, TsUser)>) -> Seq<DeviceView> {
    match peers {
        Some(ps) => ps@.map_values(|p: (String, TsNode)| node_device(p.1, false, users)),
        None => Seq::empty(),
    }
}

proof fn lemma_insert_at(s: Seq<DeviceView>, x: DeviceView, pos: int)
    requires
        0 <= pos <= s.len(),
        forall|k: int| pos <= k < s.len() ==> lex_lt(device_key(x), device_key(#[trigger] s[k])),
        pos == 0 || !lex_lt(device_key(x), device_key(s[pos - 1])),
    ensures
        insert_by_key(s, x) == s.take(pos).push(x) + s.skip(pos),
    decreases s.len(),
{
    if pos < s.len() {
        lemma_insert_at(s.drop_last(), x, pos);
        assert(s.drop_last().take(pos) == s.take(pos));
        assert(s.drop_last().skip(pos).push(s.last()) == s.skip(pos));
        assert((s.take(pos).push(x) + s.drop_last().skip(pos)).push(s.last()) == s.take(pos).push(x) + s.skip(pos));
    } else {
        assert(s.take(pos) == s);
        assert(s.skip(pos).len() == 0);
        assert(s.take(pos).push(x) + s.skip(pos) == s.push(x));
    }
}

/// Puts `d` into the sorted list `out` after every device whose lower-cased host name does
/// not come after its own.
fn insert_device(out: &mut Vec<TailscaleDevice>, d: TailscaleDevice)
    ensures
        devices_view(final(out)@) == insert_by_key(devices_view(old(out)@), device_view(d)),
{
    let ghost s = devices_view(out@);
    let key = chars_of(to_lowercase(d.hostname.as_str()).as_str());
    let mut pos = out.len();
    while pos > 0 && chars_lex_lt(&key, &chars_of(to_lowercase(out[pos - 1].hostname.as_str()).as_str()))
        invariant
            pos <= out.len(),
            s == devices_view(out@),
            key@ == device_key(device_view(d)),
            forall|k: int| pos <= k < s.len() ==> lex_lt(device_key(device_view(d)), device_key(#[trigger] s[k])),
        decreases pos,
    {
        pos -= 1;
    }
    proof {
        lemma_insert_at(s, device_view(d), pos as int);
    }
    out.insert(pos, d);
    assert(devices_view(out@) =~= s.take(pos as int).push(device_view(d)) + s.skip(pos as int));
}

/// The devices of a Tailscale status: this machine (marked as such) and its peers, sorted by
/// lower-cased host name; devices with the same key keep that order.
pub fn parse_status(status: TsStatus) -> (devices: Vec<TailscaleDevice>)
    ensures
        devices_view(devices@) == sort_by_key(status_devices(status)),
{
    let ghost all = status_devices(status);
    let ghost users = status.user@;
    let ghost me = self_devices(status.self_node, status.user@);
    let ghost ps = peer_devices(status.peer, status.user@);
    let TsStatus { self_node, peer, user } = status;
    let mut raw: Vec<TailscaleDevice> = Vec::new();
    if let Some(n) = self_node {
        raw.push(n.into_device(true, &user));
    }
    assert(devices_view(raw@) =~= me);
    if let Some(peers) = peer {
        let ghost pv = peers@.map_values(|p: (String, TsNode)| node_device(p.1, false, users));
        for p in it: peers
            invariant
                user@ == users,
                pv == it.seq().map_values(|p: (String, TsNode)| node_device(p.1, false, users)),
                devices_view(raw@) == me + pv.take(it.index() as int),
        {
            let (_, node) = p;
            let ghost before = devices_view(raw@);
            raw.push(node.into_device(false, &user));
            assert(pv.take(it.index() + 1) == pv.take(it.index() as int).push(pv[it.index() as int]));
            assert(devices_view(raw@) =~= before.push(pv[it.index() as int]));
        }
        assert(pv.take(pv.len() as int) == pv);
        assert(pv == ps);
    } else {
        assert(me + Seq::<DeviceView>::empty() == me);
    }
    assert(devices_view(raw@) == all);
    let ghost rv = devices_view(raw@);
    let mut out: Vec<TailscaleDevice> = Vec::new();
    assert(rv.take(0) =~= Seq::<DeviceView>::empty());
    for d in it: raw
        invariant
            rv == it.seq().map_values(|d: TailscaleDevice| device_view(d)),
            devices_view(out@) == sort_by_key(rv.take(it.index() as int)),
    {
        assert(rv.take(it.index() + 1).drop_last() == rv.take(it.index() as int));
        insert_device(&mut out, d);
    }
    assert(rv.take(rv.len() as int) == rv);
    out
}

/// The commands tried, in order, to run the Tailscale CLI: on macOS also the usual install
/// locations.
pub fn tailscale_cli_candidates(macos: bool) -> (r: Vec<&'static str>)
    ensures
        macos ==> r@.len() == 4 && r@[0]@ == "tailscale"@ && r@[1]@ == "/opt/homebrew/bin/tailscale"@
            && r@[2]@ == "/usr/local/bin/tailscale"@ && r@[3]@ == "/Applications/Tailscale.app/Contents/MacOS/Tailscale"@,
        !macos ==> r@.len() == 1 && r@[0]@ == "tailscale"@,
{
    let mut r: Vec<&'static str> = Vec::new();
    r.push("tailscale");
    if macos {
        r.push("/opt/homebrew/bin/tailscale");
        r.push("/usr/local/bin/tailscale");
        r.push("/Applications/Tailscale.app/Contents/MacOS/Tailscale");
    }
    r
}

/// The device list after one round of the discovery loop: empty while discovery is off;
/// otherwise the newly discovered devices, or the old list when discovery failed.
pub fn next_device_list(
    enabled: bool,
    current: Vec<TailscaleDevice>,
    discovered: Option<Vec<TailscaleDevice>>,
) -> (r: Vec<TailscaleDevice>)
    ensures
        !enabled ==> r@.len() == 0,
        enabled ==> match discovered {
            Some(d) => r == d,
            None => r == current,
        },
{
    if !enabled {
        return Vec::new();
    }
    match discovered {
        Some(d) => d,
        None => current,
    }
}

/// Whether device `d` shows node `n`: its host name, DNS name without trailing dots,
/// addresses, OS, online flag and last-seen time, and as owner the login of the user with the
/// node's id (empty when there is none).
pub open spec fn shows_node(d: DeviceView, n: TsNode, users: Seq<(String, TsUser)>) -> bool {
    &&& d.hostname == n.hostname@
    &&& d.dns_name == trim_end_dots(n.dns_name@)
    &&& d.addresses == texts(n.tailscale_ips@)
    &&& d.os == n.os@
    &&& d.online == n.online
    &&& d.last_seen == opt_text(n.last_seen)
    &&& d.owner == (match user_login(users, signed_decimal(n.user_id as int)) {
        Some(l) => l,
        None => Seq::empty(),
    })
}

/// Every device that `parse_status` lists comes from a node of the status and shows it: this
/// machine's node (marked as this machine) or one of the peers (not marked).
pub proof fn lemma_parsed_devices_come_from_nodes(status: TsStatus, d: DeviceView)
    requires
        sort_by_key(status_devices(status)).contains(d),
    ensures
        (d.is_self && status.self_node is Some && shows_node(d, status.self_node->0, status.user@)) || (!d.is_self
            && status.peer is Some && exists|k: int|
            0 <= k < status.peer->0@.len() && shows_node(d, (#[trigger] status.peer->0@[k]).1, status.user@)),
{
    broadcast use vstd::seq_lib::to_multiset_contains;

    let all = status_devices(status);
    lemma_sort_by_key(all);
    assert(sort_by_key(all).to_multiset().count(d) > 0);
    assert(all.contains(d));
    let idx = choose|idx: int| 0 <= idx < all.len() && all[idx] == d;
    let me = self_devices(status.self_node, status.user@);
    let peers = peer_devices(status.peer, status.user@);
    if idx < me.len() {
        assert(all[idx] == me[idx]);
    } else {
        assert(all[idx] == peers[idx - me.len()]);
        let k = idx - me.len();
        match status.peer {
            Some(ps) => {
                assert(peers[k] == node_device(ps@[k].1, false, status.user@));
            },
            None => {},
        }
    }
}


/// A device of the list that shows `n`, marked as this machine or not.
pub open spec fn lists_node(out: Seq<DeviceView>, n: TsNode, is_self: bool, users: Seq<(String, TsUser)>) -> bool {
    exists|i: int| 0 <= i < out.len() && (#[trigger] out[i]).is_self == is_self && shows_node(out[i], n, users)
}

/// Nothing of the status is dropped: `parse_status` lists one device per node (this machine
/// and each peer), and each node has a device in the list that shows it.
pub proof fn lemma_every_node_is_listed(status: TsStatus)
    ensures
        sort_by_key(status_devices(status)).len() == (if status.self_node is Some { 1int } else { 0int }) + (
        match status.peer {
            Some(ps) => ps@.len() as int,
            None => 0int,
        }),
        status.self_node is Some ==> lists_node(
            sort_by_key(status_devices(status)),
            status.self_node->0,
            true,
            status.user@,
        ),
        status.peer is Some ==> forall|k: int|
            0 <= k < status.peer->0@.len() ==> lists_node(
                sort_by_key(status_devices(status)),
                (#[trigger] status.peer->0@[k]).1,
                false,
                status.user@,
            ),
{
    broadcast use vstd::seq_lib::to_multiset_contains;
    broadcast use vstd::seq_lib::to_multiset_len;

    let all = status_devices(status);
    let out = sort_by_key(all);
    let users = status.user@;
    let me = self_devices(status.self_node, users);
    let peers = peer_devices(status.peer, users);
    lemma_sort_by_key(all);
    assert(out.len() == out.to_multiset().len());
    assert(all.len() == all.to_multiset().len());
    if status.self_node is Some {
        let d = all[0];
        assert(d == node_device(status.self_node->0, true, users));
        assert(all.contains(d));
        assert(out.to_multiset().count(d) > 0);
        assert(out.contains(d));
        let i = choose|i: int| 0 <= i < out.len() && out[i] == d;
        assert(out[i].is_self == true && shows_node(out[i], status.self_node->0, users));
    }
    match status.peer {
        Some(ps) => {
            assert forall|k: int| 0 <= k < ps@.len() implies lists_node(out, (#[trigger] ps@[k]).1, false, users) by {
                let d = all[me.len() + k];
                assert(d == peers[k]);
                assert(d == node_device(ps@[k].1, false, users));
                assert(all.contains(d));
                assert(out.to_multiset().count(d) > 0);
                assert(out.contains(d));
                let i = choose|i: int| 0 <= i < out.len() && out[i] == d;
                assert(out[i].is_self == false && shows_node(out[i], ps@[k].1, users));
            }
        },
        None => {},
    }
}

} // verus!
