use vstd::prelude::*;

use crate::text::{
    chars_have_prefix, chars_of, chars_slice, has_prefix, spec_is_whitespace, string_from_chars, texts, trim, trim_chars,
};

verus! {

/// Which way files go.
#[derive(Debug, Clone, Copy, PartialEq, Eq, Structural)]
pub enum ScpDirection {
    LocalToRemote,
    RemoteToLocal,
}

/// What a finished transfer reports.
#[derive(Debug, Clone, Copy)]
pub struct ScpTransferSummary {
    pub files_transferred: usize,
    pub workers_used: usize,
}

/// `s` with every `\` turned into `/`.
pub open spec fn forward_slashes(s: Seq<char>) -> Seq<char> {
    s.map_values(|c: char| if c == '\\' { '/' } else { c })
}

/// A remote path as the transfers use it: trimmed, with `/` for `\`, and `/` when empty.
pub open spec fn spec_normalize_remote_path(path: Seq<char>) -> Seq<char> {
    let t = forward_slashes(trim(path));
    if t.len() == 0 {
        seq!['/']
    } else {
        t
    }
}

fn normalize_chars(path: &str) -> (r: Vec<char>)
    ensures
        r@ == spec_normalize_remote_path(path@),
{
    let t = trim_chars(&chars_of(path));
    let mut r: Vec<char> = Vec::new();
    let mut i: usize = 0;
    while i < t.len()
        invariant
            i <= t.len(),
            r@ == forward_slashes(t@.take(i as int)),
        decreases t.len() - i,
    {
        let c = t[i];
        r.push(if c == '\\' { '/' } else { c });
        assert(forward_slashes(t@.take(i + 1)) =~= forward_slashes(t@.take(i as int)).push(if c == '\\' { '/' } else { c }));
        i += 1;
    }
    assert(t@.take(t@.len() as int) == t@);
    if r.len() == 0 {
        r.push('/');
        assert(r@ =~= seq!['/']);
    }
    r
}

/// A remote path as the transfers use it: trimmed, with `/` for `\`, and `/` when empty.
pub fn normalize_remote_path(path: &str) -> (r: String)
    ensures
        r@ == spec_normalize_remote_path(path@),
{
    string_from_chars(&normalize_chars(path))
}

/// `s` without leading `c`.
pub open spec fn trim_start_char(s: Seq<char>, c: char) -> Seq<char>
    decreases s.len(),
{
    if s.len() > 0 && s[0] == c {
        trim_start_char(s.drop_first(), c)
    } else {
        s
    }
}

/// `s` without trailing `c`.
pub open spec fn trim_end_char(s: Seq<char>, c: char) -> Seq<char>
    decreases s.len(),
{
    if s.len() > 0 && s.last() == c {
        trim_end_char(s.drop_last(), c)
    } else {
        s
    }
}

fn trim_end_char_exec(s: &Vec<char>, c: char) -> (r: Vec<char>)
    ensures
        r@ == trim_end_char(s@, c),
{
    let mut n = s.len();
    assert(s@.take(n as int) == s@);
    while n > 0 && s[n - 1] == c
        invariant
            n <= s.len(),
            trim_end_char(s@, c) == trim_end_char(s@.take(n as int), c),
        decreases n,
    {
        assert(s@.take(n as int).drop_last() == s@.take(n - 1));
        n -= 1;
    }
    let r = crate::text::chars_slice(s, 0, n);
    assert(r@ == s@.take(n as int));
    r
}

fn trim_start_char_exec(s: &Vec<char>, c: char) -> (r: Vec<char>)
    ensures
        r@ == trim_start_char(s@, c),
{
    let mut a: usize = 0;
    assert(s@.skip(0) == s@);
    while a < s.len() && s[a] == c
        invariant
            a <= s.len(),
            trim_start_char(s@, c) == trim_start_char(s@.skip(a as int), c),
        decreases s.len() - a,
    {
        assert(s@.skip(a as int).drop_first() == s@.skip(a + 1));
        a += 1;
    }
    let r = crate::text::chars_slice(s, a, s.len());
    assert(r@ == s@.skip(a as int));
    r
}

/// `base` and `child` joined by one `/`: `child` without leading or trailing `/`, after the
/// normalized `base` without trailing `/`.
pub open spec fn spec_remote_join(base: Seq<char>, child: Seq<char>) -> Seq<char> {
    let b = spec_normalize_remote_path(base);
    let c = trim_end_char(trim_start_char(child, '/'), '/');
    if b == seq!['/'] {
        seq!['/'] + c
    } else {
        trim_end_char(b, '/') + seq!['/'] + c
    }
}

/// `base` and `child` joined by one `/`.
pub fn remote_join(base: &str, child: &str) -> (r: String)
    ensures
        r@ == spec_remote_join(base@, child@),
{
    let b = normalize_chars(base);
    let c = trim_end_char_exec(&trim_start_char_exec(&chars_of(child), '/'), '/');
    let mut out: Vec<char> = if b.len() == 1 && b[0] == '/' {
        assert(b@ =~= seq!['/']);
        Vec::new()
    } else {
        proof {
            if b@ == seq!['/'] {
                assert(b@.len() == 1 && b@[0] == '/');
            }
        }
        trim_end_char_exec(&b, '/')
    };
    let ghost head = out@;
    out.push('/');
    let mut k: usize = 0;
    while k < c.len()
        invariant
            k <= c.len(),
            out@ == head + seq!['/'] + c@.take(k as int),
        decreases c.len() - k,
    {
        out.push(c[k]);
        assert(c@.take(k + 1) == c@.take(k as int).push(c@[k as int]));
        k += 1;
    }
    assert(c@.take(c@.len() as int) == c@);
    string_from_chars(&out)
}

/// The index of the last `c` in `s`, if any.
pub open spec fn last_index_of(s: Seq<char>, c: char) -> Option<int>
    decreases s.len(),
{
    if s.len() == 0 {
        None
    } else if s.last() == c {
        Some(s.len() - 1)
    } else {
        last_index_of(s.drop_last(), c)
    }
}

fn last_index_exec(s: &Vec<char>, c: char) -> (r: Option<usize>)
    ensures
        match r {
            Some(i) => last_index_of(s@, c) == Some(i as int) && i < s@.len(),
            None => last_index_of(s@, c) is None,
        },
{
    let mut n = s.len();
    assert(s@.take(n as int) == s@);
    while n > 0
        invariant
            n <= s.len(),
            last_index_of(s@, c) == last_index_of(s@.take(n as int), c),
        decreases n,
    {
        assert(s@.take(n as int).drop_last() == s@.take(n - 1));
        if s[n - 1] == c {
            return Some(n - 1);
        }
        n -= 1;
    }
    None
}

/// The directory part of a remote path: what stands before its last `/` (`/` when that is
/// empty); `None` when there is no `/`.
pub open spec fn spec_remote_parent(path: Seq<char>) -> Option<Seq<char>> {
    match last_index_of(path, '/') {
        Some(i) => Some(if i == 0 { seq!['/'] } else { path.take(i) }),
        None => None,
    }
}

/// The directory part of a remote path.
pub fn remote_parent(path: &str) -> (r: Option<String>)
    ensures
        match spec_remote_parent(path@) {
            Some(p) => r matches Some(s) && s@ == p,
            None => r is None,
        },
{
    let v = chars_of(path);
    match last_index_exec(&v, '/') {
        Some(i) => {
            if i == 0 {
                let mut one: Vec<char> = Vec::new();
                one.push('/');
                assert(one@ =~= seq!['/']);
                Some(string_from_chars(&one))
            } else {
                let head = crate::text::chars_slice(&v, 0, i);
                assert(head@ == v@.take(i as int));
                Some(string_from_chars(&head))
            }
        },
        None => None,
    }
}

/// The last component of a remote path (after normalizing it and dropping trailing `/`);
/// `None` for the root or an empty path.
pub open spec fn spec_basename_remote(path: Seq<char>) -> Option<Seq<char>> {
    let t = trim_end_char(spec_normalize_remote_path(path), '/');
    if t.len() == 0 {
        None
    } else {
        match last_index_of(t, '/') {
            Some(i) => Some(t.skip(i + 1)),
            None => Some(t),
        }
    }
}

/// The last component of a remote path.
pub fn basename_remote(path: &str) -> (r: Option<String>)
    ensures
        match spec_basename_remote(path@) {
            Some(b) => r matches Some(s) && s@ == b,
            None => r is None,
        },
{
    let t = trim_end_char_exec(&normalize_chars(path), '/');
    if t.len() == 0 {
        return None;
    }
    match last_index_exec(&t, '/') {
        Some(i) => {
            let tail = crate::text::chars_slice(&t, i + 1, t.len());
            assert(tail@ == t@.skip(i + 1));
            Some(string_from_chars(&tail))
        },
        None => Some(string_from_chars(&t)),
    }
}

/// A plain file or directory name: not empty, without `/`, `\\` or whitespace.
pub open spec fn plain_name(c: Seq<char>) -> bool {
    &&& c.len() > 0
    &&& forall|i: int| 0 <= i < c.len() ==> (#[trigger] c[i]) != '/' && c[i] != '\\' && !spec_is_whitespace(c[i])
}

/// The directory that `remote_join` puts a name in: the normalized base without trailing
/// `/`, or `/` when nothing is left of it.
pub open spec fn join_dir(base: Seq<char>) -> Seq<char> {
    let d = trim_end_char(spec_normalize_remote_path(base), '/');
    if d.len() == 0 {
        seq!['/']
    } else {
        d
    }
}

proof fn lemma_trim_unchanged(s: Seq<char>)
    requires
        s.len() > 0,
        !spec_is_whitespace(s[0]),
        !spec_is_whitespace(s.last()),
    ensures
        trim(s) == s,
{
}

proof fn lemma_trim_end_char_prefix(s: Seq<char>, ch: char)
    ensures
        trim_end_char(s, ch).len() <= s.len(),
        trim_end_char(s, ch) == s.take(trim_end_char(s, ch).len() as int),
    decreases s.len(),
{
    if s.len() > 0 && s.last() == ch {
        lemma_trim_end_char_prefix(s.drop_last(), ch);
        let t = trim_end_char(s.drop_last(), ch);
        assert(s.drop_last().take(t.len() as int) =~= s.take(t.len() as int));
    } else {
        assert(s.take(s.len() as int) =~= s);
    }
}

proof fn lemma_last_index_past(s: Seq<char>, c: Seq<char>, ch: char)
    requires
        forall|i: int| 0 <= i < c.len() ==> (#[trigger] c[i]) != ch,
    ensures
        last_index_of(s + c, ch) == last_index_of(s, ch),
    decreases c.len(),
{
    if c.len() > 0 {
        assert((s + c).drop_last() =~= s + c.drop_last());
        assert((s + c).last() == c.last());
        lemma_last_index_past(s, c.drop_last(), ch);
    } else {
        assert(s + c =~= s);
    }
}

/// Joining a plain name onto a directory and taking the path apart again gives the name back
/// as the last component, and the directory it was put in (the normalized base without
/// trailing `/`) as the parent.
pub proof fn lemma_join_then_split(base: Seq<char>, c: Seq<char>)
    requires
        plain_name(c),
    ensures
        spec_basename_remote(spec_remote_join(base, c)) == Some(c),
        spec_remote_parent(spec_remote_join(base, c)) == Some(join_dir(base)),
{
    let b = spec_normalize_remote_path(base);
    let t = forward_slashes(trim(base));
    assert(trim_start_char(c, '/') == c);
    assert(trim_end_char(c, '/') == c);
    let pre: Seq<char> = if b == seq!['/'] { Seq::empty() } else { trim_end_char(b, '/') };
    let j = spec_remote_join(base, c);
    assert(j =~= pre.push('/') + c);
    // The directory part holds no backslash.
    assert forall|i: int| 0 <= i < b.len() implies (#[trigger] b[i]) != '\\' by {
        if t.len() > 0 {
            assert(b[i] == (if trim(base)[i] == '\\' { '/' } else { trim(base)[i] }));
        }
    }
    lemma_trim_end_char_prefix(b, '/');
    assert forall|i: int| 0 <= i < pre.len() implies (#[trigger] pre[i]) != '\\' by {
        if b != seq!['/'] {
            assert(pre[i] == b[i]);
        }
    }
    assert forall|i: int| 0 <= i < j.len() implies (#[trigger] j[i]) != '\\' by {
        if i < pre.len() {
            assert(j[i] == pre[i]);
        } else if i == pre.len() {
            assert(j[i] == '/');
        } else {
            assert(j[i] == c[i - pre.len() - 1]);
        }
    }
    // The joined path is already normalized.
    assert(j.last() == c.last());
    assert(!spec_is_whitespace(c[c.len() - 1]));
    if pre.len() > 0 {
        assert(b != seq!['/']);
        assert(t.len() > 0);
        assert(pre[0] == b[0]);
        crate::text::lemma_trim_shape(base);
        assert(b[0] == (if trim(base)[0] == '\\' { '/' } else { trim(base)[0] }));
        assert(!spec_is_whitespace(j[0]));
    } else {
        assert(j[0] == '/');
    }
    lemma_trim_unchanged(j);
    assert(forward_slashes(j) =~= j);
    assert(spec_normalize_remote_path(j) == j);
    assert(trim_end_char(j, '/') == j);
    // Its last `/` is the one put before the name.
    lemma_last_index_past(pre.push('/'), c, '/');
    assert(last_index_of(pre.push('/'), '/') == Some(pre.len() as int));
    assert(last_index_of(j, '/') == Some(pre.len() as int));
    assert(j.skip(pre.len() as int + 1) =~= c);
    assert(j.take(pre.len() as int) =~= pre);
    if b == seq!['/'] {
        assert(trim_end_char(b, '/') == trim_end_char(Seq::<char>::empty(), '/')) by {
            assert(b.drop_last() =~= Seq::<char>::empty());
        }
    }
}

/// Whether SFTP permission bits say "directory" (file type `0o040000`).
pub fn is_remote_dir(perm: Option<u32>) -> (r: bool)
    ensures
        r == match perm {
            Some(p) => p & 0o170000u32 == 0o040000u32,
            None => false,
        },
{
    match perm {
        Some(p) => p & 0o170000u32 == 0o040000u32,
        None => false,
    }
}

/// Whether SFTP permission bits say "regular file" (file type `0o100000`).
pub fn is_remote_file(perm: Option<u32>) -> (r: bool)
    ensures
        r == match perm {
            Some(p) => p & 0o170000u32 == 0o100000u32,
            None => false,
        },
{
    match perm {
        Some(p) => p & 0o170000u32 == 0o100000u32,
        None => false,
    }
}

/// How many workers a transfer of `items` files uses on a machine with `cpus` processors:
/// one per processor, no more than there are files, and at least one.
pub fn transfer_worker_count(cpus: usize, items: usize) -> (r: usize)
    ensures
        r == (if cpus < items { if cpus == 0 { 1 } else { cpus } } else if items == 0 { 1 } else { items }),
        r >= 1,
{
    let cpu = if cpus == 0 { 1 } else { cpus };
    let w = if cpu < items { cpu } else { items };
    if w == 0 { 1 } else { w }
}

/// The pieces of `s` between slashes (an empty text gives one empty piece).
pub open spec fn slash_pieces(s: Seq<char>) -> Seq<Seq<char>>
    decreases s.len(),
{
    if s.len() == 0 {
        seq![Seq::empty()]
    } else {
        let prev = slash_pieces(s.drop_last());
        if s.last() == '/' {
            prev.push(Seq::empty())
        } else {
            prev.update(prev.len() - 1, prev.last().push(s.last()))
        }
    }
}

/// The directories from the top down to the path whose non-empty components are `parts`, each
/// as a path that starts with `lead`.
pub open spec fn dir_prefixes(lead: Seq<char>, parts: Seq<Seq<char>>) -> Seq<Seq<char>>
    decreases parts.len(),
{
    if parts.len() == 0 {
        Seq::empty()
    } else {
        let prev = dir_prefixes(lead, parts.drop_last());
        let base = if prev.len() == 0 {
            lead
        } else {
            prev.last() + seq!['/']
        };
        prev.push(base + parts.last())
    }
}

/// The non-empty pieces.
pub open spec fn non_empty(ps: Seq<Seq<char>>) -> Seq<Seq<char>>
    decreases ps.len(),
{
    if ps.len() == 0 {
        ps
    } else if ps.last().len() > 0 {
        non_empty(ps.drop_last()).push(ps.last())
    } else {
        non_empty(ps.drop_last())
    }
}

/// The remote directories to make, from the top down, so that `remote_dir` exists: none for
/// the root; else one per component of the normalized path, absolute where it starts with `/`.
pub open spec fn spec_remote_dir_prefixes(remote_dir: Seq<char>) -> Seq<Seq<char>> {
    let n = spec_normalize_remote_path(remote_dir);
    if n == seq!['/'] {
        Seq::empty()
    } else {
        dir_prefixes(
            if n[0] == '/' {
                seq!['/']
            } else {
                Seq::empty()
            },
            non_empty(slash_pieces(n)),
        )
    }
}

/// Adds the component `part` to the path `current` and records the result in `out`.
fn descend(current: &mut Vec<char>, part: &Vec<char>, out: &mut Vec<String>, ghost_lead: Ghost<Seq<char>>, ghost_parts: Ghost<Seq<Seq<char>>>)
    requires
        part@.len() > 0,
        texts(old(out)@) == dir_prefixes(ghost_lead@, ghost_parts@),
        ghost_lead@ == seq!['/'] || ghost_lead@.len() == 0,
        texts(old(out)@).len() == 0 ==> old(current)@ == ghost_lead@,
        texts(old(out)@).len() > 0 ==> old(current)@ == texts(old(out)@).last() && old(current)@.len() > 0
            && old(current)@.last() != '/',
        forall|q: int| 0 <= q < part@.len() ==> part@[q] != '/',
    ensures
        texts(final(out)@) == dir_prefixes(ghost_lead@, ghost_parts@.push(part@)),
        final(current)@ == texts(final(out)@).last(),
        final(current)@.len() > 0,
        final(current)@.last() != '/',
{
    let ghost prev = texts(out@);
    if current.len() > 0 && current[current.len() - 1] != '/' {
        current.push('/');
    }
    let mut k: usize = 0;
    let ghost head = current@;
    while k < part.len()
        invariant
            k <= part.len(),
            current@ == head + part@.take(k as int),
        decreases part.len() - k,
    {
        current.push(part[k]);
        assert(part@.take(k + 1) == part@.take(k as int).push(part@[k as int]));
        k += 1;
    }
    assert(part@.take(part@.len() as int) == part@);
    assert(ghost_parts@.push(part@).drop_last() =~= ghost_parts@);
    assert(ghost_parts@.push(part@).last() == part@);
    assert(current@ == head + part@);
    assert(current@.last() == part@.last());
    assert(head == (if prev.len() == 0 {
        ghost_lead@
    } else {
        prev.last() + seq!['/']
    }));
    assert(dir_prefixes(ghost_lead@, ghost_parts@.push(part@)) == prev.push(head + part@));
    let ghost before = texts(out@);
    out.push(string_from_chars(current));
    assert(texts(out@) =~= before.push(current@));
}

/// The remote directories to make, from the top down, so that `remote_dir` exists.
pub fn remote_dir_prefixes(remote_dir: &str) -> (out: Vec<String>)
    ensures
        texts(out@) == spec_remote_dir_prefixes(remote_dir@),
{
    let n = normalize_chars(remote_dir);
    if n.len() == 1 && n[0] == '/' {
        assert(n@ =~= seq!['/']);
        return Vec::new();
    }
    proof {
        if n@ == seq!['/'] {
            assert(n@.len() == 1 && n@[0] == '/');
        }
    }
    let ghost lead: Seq<char> = if n@[0] == '/' {
        seq!['/']
    } else {
        Seq::empty()
    };
    let mut current: Vec<char> = Vec::new();
    if n[0] == '/' {
        current.push('/');
    }
    let mut out: Vec<String> = Vec::new();
    let mut part: Vec<char> = Vec::new();
    let mut i: usize = 0;
    assert(n@.take(0) =~= Seq::<char>::empty());
    while i < n.len()
        invariant
            i <= n.len(),
            n@.len() > 0,
            lead == (if n@[0] == '/' {
                seq!['/']
            } else {
                Seq::<char>::empty()
            }),
            slash_pieces(n@.take(i as int)).len() >= 1,
            part@ == slash_pieces(n@.take(i as int)).last(),
            forall|q: int| 0 <= q < part@.len() ==> part@[q] != '/',
            texts(out@) == dir_prefixes(lead, non_empty(slash_pieces(n@.take(i as int)).drop_last())),
            texts(out@).len() == 0 ==> current@ == lead,
            texts(out@).len() > 0 ==> current@ == texts(out@).last() && current@.len() > 0 && current@.last() != '/',
        decreases n.len() - i,
    {
        let ghost ps = slash_pieces(n@.take(i as int));
        assert(n@.take(i + 1).drop_last() == n@.take(i as int));
        assert(n@.take(i + 1).last() == n@[i as int]);
        if n[i] == '/' {
            assert(slash_pieces(n@.take(i + 1)) == ps.push(Seq::empty()));
            assert(slash_pieces(n@.take(i + 1)).drop_last() == ps);
            assert(ps.drop_last().push(ps.last()) == ps);
            if part.len() > 0 {
                assert(non_empty(ps) == non_empty(ps.drop_last()).push(part@));
                descend(&mut current, &part, &mut out, Ghost(lead), Ghost(non_empty(ps.drop_last())));
            } else {
                assert(non_empty(ps) == non_empty(ps.drop_last()));
            }
            part = Vec::new();
        } else {
            part.push(n[i]);
            assert(slash_pieces(n@.take(i + 1)).drop_last() =~= ps.drop_last());
        }
        i += 1;
    }
    assert(n@.take(n.len() as int) == n@);
    let ghost ps = slash_pieces(n@);
    assert(ps.drop_last().push(ps.last()) == ps);
    if part.len() > 0 {
        assert(non_empty(ps) == non_empty(ps.drop_last()).push(part@));
        descend(&mut current, &part, &mut out, Ghost(lead), Ghost(non_empty(ps.drop_last())));
    } else {
        assert(non_empty(ps) == non_empty(ps.drop_last()));
    }
    out
}

/// The path of a file found under the remote directory `root` relative to it, without leading
/// slashes: the part of `entry` after `root`, or `name` where `entry` does not start with
/// `root`.
pub open spec fn spec_remote_relative_path(entry: Seq<char>, root: Seq<char>, name: Seq<char>) -> Seq<char> {
    trim_start_char(
        if has_prefix(entry, root) {
            entry.skip(root.len() as int)
        } else {
            name
        },
        '/',
    )
}

/// The path of a file found under the remote directory `root` relative to it.
pub fn remote_relative_path(entry: &str, root: &str, name: &str) -> (r: String)
    ensures
        r@ == spec_remote_relative_path(entry@, root@, name@),
{
    let e = chars_of(entry);
    let rt = chars_of(root);
    let rel = if chars_have_prefix(&e, &rt) {
        chars_slice(&e, rt.len(), e.len())
    } else {
        chars_of(name)
    };
    proof {
        if has_prefix(e@, rt@) {
            assert(e@.subrange(rt@.len() as int, e@.len() as int) == e@.skip(rt@.len() as int));
        }
    }
    string_from_chars(&trim_start_char_exec(&rel, '/'))
}

/// Whether a directory listing entry is the directory itself or its parent.
pub fn is_dot_entry(name: &str) -> (r: bool)
    ensures
        r == (name@ == "."@ || name@ == ".."@),
{
    crate::text::same_text(name, ".") || crate::text::same_text(name, "..")
}

} // verus!
