use vstd::prelude::*;

use crate::services::config::{join_path, join_path_str};
use crate::text::{
    chars_eq_ignore_ascii_case, chars_have_suffix, chars_of, eq_ignore_ascii_case, has_suffix,
    texts, texts_contain,
};

verus! {

/// The key file names looked for first, in order of preference.
pub open spec fn preferred_key_names() -> Seq<Seq<char>> {
    seq!["id_ed25519"@, "id_rsa"@, "id_ecdsa"@]
}

/// Preferred key file name `i`.
pub fn preferred_key_name(i: usize) -> (name: &'static str)
    requires
        i < 3,
    ensures
        name@ == preferred_key_names()[i as int],
{
    if i == 0 {
        "id_ed25519"
    } else if i == 1 {
        "id_rsa"
    } else {
        "id_ecdsa"
    }
}

/// The most preferred key file name among the regular files `files`.
pub open spec fn default_key_name(files: Seq<Seq<char>>) -> Option<Seq<char>> {
    let names = preferred_key_names();
    if files.contains(names[0]) {
        Some(names[0])
    } else if files.contains(names[1]) {
        Some(names[1])
    } else if files.contains(names[2]) {
        Some(names[2])
    } else {
        None
    }
}

/// The default private key path: the most preferred key file of the ssh directory `dir` that
/// is a regular file, or the empty text when there is no directory or no such file.
pub open spec fn spec_default_key_path(dir: Option<Seq<char>>, files: Seq<Seq<char>>) -> Seq<char> {
    match dir {
        Some(d) => match default_key_name(files) {
            Some(n) => join_path(d, n),
            None => Seq::empty(),
        },
        None => Seq::empty(),
    }
}

/// The default private key path, from the ssh directory `ssh_dir` (none where the home
/// directory is unknown) and the names in it that are regular files.
pub fn default_key_path(ssh_dir: Option<&str>, key_files: &Vec<String>) -> (p: String)
    ensures
        p@ == spec_default_key_path(
            match ssh_dir {
                Some(d) => Some(d@),
                None => None,
            },
            texts(key_files@),
        ),
{
    match ssh_dir {
        None => String::new(),
        Some(dir) => {
            let mut i: usize = 0;
            while i < 3
                invariant
                    i <= 3,
                    ssh_dir == Some(dir),
                    forall|j: int| 0 <= j < i ==> !texts(key_files@).contains(#[trigger] preferred_key_names()[j]),
                decreases 3 - i,
            {
                let name = preferred_key_name(i);
                if texts_contain(key_files, name) {
                    proof {
                        let names = preferred_key_names();
                        if i >= 1 {
                            assert(!texts(key_files@).contains(names[0]));
                        }
                        if i >= 2 {
                            assert(!texts(key_files@).contains(names[1]));
                        }
                    }
                    return join_path_str(dir, name);
                }
                i += 1;
            }
            proof {
                let names = preferred_key_names();
                assert(!texts(key_files@).contains(names[0]));
                assert(!texts(key_files@).contains(names[1]));
                assert(!texts(key_files@).contains(names[2]));
            }
            String::new()
        },
    }
}

/// Whether a file of the ssh directory is no private key: public keys, known hosts, the client
/// configuration and the authorized keys (these names compared without ASCII case).
pub open spec fn not_a_key(name: Seq<char>) -> bool {
    ||| has_suffix(name, ".pub"@)
    ||| eq_ignore_ascii_case(name, "known_hosts"@)
    ||| eq_ignore_ascii_case(name, "known_hosts.old"@)
    ||| eq_ignore_ascii_case(name, "config"@)
    ||| eq_ignore_ascii_case(name, "authorized_keys"@)
}

fn is_not_a_key(name: &str) -> (r: bool)
    ensures
        r == not_a_key(name@),
{
    let n = chars_of(name);
    chars_have_suffix(&n, &chars_of(".pub")) || chars_eq_ignore_ascii_case(&n, &chars_of("known_hosts"))
        || chars_eq_ignore_ascii_case(&n, &chars_of("known_hosts.old"))
        || chars_eq_ignore_ascii_case(&n, &chars_of("config"))
        || chars_eq_ignore_ascii_case(&n, &chars_of("authorized_keys"))
}

/// The preferred key files present in `d`, in order of preference, as paths.
pub open spec fn preferred_keys_found(d: Seq<char>, files: Seq<Seq<char>>, k: int) -> Seq<Seq<char>>
    decreases k,
{
    if k <= 0 {
        Seq::empty()
    } else {
        let prev = preferred_keys_found(d, files, k - 1);
        let name = preferred_key_names()[k - 1];
        if files.contains(name) {
            prev.push(join_path(d, name))
        } else {
            prev
        }
    }
}

/// The candidate private keys of the ssh directory `d`: the preferred key files that are
/// regular files, in order of preference, then the directory's other regular files in listing
/// order, leaving out those that are no private key and paths already taken.
pub open spec fn discovered_keys(d: Seq<char>, files: Seq<Seq<char>>, listing: Seq<Seq<char>>) -> Seq<Seq<char>>
    decreases listing.len(),
{
    if listing.len() == 0 {
        preferred_keys_found(d, files, 3)
    } else {
        let prev = discovered_keys(d, files, listing.drop_last());
        let name = listing.last();
        if not_a_key(name) || prev.contains(join_path(d, name)) {
            prev
        } else {
            prev.push(join_path(d, name))
        }
    }
}

/// The candidate private key paths of the ssh directory `ssh_dir` (none where the home
/// directory is unknown), given the preferred names that are regular files there and the
/// directory's regular files in listing order (empty where it cannot be read).
pub fn discover_private_key_paths(ssh_dir: Option<&str>, key_files: &Vec<String>, listing: &Vec<String>) -> (out: Vec<String>)
    ensures
        texts(out@) == (match ssh_dir {
            Some(d) => discovered_keys(d@, texts(key_files@), texts(listing@)),
            None => Seq::empty(),
        }),
{
    let dir = match ssh_dir {
        None => {
            return Vec::new();
        },
        Some(d) => d,
    };
    let ghost files = texts(key_files@);
    let mut out: Vec<String> = Vec::new();
    let mut i: usize = 0;
    while i < 3
        invariant
            i <= 3,
            files == texts(key_files@),
            texts(out@) == preferred_keys_found(dir@, files, i as int),
        decreases 3 - i,
    {
        let name = preferred_key_name(i);
        if texts_contain(key_files, name) {
            out.push(join_path_str(dir, name));
        }
        i += 1;
        assert(texts(out@) =~= preferred_keys_found(dir@, files, i as int));
    }
    let ghost lv = texts(listing@);
    let mut k: usize = 0;
    while k < listing.len()
        invariant
            k <= listing.len(),
            files == texts(key_files@),
            lv == texts(listing@),
            texts(out@) == discovered_keys(dir@, files, lv.take(k as int)),
        decreases listing.len() - k,
    {
        assert(lv.take(k + 1).drop_last() == lv.take(k as int));
        let name = listing[k].as_str();
        if !is_not_a_key(name) {
            let path = join_path_str(dir, name);
            if !texts_contain(&out, path.as_str()) {
                out.push(path);
            }
        }
        k += 1;
        assert(texts(out@) =~= discovered_keys(dir@, files, lv.take(k as int)));
    }
    assert(lv.take(listing.len() as int) == lv);
    out
}

/// No path occurs twice.
pub open spec fn distinct_paths(s: Seq<Seq<char>>) -> bool {
    forall|i: int, j: int| 0 <= i < j < s.len() ==> s[i] != s[j]
}

/// Two names joined to the same directory give the same path only when they are the same.
proof fn lemma_join_path_injective(d: Seq<char>, a: Seq<char>, b: Seq<char>)
    requires
        join_path(d, a) == join_path(d, b),
    ensures
        a == b,
{
    let pre = if d.len() == 0 || d.last() == '/' || d.last() == '\\' { d } else { d + seq!['/'] };
    assert(join_path(d, a) =~= pre + a);
    assert(join_path(d, b) =~= pre + b);
    assert((pre + a).skip(pre.len() as int) =~= a);
    assert((pre + b).skip(pre.len() as int) =~= b);
}

proof fn lemma_preferred_keys_found(d: Seq<char>, files: Seq<Seq<char>>, k: int)
    requires
        0 <= k <= 3,
    ensures
        distinct_paths(preferred_keys_found(d, files, k)),
        forall|i: int| 0 <= i < k && files.contains(preferred_key_names()[i]) ==> preferred_keys_found(d, files, k).contains(
            join_path(d, #[trigger] preferred_key_names()[i]),
        ),
        forall|p: Seq<char>| #[trigger] preferred_keys_found(d, files, k).contains(p) ==> exists|i: int|
            0 <= i < k && files.contains(#[trigger] preferred_key_names()[i]) && p == join_path(d, preferred_key_names()[i]),
    decreases k,
{
    reveal_strlit("id_ed25519");
    reveal_strlit("id_rsa");
    reveal_strlit("id_ecdsa");
    let names = preferred_key_names();
    assert(names[0].len() == 10 && names[1].len() == 6 && names[2].len() == 8);
    if k > 0 {
        lemma_preferred_keys_found(d, files, k - 1);
        let prev = preferred_keys_found(d, files, k - 1);
        let name = names[k - 1];
        let cur = preferred_keys_found(d, files, k);
        if files.contains(name) {
            assert(cur == prev.push(join_path(d, name)));
            assert forall|j: int| 0 <= j < prev.len() implies prev[j] != join_path(d, name) by {
                if prev[j] == join_path(d, name) {
                    assert(prev.contains(prev[j]));
                    let i = choose|i: int|
                        0 <= i < k - 1 && files.contains(#[trigger] names[i]) && prev[j] == join_path(d, names[i]);
                    lemma_join_path_injective(d, names[i], name);
                }
            }
            assert forall|i: int| 0 <= i < k && files.contains(names[i]) implies cur.contains(
                join_path(d, #[trigger] names[i]),
            ) by {
                if i < k - 1 {
                    let q = choose|q: int| 0 <= q < prev.len() && prev[q] == join_path(d, names[i]);
                    assert(cur[q] == prev[q]);
                } else {
                    assert(cur[prev.len() as int] == join_path(d, name));
                }
            }
            assert forall|p: Seq<char>| #[trigger] cur.contains(p) implies exists|i: int|
                0 <= i < k && files.contains(#[trigger] names[i]) && p == join_path(d, names[i]) by {
                let q = choose|q: int| 0 <= q < cur.len() && cur[q] == p;
                if q < prev.len() {
                    assert(prev[q] == p);
                    assert(prev.contains(p));
                } else {
                    assert(p == join_path(d, names[k - 1]));
                }
            }
        }
    }
}

/// The keys tried from the ssh directory: each path once; every preferred key file that is
/// there and every other listed file that may be a private key is among them; and each of
/// them is one of those.
pub proof fn lemma_discovered_keys(d: Seq<char>, files: Seq<Seq<char>>, listing: Seq<Seq<char>>)
    ensures
        distinct_paths(discovered_keys(d, files, listing)),
        forall|i: int| 0 <= i < 3 && files.contains(preferred_key_names()[i]) ==> discovered_keys(d, files, listing).contains(
            join_path(d, #[trigger] preferred_key_names()[i]),
        ),
        forall|k: int| 0 <= k < listing.len() && !not_a_key(listing[k]) ==> discovered_keys(d, files, listing).contains(
            join_path(d, #[trigger] listing[k]),
        ),
        forall|p: Seq<char>| #[trigger] discovered_keys(d, files, listing).contains(p) ==> (exists|i: int|
            0 <= i < 3 && files.contains(#[trigger] preferred_key_names()[i]) && p == join_path(d, preferred_key_names()[i]))
            || (exists|k: int| 0 <= k < listing.len() && !not_a_key(#[trigger] listing[k]) && p == join_path(d, listing[k])),
    decreases listing.len(),
{
    let names = preferred_key_names();
    if listing.len() == 0 {
        lemma_preferred_keys_found(d, files, 3);
    } else {
        let rest = listing.drop_last();
        lemma_discovered_keys(d, files, rest);
        let prev = discovered_keys(d, files, rest);
        let cur = discovered_keys(d, files, listing);
        let name = listing.last();
        let added = !(not_a_key(name) || prev.contains(join_path(d, name)));
        if added {
            assert(cur == prev.push(join_path(d, name)));
        } else {
            assert(cur == prev);
        }
        assert forall|i: int| 0 <= i < 3 && files.contains(names[i]) implies cur.contains(join_path(d, #[trigger] names[i])) by {
            let q = choose|q: int| 0 <= q < prev.len() && prev[q] == join_path(d, names[i]);
            if added {
                assert(cur[q] == prev[q]);
            }
        }
        assert forall|k: int| 0 <= k < listing.len() && !not_a_key(listing[k]) implies cur.contains(
            join_path(d, #[trigger] listing[k]),
        ) by {
            if k < rest.len() {
                assert(rest[k] == listing[k]);
                let q = choose|q: int| 0 <= q < prev.len() && prev[q] == join_path(d, rest[k]);
                if added {
                    assert(cur[q] == prev[q]);
                }
            } else {
                assert(listing[k] == name);
                if added {
                    assert(cur[prev.len() as int] == join_path(d, name));
                }
            }
        }
        assert forall|p: Seq<char>| #[trigger] cur.contains(p) implies (exists|i: int|
            0 <= i < 3 && files.contains(#[trigger] names[i]) && p == join_path(d, names[i])) || (exists|k: int|
            0 <= k < listing.len() && !not_a_key(#[trigger] listing[k]) && p == join_path(d, listing[k])) by {
            let q = choose|q: int| 0 <= q < cur.len() && cur[q] == p;
            if q < prev.len() {
                assert(prev[q] == p);
                assert(prev.contains(p));
                if exists|k: int| 0 <= k < rest.len() && !not_a_key(#[trigger] rest[k]) && p == join_path(d, rest[k]) {
                    let k = choose|k: int| 0 <= k < rest.len() && !not_a_key(#[trigger] rest[k]) && p == join_path(d, rest[k]);
                    assert(listing[k] == rest[k]);
                }
            } else {
                assert(p == join_path(d, name));
                assert(listing[listing.len() - 1] == name);
            }
        }
    }
}

} // verus!
