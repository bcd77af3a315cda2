use vstd::prelude::*;

use crate::text::{chars_of, chars_occur_at, occurs_at, same_text, string_from_chars};

verus! {

/// The user-interface texts, by key.
pub struct Messages {
    values: Vec<(String, String)>,
}

/// The text for `key` in `entries` (the first entry with that key), if any.
pub open spec fn lookup(entries: Seq<(Seq<char>, Seq<char>)>, key: Seq<char>) -> Option<Seq<char>>
    decreases entries.len(),
{
    if entries.len() == 0 {
        None
    } else if entries[0].0 == key {
        Some(entries[0].1)
    } else {
        lookup(entries.drop_first(), key)
    }
}

/// `s` with every occurrence of the non-empty `pat`, taken left to right without overlap,
/// replaced by `rep`: what `str::replace` gives.
pub open spec fn replace_all(s: Seq<char>, pat: Seq<char>, rep: Seq<char>) -> Seq<char>
    decreases s.len(),
{
    if pat.len() == 0 || s.len() == 0 {
        s
    } else if occurs_at(s, pat, 0) {
        rep + replace_all(s.skip(pat.len() as int), pat, rep)
    } else {
        seq![s[0]] + replace_all(s.drop_first(), pat, rep)
    }
}

/// The placeholder `{name}`.
pub open spec fn placeholder(name: Seq<char>) -> Seq<char> {
    seq!['{'] + name + seq!['}']
}

/// `text` with each placeholder of `args` replaced in turn by its value.
pub open spec fn fill(text: Seq<char>, args: Seq<(Seq<char>, Seq<char>)>) -> Seq<char>
    decreases args.len(),
{
    if args.len() == 0 {
        text
    } else {
        fill(replace_all(text, placeholder(args[0].0), args[0].1), args.drop_first())
    }
}

/// Whether no key occurs twice.
pub open spec fn distinct_keys(entries: Seq<(Seq<char>, Seq<char>)>) -> bool {
    forall|i: int, j: int| 0 <= i < j < entries.len() ==> entries[i].0 != entries[j].0
}

/// The key/text pairs that `serde_json` reads from `raw` as a JSON object of strings, in
/// key order; `None` where `raw` is not such an object.
pub uninterp spec fn json_string_map(raw: Seq<char>) -> Option<Seq<(Seq<char>, Seq<char>)>>;

/// Reads `raw` with `serde_json::from_str` as a map from strings to strings. The map is a
/// `BTreeMap`, whose keys are distinct and which hands its entries out in key order.
#[verifier::external_body]
fn parse_json_string_map(raw: &str) -> (r: Option<Vec<(String, String)>>)
    ensures
        match r {
            Some(v) => json_string_map(raw@) == Some(v@.map_values(|e: (String, String)| (e.0@, e.1@))),
            None => json_string_map(raw@) is None,
        },
        r matches Some(v) ==> distinct_keys(v@.map_values(|e: (String, String)| (e.0@, e.1@))),
{
    let parsed: std::collections::BTreeMap<String, String> = serde_json::from_str(raw).ok()?;
    Some(parsed.into_iter().collect())
}

impl Messages {
    /// The key/text pairs.
    pub closed spec fn entries(&self) -> Seq<(Seq<char>, Seq<char>)> {
        self.values@.map_values(|e: (String, String)| (e.0@, e.1@))
    }

    /// No texts at all: every key stands for itself.
    pub fn new() -> (m: Messages)
        ensures
            m.entries() == Seq::<(Seq<char>, Seq<char>)>::empty(),
    {
        let m = Messages { values: Vec::new() };
        assert(m.entries() =~= Seq::<(Seq<char>, Seq<char>)>::empty());
        m
    }

    /// The texts of a JSON object of strings, or `None` if `raw` is not one.
    pub fn from_json(raw: &str) -> (m: Option<Messages>)
        ensures
            match json_string_map(raw@) {
                Some(e) => m matches Some(m) && m.entries() == e,
                None => m is None,
            },
    {
        match parse_json_string_map(raw) {
            Some(values) => Some(Messages { values }),
            None => None,
        }
    }

    /// The texts of the first of `candidates` that is a JSON object of strings; else those of
    /// `embedded`; else none. `candidates` are the contents, in order, of the message files
    /// that could be read.
    pub fn load(candidates: &Vec<String>, embedded: &str) -> (m: Messages)
        ensures
            m.entries() == first_loadable(candidates@.map_values(|c: String| c@), embedded@),
    {
        let ghost cs = candidates@.map_values(|c: String| c@);
        let mut i: usize = 0;
        assert(cs.skip(0) == cs);
        while i < candidates.len()
            invariant
                i <= candidates.len(),
                cs == candidates@.map_values(|c: String| c@),
                first_loadable(cs, embedded@) == first_loadable(cs.skip(i as int), embedded@),
            decreases candidates.len() - i,
        {
            assert(cs.skip(i as int)[0] == candidates@[i as int]@);
            assert(cs.skip(i as int).drop_first() == cs.skip(i + 1));
            if let Some(m) = Self::from_json(candidates[i].as_str()) {
                return m;
            }
            i += 1;
        }
        match Self::from_json(embedded) {
            Some(m) => m,
            None => Self::new(),
        }
    }

    /// The text for `key`, or `key` itself when there is none.
    pub fn get(&self, key: &str) -> (text: String)
        ensures
            text@ == match lookup(self.entries(), key@) {
                Some(t) => t,
                None => key@,
            },
    {
        let mut i: usize = 0;
        assert(self.entries().skip(0) == self.entries());
        while i < self.values.len()
            invariant
                i <= self.values.len(),
                lookup(self.entries(), key@) == lookup(self.entries().skip(i as int), key@),
            decreases self.values.len() - i,
        {
            assert(self.entries().skip(i as int)[0] == (self.values@[i as int].0@, self.values@[i as int].1@));
            assert(self.entries().skip(i as int).drop_first() == self.entries().skip(i + 1));
            if same_text(self.values[i].0.as_str(), key) {
                return self.values[i].1.clone();
            }
            i += 1;
        }
        string_from_chars(&chars_of(key))
    }

    /// The text for `key` with each `{name}` of `args` replaced by its value, in the order of
    /// `args`.
    pub fn format(&self, key: &str, args: &[(&str, &str)]) -> (text: String)
        ensures
            text@ == fill(
                match lookup(self.entries(), key@) {
                    Some(t) => t,
                    None => key@,
                },
                args@.map_values(|a: (&str, &str)| (a.0@, a.1@)),
            ),
    {
        let ghost aseq = args@.map_values(|a: (&str, &str)| (a.0@, a.1@));
        let mut out = chars_of(self.get(key).as_str());
        let mut i: usize = 0;
        assert(aseq.skip(0) == aseq);
        while i < args.len()
            invariant
                i <= args@.len(),
                aseq == args@.map_values(|a: (&str, &str)| (a.0@, a.1@)),
                fill(out@, aseq.skip(i as int)) == fill(
                    match lookup(self.entries(), key@) {
                        Some(t) => t,
                        None => key@,
                    },
                    aseq,
                ),
            decreases args@.len() - i,
        {
            let (name, value) = args[i];
            let mut pat: Vec<char> = Vec::new();
            pat.push('{');
            let name_chars = chars_of(name);
            let mut k: usize = 0;
            while k < name_chars.len()
                invariant
                    k <= name_chars.len(),
                    pat@ == seq!['{'] + name_chars@.take(k as int),
                decreases name_chars.len() - k,
            {
                pat.push(name_chars[k]);
                assert(name_chars@.take(k + 1) == name_chars@.take(k as int).push(name_chars@[k as int]));
                k += 1;
            }
            pat.push('}');
            assert(name_chars@.take(name_chars.len() as int) == name_chars@);
            assert(pat@ == placeholder(name@));
            let rep = chars_of(value);
            out = replace_chars(&out, &pat, &rep);
            assert(aseq.skip(i as int)[0] == (name@, value@));
            assert(aseq.skip(i as int).drop_first() == aseq.skip(i + 1));
            i += 1;
        }
        string_from_chars(&out)
    }
}

/// The entries that `Messages::load` settles on.
pub open spec fn first_loadable(candidates: Seq<Seq<char>>, embedded: Seq<char>) -> Seq<(Seq<char>, Seq<char>)>
    decreases candidates.len(),
{
    if candidates.len() == 0 {
        match json_string_map(embedded) {
            Some(e) => e,
            None => Seq::empty(),
        }
    } else {
        match json_string_map(candidates[0]) {
            Some(e) => e,
            None => first_loadable(candidates.drop_first(), embedded),
        }
    }
}

/// `s` with each occurrence of the non-empty `pat`, left to right, replaced by `rep`.
fn replace_chars(s: &Vec<char>, pat: &Vec<char>, rep: &Vec<char>) -> (out: Vec<char>)
    requires
        pat@.len() > 0,
    ensures
        out@ == replace_all(s@, pat@, rep@),
{
    let mut out: Vec<char> = Vec::new();
    let mut i: usize = 0;
    assert(s@.skip(0) == s@);
    while i < s.len()
        invariant
            i <= s.len(),
            pat@.len() > 0,
            out@ + replace_all(s@.skip(i as int), pat@, rep@) == replace_all(s@, pat@, rep@),
        decreases s.len() - i,
    {
        let ghost rest = s@.skip(i as int);
        if chars_occur_at(s, pat, i) {
            assert(occurs_at(rest, pat@, 0)) by {
                assert(rest.subrange(0, pat@.len() as int) == s@.subrange(i as int, i + pat@.len()));
            }
            assert(rest.skip(pat@.len() as int) == s@.skip(i + pat@.len()));
            let mut k: usize = 0;
            let ghost before = out@;
            while k < rep.len()
                invariant
                    k <= rep.len(),
                    out@ == before + rep@.take(k as int),
                decreases rep.len() - k,
            {
                out.push(rep[k]);
                assert(rep@.take(k + 1) == rep@.take(k as int).push(rep@[k as int]));
                k += 1;
            }
            assert(rep@.take(rep.len() as int) == rep@);
            assert(out@ + replace_all(s@.skip(i + pat@.len()), pat@, rep@) == before + replace_all(rest, pat@, rep@));
            i += pat.len();
        } else {
            assert(!occurs_at(rest, pat@, 0)) by {
                if rest.len() >= pat@.len() {
                    assert(rest.subrange(0, pat@.len() as int) == s@.subrange(i as int, i + pat@.len()));
                }
            }
            assert(rest.drop_first() == s@.skip(i + 1));
            let ghost before = out@;
            out.push(s[i]);
            assert(out@ + replace_all(s@.skip(i + 1), pat@, rep@) == before + replace_all(rest, pat@, rep@));
            i += 1;
        }
    }
    assert(s@.skip(i as int).len() == 0);
    assert(out@ + Seq::<char>::empty() == out@);
    out
}

/// A lookup finds the text of the first entry with the key, and finds one exactly when some
/// entry has the key.
pub proof fn lemma_lookup(entries: Seq<(Seq<char>, Seq<char>)>, key: Seq<char>)
    ensures
        lookup(entries, key) matches Some(t) ==> exists|i: int|
            0 <= i < entries.len() && #[trigger] entries[i] == (key, t) && forall|j: int| 0 <= j < i ==> entries[j].0 != key,
        (exists|i: int| 0 <= i < entries.len() && (#[trigger] entries[i]).0 == key) ==> lookup(entries, key) is Some,
    decreases entries.len(),
{
    if entries.len() > 0 {
        let rest = entries.drop_first();
        lemma_lookup(rest, key);
        if entries[0].0 == key {
            assert(entries[0] == (key, entries[0].1));
        } else {
            if lookup(entries, key) is Some {
                let t = lookup(entries, key)->0;
                let i = choose|i: int| 0 <= i < rest.len() && #[trigger] rest[i] == (key, t) && forall|j: int| 0 <= j < i ==> rest[j].0 != key;
                assert(entries[i + 1] == (key, t));
                assert forall|j: int| 0 <= j < i + 1 implies entries[j].0 != key by {
                    if j > 0 {
                        assert(entries[j] == rest[j - 1]);
                    }
                }
            }
            if exists|i: int| 0 <= i < entries.len() && (#[trigger] entries[i]).0 == key {
                let i = choose|i: int| 0 <= i < entries.len() && (#[trigger] entries[i]).0 == key;
                assert(rest[i - 1] == entries[i]);
            }
        }
    }
}

/// Replacing a pattern that does not occur leaves the text as it is.
pub proof fn lemma_replace_absent(s: Seq<char>, pat: Seq<char>, rep: Seq<char>)
    requires
        forall|i: int| !occurs_at(s, pat, i),
    ensures
        replace_all(s, pat, rep) == s,
    decreases s.len(),
{
    if pat.len() > 0 && s.len() > 0 {
        let r = s.drop_first();
        assert forall|i: int| !occurs_at(r, pat, i) by {
            if occurs_at(r, pat, i) {
                assert(s.subrange(i + 1, i + 1 + pat.len()) =~= r.subrange(i, i + pat.len()));
                assert(occurs_at(s, pat, i + 1));
            }
        }
        lemma_replace_absent(r, pat, rep);
        assert(!occurs_at(s, pat, 0));
        assert(seq![s[0]] + r =~= s);
    }
}

/// A text that is just the placeholder `{name}` is filled with the value given for it.
pub proof fn lemma_fill_placeholder(name: Seq<char>, value: Seq<char>)
    ensures
        fill(placeholder(name), seq![(name, value)]) == value,
{
    let p = placeholder(name);
    assert(p.subrange(0, p.len() as int) =~= p);
    assert(occurs_at(p, p, 0));
    assert(p.skip(p.len() as int) =~= Seq::<char>::empty());
    assert(replace_all(Seq::<char>::empty(), p, value) == Seq::<char>::empty());
    assert(value + Seq::<char>::empty() =~= value);
    assert(p.len() >= 2);
    assert(replace_all(p, p, value) == value + replace_all(p.skip(p.len() as int), p, value));
    assert(replace_all(p, p, value) == value);
    let args = seq![(name, value)];
    assert(args[0] == (name, value));
    assert(args.drop_first() =~= Seq::<(Seq<char>, Seq<char>)>::empty());
    assert(fill(p, args) == fill(replace_all(p, placeholder(args[0].0), args[0].1), args.drop_first()));
    assert(fill(value, args.drop_first()) == value);
}

} // verus!
