use vstd::prelude::*;

use crate::text::{chars_of, string_from_chars, texts, trim, trim_chars};

verus! {

/// The pieces of `s` between line breaks and commas (an empty text gives one empty piece).
pub open spec fn split_pieces(s: Seq<char>) -> Seq<Seq<char>>
    decreases s.len(),
{
    if s.len() == 0 {
        seq![Seq::empty()]
    } else {
        let prev = split_pieces(s.drop_last());
        let c = s.last();
        if c == '\n' || c == ',' {
            prev.push(Seq::empty())
        } else {
            prev.update(prev.len() - 1, prev.last().push(c))
        }
    }
}

/// The pieces with surrounding whitespace trimmed, empty ones left out.
pub open spec fn kept_pieces(ps: Seq<Seq<char>>) -> Seq<Seq<char>>
    decreases ps.len(),
{
    if ps.len() == 0 {
        Seq::empty()
    } else {
        let prev = kept_pieces(ps.drop_last());
        let t = trim(ps.last());
        if t.len() > 0 {
            prev.push(t)
        } else {
            prev
        }
    }
}

/// The remote source paths typed into the transfer dialog: one per line or per comma, trimmed,
/// blanks left out.
pub open spec fn spec_remote_sources(input: Seq<char>) -> Seq<Seq<char>> {
    kept_pieces(split_pieces(input))
}

/// The remote source paths typed into the transfer dialog.
pub fn parse_remote_sources(input: &str) -> (out: Vec<String>)
    ensures
        texts(out@) == spec_remote_sources(input@),
{
    let s = chars_of(input);
    let mut out: Vec<String> = Vec::new();
    let mut cur: Vec<char> = Vec::new();
    let mut i: usize = 0;
    while i < s.len()
        invariant
            i <= s.len(),
            split_pieces(s@.take(i as int)).len() >= 1,
            cur@ == split_pieces(s@.take(i as int)).last(),
            texts(out@) == kept_pieces(split_pieces(s@.take(i as int)).drop_last()),
        decreases s.len() - i,
    {
        let ghost ps = split_pieces(s@.take(i as int));
        assert(s@.take(i + 1).drop_last() == s@.take(i as int));
        assert(s@.take(i + 1).last() == s@[i as int]);
        let c = s[i];
        if c == '\n' || c == ',' {
            let t = trim_chars(&cur);
            assert(split_pieces(s@.take(i + 1)) == ps.push(Seq::empty()));
            assert(split_pieces(s@.take(i + 1)).drop_last() == ps);
            assert(ps.drop_last().push(ps.last()) == ps);
            if t.len() > 0 {
                let ghost before = texts(out@);
                out.push(string_from_chars(&t));
                assert(texts(out@) =~= before.push(t@));
            }
            cur = Vec::new();
        } else {
            cur.push(c);
            assert(split_pieces(s@.take(i + 1)).drop_last() =~= ps.drop_last());
        }
        i += 1;
    }
    assert(s@.take(s.len() as int) == s@);
    let ghost ps = split_pieces(s@);
    assert(ps.drop_last().push(ps.last()) == ps);
    let t = trim_chars(&cur);
    if t.len() > 0 {
        let ghost before = texts(out@);
        out.push(string_from_chars(&t));
        assert(texts(out@) =~= before.push(t@));
    }
    out
}

/// Every piece that `split_pieces` cuts holds no line break and no comma.
proof fn lemma_split_pieces_no_separator(s: Seq<char>)
    ensures
        split_pieces(s).len() >= 1,
        forall|i: int, j: int|
            0 <= i < split_pieces(s).len() && 0 <= j < split_pieces(s)[i].len() ==> (#[trigger] split_pieces(s)[i][j])
                != '\n' && split_pieces(s)[i][j] != ',',
    decreases s.len(),
{
    if s.len() > 0 {
        lemma_split_pieces_no_separator(s.drop_last());
        let prev = split_pieces(s.drop_last());
        let c = s.last();
        if !(c == '\n' || c == ',') {
            let cur = prev.update(prev.len() - 1, prev.last().push(c));
            assert forall|i: int, j: int| 0 <= i < cur.len() && 0 <= j < cur[i].len() implies (#[trigger] cur[i][j])
                != '\n' && cur[i][j] != ',' by {
                if i == prev.len() - 1 && j < prev.last().len() {
                    assert(cur[i][j] == prev[i][j]);
                } else if i < prev.len() - 1 {
                    assert(cur[i] == prev[i]);
                }
            }
        } else {
            let cur = prev.push(Seq::<char>::empty());
            assert forall|i: int, j: int| 0 <= i < cur.len() && 0 <= j < cur[i].len() implies (#[trigger] cur[i][j])
                != '\n' && cur[i][j] != ',' by {
                assert(cur[i] == prev[i]);
            }
        }
    }
}

/// The kept pieces are the trimmed, non-blank pieces: each is one of the pieces trimmed, none
/// is empty, and trimming it again changes nothing.
proof fn lemma_kept_pieces(ps: Seq<Seq<char>>)
    ensures
        forall|k: int| 0 <= k < kept_pieces(ps).len() ==> (#[trigger] kept_pieces(ps)[k]).len() > 0 && trim(
            kept_pieces(ps)[k],
        ) == kept_pieces(ps)[k] && exists|i: int| 0 <= i < ps.len() && kept_pieces(ps)[k] == trim(#[trigger] ps[i]),
        forall|i: int| 0 <= i < ps.len() && trim(#[trigger] ps[i]).len() > 0 ==> kept_pieces(ps).contains(trim(ps[i])),
    decreases ps.len(),
{
    if ps.len() > 0 {
        let rest = ps.drop_last();
        lemma_kept_pieces(rest);
        let prev = kept_pieces(rest);
        let t = trim(ps.last());
        crate::text::lemma_trim_idempotent(ps.last());
        let cur = kept_pieces(ps);
        assert forall|k: int| 0 <= k < cur.len() implies (#[trigger] cur[k]).len() > 0 && trim(cur[k]) == cur[k]
            && exists|i: int| 0 <= i < ps.len() && cur[k] == trim(#[trigger] ps[i]) by {
            if k < prev.len() {
                if t.len() > 0 {
                    assert(cur[k] == prev[k]);
                }
                let i = choose|i: int| 0 <= i < rest.len() && prev[k] == trim(#[trigger] rest[i]);
                assert(ps[i] == rest[i]);
            } else {
                assert(cur[k] == t);
                assert(ps[ps.len() - 1] == ps.last());
            }
        }
        assert forall|i: int| 0 <= i < ps.len() && trim(#[trigger] ps[i]).len() > 0 implies cur.contains(trim(ps[i])) by {
            if i < ps.len() - 1 {
                assert(rest[i] == ps[i]);
                assert(prev.contains(trim(rest[i])));
                let q = choose|q: int| 0 <= q < prev.len() && prev[q] == trim(rest[i]);
                if t.len() > 0 {
                    assert(cur[q] == prev[q]);
                }
            } else {
                assert(ps[i] == ps.last());
                assert(cur[prev.len() as int] == t);
            }
        }
    }
}

/// The remote sources typed into the transfer dialog: each is a non-blank piece between line
/// breaks and commas, trimmed; every such piece is among them.
pub proof fn lemma_remote_sources(input: Seq<char>)
    ensures
        forall|k: int| 0 <= k < spec_remote_sources(input).len() ==> (#[trigger] spec_remote_sources(input)[k]).len() > 0
            && trim(spec_remote_sources(input)[k]) == spec_remote_sources(input)[k],
        forall|k: int| 0 <= k < spec_remote_sources(input).len() ==> exists|i: int|
            0 <= i < split_pieces(input).len() && (#[trigger] spec_remote_sources(input)[k]) == trim(split_pieces(input)[i]),
        forall|i: int, j: int|
            0 <= i < split_pieces(input).len() && 0 <= j < split_pieces(input)[i].len() ==> (#[trigger] split_pieces(input)[i][j])
                != '\n' && split_pieces(input)[i][j] != ',',
        forall|i: int|
            0 <= i < split_pieces(input).len() && trim(#[trigger] split_pieces(input)[i]).len() > 0
                ==> spec_remote_sources(input).contains(trim(split_pieces(input)[i])),
{
    lemma_split_pieces_no_separator(input);
    lemma_kept_pieces(split_pieces(input));
}

} // verus!
