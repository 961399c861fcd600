//! Tryptic digestion: a protein sequence is cut after each `K` or `R` that is
//! not followed by `P`, and the pieces whose length lies within the bounds
//! are the candidate peptides.

use vstd::prelude::*;
use crate::text::{chars_of, string_of};
use crate::taxonomy::strs;

verus! {

/// The sequence is cut after position `i`.
pub open spec fn is_cut(s: Seq<char>, i: int) -> bool {
    (s[i] == 'K' || s[i] == 'R') && (i + 1 >= s.len() || s[i + 1] != 'P')
}

/// After reading the first `n` characters of `s`: the finished pieces, and
/// the piece being read. The end of `s` finishes the last piece.
pub open spec fn cut_pieces(s: Seq<char>, n: int) -> (Seq<Seq<char>>, Seq<char>)
    decreases n,
{
    if n <= 0 {
        (Seq::empty(), Seq::empty())
    } else {
        let (ps, cur) = cut_pieces(s, n - 1);
        let next = cur.push(s[n - 1]);
        if is_cut(s, n - 1) || n == s.len() {
            (ps.push(next), Seq::empty())
        } else {
            (ps, next)
        }
    }
}

/// The pieces of `ps` whose length lies within `[min, max]`.
pub open spec fn within(ps: Seq<Seq<char>>, min: int, max: int) -> Seq<Seq<char>>
    decreases ps.len(),
{
    if ps.len() == 0 {
        Seq::empty()
    } else {
        let rest = within(ps.drop_last(), min, max);
        if min <= ps.last().len() <= max {
            rest.push(ps.last())
        } else {
            rest
        }
    }
}

/// The candidate peptides of `s` with lengths within `[min, max]`.
pub open spec fn peptides_of(s: Seq<char>, min: int, max: int) -> Seq<Seq<char>> {
    within(cut_pieces(s, s.len() as int).0, min, max)
}

/// The candidate peptides of `sequence`, as `peptides_of` describes them.
pub fn digest(sequence: &str, min: u32, max: u32) -> (r: Vec<String>)
    ensures
        strs(r@) == peptides_of(sequence@, min as int, max as int),
{
    let cs = chars_of(sequence);
    let ghost s = sequence@;
    let mut out: Vec<String> = Vec::new();
    let mut cur: Vec<char> = Vec::new();
    let mut i: usize = 0;
    while i < cs.len()
        invariant
            i <= cs@.len(),
            cs@ == s,
            strs(out@) == within(cut_pieces(s, i as int).0, min as int, max as int),
            cur@ == cut_pieces(s, i as int).1,
        decreases cs@.len() - i,
    {
        let c = cs[i];
        cur.push(c);
        let cut = (c == 'K' || c == 'R') && (i + 1 >= cs.len() || cs[i + 1] != 'P');
        if cut || i + 1 == cs.len() {
            let len = cur.len();
            if min as usize <= len && len <= max as usize {
                let piece = string_of(cur.as_slice());
                let ghost before = out@;
                out.push(piece);
                assert(strs(out@) =~= strs(before).push(piece@));
            }
            let ghost ps = cut_pieces(s, i + 1).0;
            assert(ps.drop_last() =~= cut_pieces(s, i as int).0);
            cur = Vec::new();
        }
        i = i + 1;
    }
    out
}

} // verus!
