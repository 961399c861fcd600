//! Streaming aggregation: observations `sequence<TAB>taxon_id` arrive sorted
//! so that equal sequences are contiguous; each maximal run (a group) yields
//! one `(sequence, consensus taxon)` result.

use vstd::prelude::*;
use vstd::slice::slice_subrange;
use crate::text::{chars_of, string_of, parse_i32, decimal_value, fits_i32, trim_end, is_space_char};
use crate::taxonomy::{Taxonomy, strs};
use crate::lca::consensus;

verus! {

/// An observation line that could not be read: its position among the lines.
#[derive(Debug, PartialEq, Eq, Structural, Clone, Copy)]
pub struct FormatError {
    pub line: usize,
}

/// The position of the first tab of `s` at or after `from`.
pub open spec fn first_tab_from(s: Seq<char>, from: int) -> Option<int>
    decreases s.len() - from,
{
    if from < 0 || from >= s.len() {
        None
    } else if s[from] == '\t' {
        Some(from)
    } else {
        first_tab_from(s, from + 1)
    }
}

/// An observation line, read: the text before the first tab is the sequence;
/// the text after it, without trailing whitespace, is a 32-bit decimal taxon id.
pub open spec fn observation(s: Seq<char>) -> Option<(Seq<char>, i32)> {
    match first_tab_from(s, 0) {
        Some(p) => {
            let v = decimal_value(trim_end(s.subrange(p + 1, s.len() as int)));
            if v is Some && fits_i32(v.unwrap()) {
                Some((s.take(p), v.unwrap() as i32))
            } else {
                None
            }
        },
        None => None,
    }
}

/// The maximal runs of equal sequences in `obs`, each with its taxon ids.
pub open spec fn groups(obs: Seq<(Seq<char>, i32)>) -> Seq<(Seq<char>, Seq<i32>)>
    decreases obs.len(),
{
    if obs.len() == 0 {
        Seq::empty()
    } else {
        let g = groups(obs.drop_last());
        let o = obs.last();
        if g.len() > 0 && g.last().0 == o.0 {
            g.update(g.len() - 1, (o.0, g.last().1.push(o.1)))
        } else {
            g.push((o.0, seq![o.1]))
        }
    }
}

/// The consensus of each group of `gs`, beside its sequence.
pub open spec fn group_results(t: Seq<Seq<i32>>, gs: Seq<(Seq<char>, Seq<i32>)>) -> Seq<
    (Seq<char>, i32),
> {
    gs.map_values(|g: (Seq<char>, Seq<i32>)| (g.0, consensus(t, g.1)))
}

/// One `(sequence, consensus)` per group of `obs`.
pub open spec fn lca_results(t: Seq<Seq<i32>>, obs: Seq<(Seq<char>, i32)>) -> Seq<
    (Seq<char>, i32),
> {
    group_results(t, groups(obs))
}

/// The views of a sequence of results.
pub open spec fn results_view(v: Seq<(String, i32)>) -> Seq<(Seq<char>, i32)> {
    v.map_values(|p: (String, i32)| (p.0@, p.1))
}

proof fn lemma_results_push(v: Seq<(String, i32)>, x: (String, i32))
    ensures
        results_view(v.push(x)) == results_view(v).push((x.0@, x.1)),
{
    assert(results_view(v.push(x)) =~= results_view(v).push((x.0@, x.1)));
}

proof fn lemma_group_results_push(
    t: Seq<Seq<i32>>,
    gs: Seq<(Seq<char>, Seq<i32>)>,
    g: (Seq<char>, Seq<i32>),
)
    ensures
        group_results(t, gs.push(g)) == group_results(t, gs).push((g.0, consensus(t, g.1))),
{
    assert(group_results(t, gs.push(g)) =~= group_results(t, gs).push((g.0, consensus(t, g.1))));
}

/// The observations that the lines `lines` hold.
pub open spec fn observations(lines: Seq<String>) -> Seq<(Seq<char>, i32)> {
    strs(lines).map_values(|s: Seq<char>| observation(s).unwrap())
}

/// Reads one observation line.
pub fn parse_observation(line: &str) -> (r: Option<(String, i32)>)
    ensures
        match r {
            Some((s, id)) => observation(line@) == Some((s@, id)),
            None => observation(line@) is None,
        },
{
    let cs = chars_of(line);
    let mut p: usize = 0;
    while p < cs.len() && cs[p] != '\t'
        invariant
            p <= cs@.len(),
            cs@ == line@,
            first_tab_from(line@, 0) == first_tab_from(line@, p as int),
        decreases cs@.len() - p,
    {
        p = p + 1;
    }
    if p == cs.len() {
        return None;
    }
    let ghost rest = line@.subrange(p + 1, line@.len() as int);
    let mut end: usize = cs.len();
    while end > p + 1 && is_space_char(cs[end - 1])
        invariant
            p + 1 <= end <= cs@.len(),
            cs@ == line@,
            trim_end(rest) == trim_end(line@.subrange(p + 1, end as int)),
        decreases end,
    {
        assert(line@.subrange(p + 1, end - 1) =~= line@.subrange(p + 1, end as int).drop_last());
        end = end - 1;
    }
    assert(trim_end(line@.subrange(p + 1, end as int)) == line@.subrange(p + 1, end as int));
    let digits = slice_subrange(cs.as_slice(), p + 1, end);
    assert(digits@ =~= line@.subrange(p + 1, end as int));
    match parse_i32(digits) {
        Some(id) => {
            let seq_part = string_of(slice_subrange(cs.as_slice(), 0, p));
            assert(seq_part@ =~= line@.take(p as int));
            Some((seq_part, id))
        },
        None => None,
    }
}

/// The state of a streaming aggregation: the sequence of the pending group
/// and its taxon ids. No group is pending while the id list is empty.
pub struct LcaAggregator {
    current: String,
    taxa: Vec<i32>,
}

impl View for LcaAggregator {
    type V = (Seq<char>, Seq<i32>);

    closed spec fn view(&self) -> (Seq<char>, Seq<i32>) {
        (self.current@, self.taxa@)
    }
}

/// The groups of `obs` as the aggregator has them: the groups it has emitted
/// followed by the pending one.
pub open spec fn pending_matches(
    emitted: Seq<(Seq<char>, Seq<i32>)>,
    state: (Seq<char>, Seq<i32>),
    obs: Seq<(Seq<char>, i32)>,
) -> bool {
    if state.1.len() == 0 {
        obs.len() == 0 && emitted.len() == 0
    } else {
        groups(obs) == emitted.push(state)
    }
}

impl LcaAggregator {
    /// An aggregator with no pending group.
    pub fn new() -> (r: LcaAggregator)
        ensures
            r@.1.len() == 0,
    {
        LcaAggregator { current: String::new(), taxa: Vec::new() }
    }

    /// Takes in one observation. When it starts a new group and a group was
    /// pending, the pending group is finished and its result returned.
    pub fn push(&mut self, taxonomy: &Taxonomy, sequence: String, taxon_id: i32) -> (r: Option<
        (String, i32),
    >)
        requires
            taxonomy.wf(),
        ensures
            if old(self)@.1.len() > 0 && old(self)@.0 != sequence@ {
                &&& r matches Some((s, c)) && s@ == old(self)@.0 && c == consensus(
                    taxonomy@,
                    old(self)@.1,
                )
                &&& final(self)@ == (sequence@, seq![taxon_id])
            } else {
                &&& r is None
                &&& final(self)@ == (sequence@, old(self)@.1.push(taxon_id))
            },
    {
        if self.taxa.len() > 0 && self.current != sequence {
            let lca = taxonomy.calculate_lca(self.taxa.as_slice());
            let mut taxa: Vec<i32> = Vec::new();
            taxa.push(taxon_id);
            let finished = self.current.clone();
            self.current = sequence;
            self.taxa = taxa;
            assert(self.taxa@ =~= seq![taxon_id]);
            Some((finished, lca))
        } else {
            self.current = sequence;
            self.taxa.push(taxon_id);
            None
        }
    }

    /// Ends the stream: the result of the pending group, if any.
    pub fn finish(&self, taxonomy: &Taxonomy) -> (r: Option<(String, i32)>)
        requires
            taxonomy.wf(),
        ensures
            if self@.1.len() > 0 {
                r matches Some((s, c)) && s@ == self@.0 && c == consensus(taxonomy@, self@.1)
            } else {
                r is None
            },
    {
        if self.taxa.len() > 0 {
            Some((self.current.clone(), taxonomy.calculate_lca(self.taxa.as_slice())))
        } else {
            None
        }
    }
}

/// The consensus of each group of the observation lines `lines`, in order.
/// A line that cannot be read fails the whole run with its position.
pub fn aggregate(taxonomy: &Taxonomy, lines: &Vec<String>) -> (r: Result<Vec<(String, i32)>, FormatError>)
    requires
        taxonomy.wf(),
    ensures
        match r {
            Ok(v) => (forall|i: int| 0 <= i < lines@.len() ==> (#[trigger] observation(lines@[i]@)) is Some)
                && results_view(v@) == lca_results(
                taxonomy@,
                observations(lines@),
            ),
            Err(e) => e.line < lines@.len() && observation(lines@[e.line as int]@) is None && (
            forall|i: int| 0 <= i < e.line ==> (#[trigger] observation(lines@[i]@)) is Some),
        },
{
    let ghost obs = observations(lines@);
    let mut agg = LcaAggregator::new();
    let mut out: Vec<(String, i32)> = Vec::new();
    let ghost mut emitted: Seq<(Seq<char>, Seq<i32>)> = Seq::empty();
    let mut i: usize = 0;
    while i < lines.len()
        invariant
            taxonomy.wf(),
            i <= lines@.len(),
            obs == observations(lines@),
            forall|x: int| 0 <= x < i ==> (#[trigger] observation(lines@[x]@)) is Some,
            pending_matches(emitted, agg@, obs.take(i as int)),
            results_view(out@) == group_results(taxonomy@, emitted),
        decreases lines@.len() - i,
    {
        let (sequence, taxon_id) = match parse_observation(lines[i].as_str()) {
            Some(o) => o,
            None => return Err(FormatError { line: i }),
        };
        let ghost pre = obs.take(i as int);
        let ghost cur = obs.take(i + 1);
        assert(cur.drop_last() =~= pre);
        assert(cur.last() == (sequence@, taxon_id));
        let ghost old_state = agg@;
        let ghost old_out = out@;
        let ghost old_emitted = emitted;
        let r = agg.push(taxonomy, sequence, taxon_id);
        match r {
            Some(done) => {
                out.push(done);
                proof {
                    emitted = emitted.push(old_state);
                }
                assert(out@ == old_out.push(done));
                assert(done.0@ == old_state.0 && done.1 == consensus(taxonomy@, old_state.1));
                assert(results_view(old_out) == group_results(taxonomy@, old_emitted));
                proof {
                    lemma_results_push(old_out, done);
                    lemma_group_results_push(taxonomy@, old_emitted, old_state);
                }
            },
            None => {},
        }
        proof {
            let o = cur.last();
            if old_state.1.len() == 0 {
                assert(old_state.1.push(taxon_id) =~= seq![taxon_id]);
                assert(groups(pre) =~= Seq::<(Seq<char>, Seq<i32>)>::empty());
                assert(groups(cur) =~= emitted.push(agg@));
            } else if old_state.0 == o.0 {
                assert(groups(pre) == old_emitted.push(old_state));
                assert(groups(cur) =~= emitted.push(agg@));
            } else {
                assert(groups(pre) == old_emitted.push(old_state));
                assert(groups(cur) =~= emitted.push(agg@));
            }
        }
        i = i + 1;
    }
    assert(obs.take(lines@.len() as int) =~= obs);
    let ghost before_finish = out@;
    match agg.finish(taxonomy) {
        Some(done) => {
            out.push(done);
            assert(out@ == before_finish.push(done));
            assert(done.0@ == agg@.0 && done.1 == consensus(taxonomy@, agg@.1));
            proof {
                lemma_results_push(before_finish, done);
                lemma_group_results_push(taxonomy@, emitted, agg@);
            }
            assert(groups(obs) == emitted.push(agg@));
        },
        None => {
            assert(groups(obs) =~= emitted);
        },
    }
    assert(results_view(out@) =~= lca_results(taxonomy@, obs));
    Ok(out)
}

} // verus!
