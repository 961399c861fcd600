//! Rank-wise consensus ("lowest common ancestor") of groups of taxa, and the
//! streaming aggregation of sorted `(sequence, taxon)` observations into one
//! consensus per run of equal sequences.

use vstd::prelude::*;
use crate::taxonomy::{Taxonomy, lineage_of, GENUS, SPECIES, RANKS};

verus! {

/// The universal root of the taxonomy: the consensus when nothing is known.
pub const ROOT: i32 = 1;

/// Whether `v` is an informative value at `rank`. At the genus and species
/// ranks only positive ids count (0 means "absent"); at every other rank 0 is
/// a legitimate candidate as well.
pub open spec fn informative(rank: int, v: i32) -> bool {
    if rank == GENUS || rank == SPECIES {
        v > 0
    } else {
        v >= 0
    }
}

/// Some lineage of `ls` has the informative value `v` at `rank`.
pub open spec fn votes_for(ls: Seq<Seq<i32>>, rank: int, v: i32) -> bool {
    exists|i: int| 0 <= i < ls.len() && informative(rank, v) && #[trigger] ls[i][rank] == v
}

/// Two lineages of `ls` have different informative values at `rank`.
pub open spec fn disagree(ls: Seq<Seq<i32>>, rank: int) -> bool {
    exists|i: int, j: int|
        0 <= i < ls.len() && 0 <= j < ls.len() && informative(rank, #[trigger] ls[i][rank])
            && informative(rank, #[trigger] ls[j][rank]) && ls[i][rank] != ls[j][rank]
}

/// The consensus of `ls` when the ranks before `rank` gave `best`: ranks are
/// scanned in order; the first rank where informative values disagree ends
/// the scan with `best`; a rank whose informative values all equal a non-zero
/// id makes that id the new best; a rank with no informative value, or whose
/// values are all 0, changes nothing.
pub open spec fn lca_from(ls: Seq<Seq<i32>>, rank: int, best: i32) -> i32
    decreases RANKS - rank,
{
    if rank < 0 || rank >= RANKS {
        best
    } else if disagree(ls, rank) {
        best
    } else if exists|v: i32| v != 0 && #[trigger] votes_for(ls, rank, v) {
        lca_from(ls, rank + 1, choose|v: i32| v != 0 && #[trigger] votes_for(ls, rank, v))
    } else {
        lca_from(ls, rank + 1, best)
    }
}

/// The lineages of the ids of `taxa` that the table knows, in order.
pub open spec fn known_lineages(t: Seq<Seq<i32>>, taxa: Seq<i32>) -> Seq<Seq<i32>>
    decreases taxa.len(),
{
    if taxa.len() == 0 {
        Seq::empty()
    } else {
        let rest = known_lineages(t, taxa.drop_last());
        match lineage_of(t, taxa.last() as int) {
            Some(l) => rest.push(l),
            None => rest,
        }
    }
}

/// The consensus taxon of a group of taxon ids.
pub open spec fn consensus(t: Seq<Seq<i32>>, taxa: Seq<i32>) -> i32 {
    lca_from(known_lineages(t, taxa), 0, ROOT)
}

/// The deepest positive id of a single lineage from `rank` on, or `best`.
pub open spec fn deepest_from(l: Seq<i32>, rank: int, best: i32) -> i32
    decreases RANKS - rank,
{
    if rank < 0 || rank >= RANKS {
        best
    } else {
        deepest_from(l, rank + 1, if l[rank] > 0 { l[rank] } else { best })
    }
}

proof fn lemma_known_lineages_concat(t: Seq<Seq<i32>>, a: Seq<i32>, b: Seq<i32>)
    ensures
        known_lineages(t, a + b) == known_lineages(t, a) + known_lineages(t, b),
    decreases b.len(),
{
    if b.len() == 0 {
        assert(a + b =~= a);
        assert(known_lineages(t, a) + known_lineages(t, b) =~= known_lineages(t, a));
    } else {
        lemma_known_lineages_concat(t, a, b.drop_last());
        assert((a + b).drop_last() =~= a + b.drop_last());
        assert((a + b).last() == b.last());
        match lineage_of(t, b.last() as int) {
            Some(l) => {
                assert(known_lineages(t, a + b) =~= known_lineages(t, a) + known_lineages(t, b));
            },
            None => {},
        }
    }
}

/// An id that the table does not know contributes nothing to a consensus:
/// the consensus of a group with such an id inserted anywhere equals the
/// consensus of the group without it.
pub proof fn lemma_unknown_taxon_ignored(t: Seq<Seq<i32>>, a: Seq<i32>, b: Seq<i32>, u: i32)
    requires
        lineage_of(t, u as int) is None,
    ensures
        consensus(t, a + seq![u] + b) == consensus(t, a + b),
{
    lemma_known_lineages_concat(t, a + seq![u], b);
    lemma_known_lineages_concat(t, a, seq![u]);
    lemma_known_lineages_concat(t, a, b);
    assert(seq![u].drop_last() =~= Seq::<i32>::empty());
    assert(seq![u].last() == u);
    assert(known_lineages(t, Seq::<i32>::empty()) =~= Seq::<Seq<i32>>::empty());
    assert(known_lineages(t, seq![u]) =~= Seq::<Seq<i32>>::empty());
    assert(known_lineages(t, a) + Seq::<Seq<i32>>::empty() =~= known_lineages(t, a));
}

proof fn lemma_lca_from_uniform(ls: Seq<Seq<i32>>, l: Seq<i32>, rank: int, best: i32)
    requires
        ls.len() > 0,
        forall|i: int| 0 <= i < ls.len() ==> #[trigger] ls[i] == l,
    ensures
        lca_from(ls, rank, best) == deepest_from(l, rank, best),
    decreases RANKS - rank,
{
    if 0 <= rank < RANKS {
        assert(ls[0] == l);
        assert(!disagree(ls, rank));
        if l[rank] > 0 {
            assert(informative(rank, l[rank]));
            assert(votes_for(ls, rank, l[rank]));
            let v = choose|v: i32| v != 0 && #[trigger] votes_for(ls, rank, v);
            assert(v == l[rank]);
        } else {
            assert(!exists|v: i32| v != 0 && #[trigger] votes_for(ls, rank, v));
        }
        lemma_lca_from_uniform(ls, l, rank + 1, if l[rank] > 0 { l[rank] } else { best });
    }
}

proof fn lemma_known_lineages_uniform(t: Seq<Seq<i32>>, taxa: Seq<i32>, l: Seq<i32>)
    requires
        forall|i: int| 0 <= i < taxa.len() ==> lineage_of(t, #[trigger] taxa[i] as int) == Some(l),
    ensures
        known_lineages(t, taxa).len() == taxa.len(),
        forall|i: int| 0 <= i < taxa.len() ==> #[trigger] known_lineages(t, taxa)[i] == l,
    decreases taxa.len(),
{
    if taxa.len() > 0 {
        assert(lineage_of(t, taxa[taxa.len() - 1] as int) == Some(l));
        lemma_known_lineages_uniform(t, taxa.drop_last(), l);
    }
}

/// When every id of a non-empty group resolves to the same lineage, the
/// consensus is the deepest positive id of that lineage, or the root when it
/// has none.
pub proof fn lemma_shared_lineage_consensus(t: Seq<Seq<i32>>, taxa: Seq<i32>, l: Seq<i32>)
    requires
        taxa.len() > 0,
        forall|i: int| 0 <= i < taxa.len() ==> lineage_of(t, #[trigger] taxa[i] as int) == Some(l),
    ensures
        consensus(t, taxa) == deepest_from(l, 0, ROOT),
{
    lemma_known_lineages_uniform(t, taxa, l);
    lemma_lca_from_uniform(known_lineages(t, taxa), l, 0, ROOT);
}

proof fn lemma_lca_from_empty(rank: int, best: i32)
    ensures
        lca_from(Seq::empty(), rank, best) == best,
    decreases RANKS - rank,
{
    if 0 <= rank < RANKS {
        assert(!exists|v: i32| v != 0 && #[trigger] votes_for(Seq::empty(), rank, v));
        lemma_lca_from_empty(rank + 1, best);
    }
}

/// The consensus of a single id is the deepest positive id of its lineage
/// (the root when it has none), or the root when the id is unknown.
pub proof fn lemma_single_taxon_consensus(t: Seq<Seq<i32>>, x: i32)
    ensures
        consensus(t, seq![x]) == match lineage_of(t, x as int) {
            Some(l) => deepest_from(l, 0, ROOT),
            None => ROOT,
        },
{
    match lineage_of(t, x as int) {
        Some(l) => {
            lemma_shared_lineage_consensus(t, seq![x], l);
        },
        None => {
            assert(seq![x].drop_last() =~= Seq::<i32>::empty());
            assert(seq![x].last() == x);
    assert(known_lineages(t, Seq::<i32>::empty()) =~= Seq::<Seq<i32>>::empty());
    assert(known_lineages(t, seq![x]) =~= Seq::<Seq<i32>>::empty());
            lemma_lca_from_empty(0, ROOT);
        },
    }
}

impl Taxonomy {
    /// The consensus taxon of `taxa`: unknown ids are ignored, the root is the
    /// answer when no lineage remains, and otherwise the deepest id on which
    /// all remaining lineages agree, as `lca_from` describes.
    pub fn calculate_lca(&self, taxa: &[i32]) -> (r: i32)
        requires
            self.wf(),
        ensures
            r == consensus(self@, taxa@),
    {
        let mut lineages: Vec<&Vec<i32>> = Vec::new();
        let mut i: usize = 0;
        while i < taxa.len()
            invariant
                self.wf(),
                i <= taxa@.len(),
                lineages@.map_values(|l: &Vec<i32>| l@) == known_lineages(self@, taxa@.take(i as int)),
                forall|x: int| 0 <= x < lineages@.len() ==> (#[trigger] lineages@[x])@.len() == RANKS,
            decreases taxa@.len() - i,
        {
            assert(taxa@.take(i + 1).drop_last() =~= taxa@.take(i as int));
            match self.lookup(taxa[i]) {
                Some(l) => lineages.push(l),
                None => {},
            }
            i = i + 1;
            assert(lineages@.map_values(|l: &Vec<i32>| l@) =~= known_lineages(
                self@,
                taxa@.take(i as int),
            ));
        }
        assert(taxa@.take(taxa@.len() as int) =~= taxa@);
        let ghost ls = lineages@.map_values(|l: &Vec<i32>| l@);
        let n = lineages.len();
        // With no known lineage every rank is silent and the root stands.
        // Otherwise the ranks are visited in their fixed order 0..27 and
        // `lca` holds the deepest id agreed on so far.
        let mut lca: i32 = ROOT;
        let mut rank: usize = 0;
        while rank < RANKS
            invariant
                rank <= RANKS,
                n == lineages@.len(),
                ls == lineages@.map_values(|l: &Vec<i32>| l@),
                ls == known_lineages(self@, taxa@),
                forall|x: int| 0 <= x < lineages@.len() ==> (#[trigger] lineages@[x])@.len() == RANKS,
                lca_from(ls, rank as int, lca) == consensus(self@, taxa@),
            decreases RANKS - rank,
        {
            // Collect the informative values at this rank, stopping at the
            // first one that differs from the others. `value` is -1 until a
            // vote is seen; votes are never negative.
            let mut value: i32 = -1;
            let mut all_match = true;
            let mut j: usize = 0;
            while j < n && all_match
                invariant
                    j <= n,
                    rank < RANKS,
                    n == lineages@.len(),
                    ls == lineages@.map_values(|l: &Vec<i32>| l@),
                    forall|x: int|
                        0 <= x < lineages@.len() ==> (#[trigger] lineages@[x])@.len() == RANKS,
                    value == -1 ==> all_match && forall|x: int|
                        0 <= x < j ==> !informative(rank as int, #[trigger] ls[x][rank as int]),
                    value != -1 ==> informative(rank as int, value) && votes_for(
                        ls,
                        rank as int,
                        value,
                    ),
                    all_match && value != -1 ==> forall|x: int|
                        0 <= x < j && informative(rank as int, #[trigger] ls[x][rank as int])
                            ==> ls[x][rank as int] == value,
                    !all_match ==> disagree(ls, rank as int),
                decreases n - j,
            {
                let item = lineages[j][rank];
                assert(ls[j as int] == lineages@[j as int]@);
                // At genus and species 0 means "absent" and is no vote; at
                // every other rank 0 is a vote like any id.
                let counts = if rank == GENUS || rank == SPECIES {
                    item > 0
                } else {
                    item >= 0
                };
                if counts {
                    if value == -1 {
                        value = item;
                        assert(votes_for(ls, rank as int, value));
                    } else if item != value {
                        all_match = false;
                        let ghost w = choose|x: int|
                            0 <= x < ls.len() && informative(rank as int, value) && #[trigger] ls[x][rank as int] == value;
                        assert(informative(rank as int, ls[w][rank as int]));
                        assert(informative(rank as int, ls[j as int][rank as int]));
                        assert(ls[w][rank as int] != ls[j as int][rank as int]);
                    }
                }
                j = j + 1;
            }
            if !all_match {
                // Disagreement: this is no longer a common ancestor.
                return lca;
            }
            assert(!disagree(ls, rank as int));
            // All votes agree. A non-zero id becomes the new best; a rank
            // without votes, or whose votes are all 0, changes nothing and
            // does not end the scan.
            if value != -1 && value != 0 {
                assert(votes_for(ls, rank as int, value));
                let ghost v = choose|v: i32| v != 0 && #[trigger] votes_for(ls, rank as int, v);
                assert(v == value);
                lca = value;
            } else {
                assert(!exists|v: i32| v != 0 && #[trigger] votes_for(ls, rank as int, v));
            }
            rank = rank + 1;
        }
        lca
    }
}

} // verus!
