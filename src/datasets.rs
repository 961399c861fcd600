//! Bookkeeping of dataset versions: for each database type, the E-Tag of the
//! dataset that was last downloaded and of the one that was last processed.

use vstd::prelude::*;
use crate::text::chars_of;

verus! {

/// A table from keys to values, each key at most once.
pub struct TagTable {
    entries: Vec<(String, String)>,
}

pub open spec fn pair_views(s: Seq<(String, String)>) -> Seq<(Seq<char>, Seq<char>)> {
    s.map_values(|p: (String, String)| (p.0@, p.1@))
}

/// The map that a list of pairs describes; a later pair wins.
pub open spec fn map_of(s: Seq<(Seq<char>, Seq<char>)>) -> Map<Seq<char>, Seq<char>>
    decreases s.len(),
{
    if s.len() == 0 {
        Map::empty()
    } else {
        map_of(s.drop_last()).insert(s.last().0, s.last().1)
    }
}

pub open spec fn keys_unique(s: Seq<(Seq<char>, Seq<char>)>) -> bool {
    forall|i: int, j: int| 0 <= i < j < s.len() ==> (#[trigger] s[i]).0 != (#[trigger] s[j]).0
}

proof fn lemma_map_of_lookup(s: Seq<(Seq<char>, Seq<char>)>, k: Seq<char>)
    requires
        keys_unique(s),
    ensures
        map_of(s).contains_key(k) <==> exists|i: int| 0 <= i < s.len() && (#[trigger] s[i]).0 == k,
        forall|i: int| 0 <= i < s.len() && (#[trigger] s[i]).0 == k ==> map_of(s)[k] == s[i].1,
    decreases s.len(),
{
    if s.len() > 0 {
        let d = s.drop_last();
        let l = s.last();
        lemma_map_of_lookup(d, k);
        assert forall|i: int| 0 <= i < d.len() implies #[trigger] d[i] == s[i] by {}
        assert(keys_unique(d));
        if l.0 == k {
            assert(s[s.len() - 1].0 == k);
            assert forall|i: int| 0 <= i < s.len() && (#[trigger] s[i]).0 == k implies map_of(s)[k]
                == s[i].1 by {
                if i < s.len() - 1 {
                    assert(s[i].0 != s[s.len() - 1].0);
                }
            }
        } else {
            if map_of(s).contains_key(k) {
                let i = choose|i: int| 0 <= i < d.len() && (#[trigger] d[i]).0 == k;
                assert(s[i].0 == k);
            }
            if exists|i: int| 0 <= i < s.len() && (#[trigger] s[i]).0 == k {
                let i = choose|i: int| 0 <= i < s.len() && (#[trigger] s[i]).0 == k;
                assert(d[i].0 == k);
            }
            assert forall|i: int| 0 <= i < s.len() && (#[trigger] s[i]).0 == k implies map_of(s)[k]
                == s[i].1 by {
                assert(d[i].0 == k);
            }
        }
    }
}

proof fn lemma_map_of_update(s: Seq<(Seq<char>, Seq<char>)>, i: int, v: Seq<char>)
    requires
        keys_unique(s),
        0 <= i < s.len(),
    ensures
        map_of(s.update(i, (s[i].0, v))) == map_of(s).insert(s[i].0, v),
        keys_unique(s.update(i, (s[i].0, v))),
    decreases s.len(),
{
    let k = s[i].0;
    let u = s.update(i, (k, v));
    let d = s.drop_last();
    if i == s.len() - 1 {
        assert(u.drop_last() =~= d);
        assert(map_of(u) =~= map_of(s).insert(k, v));
    } else {
        assert(u.drop_last() =~= d.update(i, (k, v)));
        lemma_map_of_update(d, i, v);
        assert(s.last().0 != k);
        assert(map_of(u) =~= map_of(s).insert(k, v));
    }
}

proof fn lemma_map_of_remove(s: Seq<(Seq<char>, Seq<char>)>, i: int)
    requires
        keys_unique(s),
        0 <= i < s.len(),
    ensures
        map_of(s.remove(i)) == map_of(s).remove(s[i].0),
        keys_unique(s.remove(i)),
    decreases s.len(),
{
    let k = s[i].0;
    let d = s.drop_last();
    if i == s.len() - 1 {
        assert(s.remove(i) =~= d);
        lemma_map_of_lookup(d, k);
        assert(map_of(s.remove(i)) =~= map_of(s).remove(k));
    } else {
        assert(s.remove(i).drop_last() =~= d.remove(i));
        lemma_map_of_remove(d, i);
        assert(s.last().0 != k);
        assert(s.remove(i).last() == s.last());
        assert(map_of(s.remove(i)) =~= map_of(s).remove(k));
    }
}

impl View for TagTable {
    type V = Map<Seq<char>, Seq<char>>;

    closed spec fn view(&self) -> Map<Seq<char>, Seq<char>> {
        map_of(pair_views(self.entries@))
    }
}

impl TagTable {
    pub closed spec fn wf(&self) -> bool {
        keys_unique(pair_views(self.entries@))
    }

    /// An empty table.
    pub fn new() -> (r: TagTable)
        ensures
            r.wf(),
            r@ == Map::<Seq<char>, Seq<char>>::empty(),
    {
        let r = TagTable { entries: Vec::new() };
        assert(pair_views(r.entries@) =~= Seq::empty());
        r
    }

    /// The position of `key`, if present.
    fn find(&self, key: &String) -> (r: Option<usize>)
        requires
            self.wf(),
        ensures
            match r {
                Some(i) => i < self.entries@.len() && self.entries@[i as int].0@ == key@,
                None => !self@.contains_key(key@),
            },
    {
        let ghost s = pair_views(self.entries@);
        proof {
            lemma_map_of_lookup(s, key@);
        }
        let mut i: usize = 0;
        while i < self.entries.len()
            invariant
                i <= self.entries@.len(),
                s == pair_views(self.entries@),
                forall|x: int| 0 <= x < i ==> (#[trigger] s[x]).0 != key@,
            decreases self.entries@.len() - i,
        {
            if self.entries[i].0 == *key {
                return Some(i);
            }
            i = i + 1;
        }
        None
    }

    /// The value of `key`, if present.
    pub fn get(&self, key: &String) -> (r: Option<&String>)
        requires
            self.wf(),
        ensures
            match r {
                Some(v) => self@.contains_key(key@) && self@[key@] == v@,
                None => !self@.contains_key(key@),
            },
    {
        match self.find(key) {
            Some(i) => {
                proof {
                    lemma_map_of_lookup(pair_views(self.entries@), key@);
                    assert(pair_views(self.entries@)[i as int].0 == key@);
                }
                Some(&self.entries[i].1)
            },
            None => None,
        }
    }

    /// Sets the value of `key` to `value`.
    pub fn insert(&mut self, key: String, value: String)
        requires
            old(self).wf(),
        ensures
            final(self).wf(),
            final(self)@ == old(self)@.insert(key@, value@),
    {
        let ghost s = pair_views(self.entries@);
        match self.find(&key) {
            Some(i) => {
                proof {
                    lemma_map_of_update(s, i as int, value@);
                }
                self.entries.set(i, (key, value));
                assert(pair_views(self.entries@) =~= s.update(i as int, (s[i as int].0, value@)));
            },
            None => {
                let ghost kv = key@;
                let ghost vv = value@;
                self.entries.push((key, value));
                assert(pair_views(self.entries@) =~= s.push((kv, vv)));
                assert(pair_views(self.entries@).drop_last() =~= s);
                proof {
                    lemma_map_of_lookup(s, kv);
                }
            },
        }
    }

    /// Removes `key`, if present.
    pub fn remove(&mut self, key: &String)
        requires
            old(self).wf(),
        ensures
            final(self).wf(),
            final(self)@ == old(self)@.remove(key@),
    {
        let ghost s = pair_views(self.entries@);
        match self.find(key) {
            Some(i) => {
                proof {
                    lemma_map_of_remove(s, i as int);
                }
                self.entries.remove(i);
                assert(pair_views(self.entries@) =~= s.remove(i as int));
            },
            None => {
                assert(self@ =~= self@.remove(key@));
            },
        }
    }
}

impl TagTable {
    /// The pairs of the table.
    pub fn entries(&self) -> (r: &Vec<(String, String)>)
        ensures
            map_of(pair_views(r@)) == self@,
    {
        &self.entries
    }
}

/// The two stages that a dataset goes through.
#[derive(Debug, PartialEq, Eq, Structural, Clone, Copy)]
pub enum ProcessingStage {
    Downloaded,
    Processed,
}

pub struct DeleteArgs {
    pub stage: ProcessingStage,
    pub db_type: String,
}

pub struct GetArgs {
    pub stage: ProcessingStage,
    pub db_type: String,
}

pub struct SetArgs {
    pub stage: ProcessingStage,
    pub db_type: String,
    pub value: String,
}

pub struct ShouldReprocessArgs {
    pub db_type: String,
    pub db_source: String,
}

/// The E-Tags of the downloaded and of the processed datasets, by type.
pub struct DatasetsMetadata {
    pub downloaded: TagTable,
    pub processed: TagTable,
}

impl DatasetsMetadata {
    pub open spec fn wf(&self) -> bool {
        self.downloaded.wf() && self.processed.wf()
    }

    /// The table of `stage`.
    pub open spec fn stage_view(&self, stage: ProcessingStage) -> Map<Seq<char>, Seq<char>> {
        match stage {
            ProcessingStage::Downloaded => self.downloaded@,
            ProcessingStage::Processed => self.processed@,
        }
    }

    /// Metadata with no dataset recorded.
    pub fn new() -> (r: DatasetsMetadata)
        ensures
            r.wf(),
            r.downloaded@ == Map::<Seq<char>, Seq<char>>::empty(),
            r.processed@ == Map::<Seq<char>, Seq<char>>::empty(),
    {
        DatasetsMetadata { downloaded: TagTable::new(), processed: TagTable::new() }
    }
}

/// Forgets the E-Tag of `args.db_type` at `args.stage`.
pub fn cmd_delete(meta: &mut DatasetsMetadata, args: DeleteArgs)
    requires
        old(meta).wf(),
    ensures
        final(meta).wf(),
        final(meta).stage_view(args.stage) == old(meta).stage_view(args.stage).remove(
            args.db_type@,
        ),
        args.stage != ProcessingStage::Downloaded ==> final(meta).downloaded@ == old(
            meta,
        ).downloaded@,
        args.stage != ProcessingStage::Processed ==> final(meta).processed@ == old(
            meta,
        ).processed@,
{
    match args.stage {
        ProcessingStage::Downloaded => meta.downloaded.remove(&args.db_type),
        ProcessingStage::Processed => meta.processed.remove(&args.db_type),
    }
}

/// The E-Tag of `args.db_type` at `args.stage`, if one is recorded.
pub fn cmd_get<'a>(meta: &'a DatasetsMetadata, args: GetArgs) -> (r: Option<&'a String>)
    requires
        meta.wf(),
    ensures
        match r {
            Some(v) => meta.stage_view(args.stage).contains_key(args.db_type@) && meta.stage_view(
                args.stage,
            )[args.db_type@] == v@,
            None => !meta.stage_view(args.stage).contains_key(args.db_type@),
        },
{
    match args.stage {
        ProcessingStage::Downloaded => meta.downloaded.get(&args.db_type),
        ProcessingStage::Processed => meta.processed.get(&args.db_type),
    }
}

/// Records `args.value` as the E-Tag of `args.db_type` at `args.stage`.
pub fn cmd_set(meta: &mut DatasetsMetadata, args: SetArgs)
    requires
        old(meta).wf(),
    ensures
        final(meta).wf(),
        final(meta).stage_view(args.stage) == old(meta).stage_view(args.stage).insert(
            args.db_type@,
            args.value@,
        ),
        args.stage != ProcessingStage::Downloaded ==> final(meta).downloaded@ == old(
            meta,
        ).downloaded@,
        args.stage != ProcessingStage::Processed ==> final(meta).processed@ == old(
            meta,
        ).processed@,
{
    match args.stage {
        ProcessingStage::Downloaded => meta.downloaded.insert(args.db_type, args.value),
        ProcessingStage::Processed => meta.processed.insert(args.db_type, args.value),
    }
}

/// `p` occurs in `s` as a contiguous part.
pub open spec fn contains_part(s: Seq<char>, p: Seq<char>) -> bool {
    exists|i: int| 0 <= i && i + p.len() <= s.len() && #[trigger] s.subrange(i, i + p.len()) == p
}

/// Whether `p` occurs in `s` as a contiguous part.
fn has_part(s: &[char], p: &[char]) -> (r: bool)
    ensures
        r == contains_part(s@, p@),
{
    if p.len() > s.len() {
        return false;
    }
    let n = s.len();
    let mut i: usize = 0;
    while i <= s.len() - p.len()
        invariant
            n == s@.len(),
            p@.len() <= s@.len(),
            i <= s@.len() - p@.len() + 1,
            forall|x: int| 0 <= x < i ==> #[trigger] s@.subrange(x, x + p@.len()) != p@,
        decreases s@.len() - i,
    {
        let mut j: usize = 0;
        let mut same = true;
        while j < p.len() && same
            invariant
                n == s@.len(),
                j <= p@.len(),
                p@.len() <= s@.len(),
                i <= s@.len() - p@.len(),
                same ==> forall|y: int| 0 <= y < j ==> s@[i + y] == p@[y],
                !same ==> j > 0 && s@[i + j - 1] != p@[j - 1],
            decreases p@.len() - j + (if same { 1int } else { 0int }),
        {
            if s[i + j] != p[j] {
                same = false;
            }
            j = j + 1;
        }
        if same {
            assert(s@.subrange(i as int, i + p@.len()) =~= p@);
            return true;
        }
        assert(s@.subrange(i as int, i + p@.len())[j - 1] != p@[j - 1]);
        i = i + 1;
    }
    assert forall|x: int| 0 <= x && x + p@.len() <= s@.len() implies #[trigger] s@.subrange(
        x,
        x + p@.len(),
    ) != p@ by {
        assert(x < i);
    }
    false
}

pub open spec fn rest_marker() -> Seq<char> {
    seq!['r', 'e', 's', 't']
}

/// Whether the dataset of `args.db_type` has to be processed again: always
/// for a source whose name contains `rest` (such sources give no E-Tags),
/// when either E-Tag is missing, and when the two differ.
pub fn cmd_should_reprocess(meta: DatasetsMetadata, args: ShouldReprocessArgs) -> (r: bool)
    requires
        meta.wf(),
    ensures
        r == (contains_part(args.db_source@, rest_marker()) || !meta.downloaded@.contains_key(
            args.db_type@,
        ) || !meta.processed@.contains_key(args.db_type@) || meta.downloaded@[args.db_type@]
            != meta.processed@[args.db_type@]),
{
    let source = chars_of(args.db_source.as_str());
    let marker: Vec<char> = vec!['r', 'e', 's', 't'];
    assert(marker@ =~= rest_marker());
    if has_part(source.as_slice(), marker.as_slice()) {
        return true;
    }
    let downloaded = match meta.downloaded.get(&args.db_type) {
        None => return true,
        Some(d) => d,
    };
    let processed = match meta.processed.get(&args.db_type) {
        None => return true,
        Some(p) => p,
    };
    *downloaded != *processed
}

} // verus!
