//! The taxonomy index: a dense table of lineages indexed by taxon id.
//!
//! The table is a flat vector with one slot per id from 0 up to the highest id
//! seen, so that a lookup is a single index operation. Ids that no row names
//! keep an empty lineage, which stands for "unknown taxon". The memory cost is
//! therefore proportional to the highest taxon id rather than to the number of
//! taxa; that is the price paid for constant-time lookups, and it is small
//! because taxon ids are dense in practice.

use vstd::prelude::*;
use crate::text::{char_views, chars_of, parse_i32, decimal_value, fits_i32, split_on, split_fields};

verus! {

/// Number of taxonomic ranks in a lineage.
pub const RANKS: usize = 27;

/// Rank index of the genus.
pub const GENUS: usize = 18;

/// Rank index of the species.
pub const SPECIES: usize = 22;

/// Number of tab-separated fields in a lineage row: the key and one per rank.
pub const ROW_FIELDS: usize = 28;

/// A taxonomy dump row that could not be read: its position among the rows.
#[derive(Debug, PartialEq, Eq, Structural, Clone, Copy)]
pub struct ParseError {
    pub line: usize,
}

/// The lineage table, indexed by taxon id. An empty lineage marks an unknown id.
pub struct Taxonomy {
    taxonomy: Vec<Vec<i32>>,
}

/// The views of a sequence of strings.
pub open spec fn strs(v: Seq<String>) -> Seq<Seq<char>> {
    v.map_values(|s: String| s@)
}

/// The textual null marker `\N`.
pub open spec fn null_marker() -> Seq<char> {
    seq!['\\', 'N']
}

/// The value of one field of a taxonomy row: the null marker reads as 0,
/// anything else must be a 32-bit decimal integer.
pub open spec fn field_value(f: Seq<char>) -> Option<int> {
    if f == null_marker() {
        Some(0)
    } else if decimal_value(f) is Some && fits_i32(decimal_value(f).unwrap()) {
        decimal_value(f)
    } else {
        None
    }
}

/// A well-formed taxonomy row: exactly 28 readable fields, the first of which
/// (the taxon id) is not negative.
pub open spec fn row_ok(s: Seq<char>) -> bool {
    let f = split_on(s, '\t');
    &&& f.len() == ROW_FIELDS
    &&& forall|j: int| 0 <= j < ROW_FIELDS ==> (#[trigger] field_value(f[j])) is Some
    &&& field_value(f[0]).unwrap() >= 0
}

pub open spec fn row_key(s: Seq<char>) -> int {
    field_value(split_on(s, '\t')[0]).unwrap()
}

pub open spec fn row_lineage(s: Seq<char>) -> Seq<i32> {
    Seq::new(RANKS as nat, |j: int| field_value(split_on(s, '\t')[j + 1]).unwrap() as i32)
}

/// The size of the table built from `rows`: one more than the highest key.
pub open spec fn table_len(rows: Seq<Seq<char>>) -> int
    decreases rows.len(),
{
    if rows.len() == 0 {
        0
    } else {
        let k = row_key(rows.last()) + 1;
        let n = table_len(rows.drop_last());
        if k > n {
            k
        } else {
            n
        }
    }
}

/// The lineage of the last row of `rows` whose key is `k`, or the empty lineage.
pub open spec fn lineage_for(rows: Seq<Seq<char>>, k: int) -> Seq<i32>
    decreases rows.len(),
{
    if rows.len() == 0 {
        Seq::empty()
    } else if row_key(rows.last()) == k {
        row_lineage(rows.last())
    } else {
        lineage_for(rows.drop_last(), k)
    }
}

/// The dense table that a sequence of well-formed rows describes.
pub open spec fn table_of(rows: Seq<Seq<char>>) -> Seq<Seq<i32>> {
    Seq::new(table_len(rows) as nat, |k: int| lineage_for(rows, k))
}

/// The lineage that the table `t` holds for `id`, if it knows the id.
pub open spec fn lineage_of(t: Seq<Seq<i32>>, id: int) -> Option<Seq<i32>> {
    if 0 <= id < t.len() && t[id].len() > 0 {
        Some(t[id])
    } else {
        None
    }
}

pub open spec fn table_wf(t: Seq<Seq<i32>>) -> bool {
    forall|k: int| 0 <= k < t.len() ==> (#[trigger] t[k]).len() == 0 || t[k].len() == RANKS
}

impl View for Taxonomy {
    type V = Seq<Seq<i32>>;

    closed spec fn view(&self) -> Seq<Seq<i32>> {
        self.taxonomy@.map_values(|l: Vec<i32>| l@)
    }
}

/// Reads one field of a taxonomy row.
fn read_field(f: &Vec<char>) -> (r: Option<i32>)
    ensures
        match r {
            Some(v) => field_value(f@) == Some(v as int),
            None => field_value(f@) is None,
        },
{
    if f.len() == 2 && f[0] == '\\' && f[1] == 'N' {
        assert(f@ =~= null_marker());
        Some(0)
    } else {
        assert(f@ != null_marker());
        parse_i32(f.as_slice())
    }
}

/// Reads one taxonomy row into its key and lineage.
fn parse_row(line: &str) -> (r: Option<(usize, Vec<i32>)>)
    ensures
        match r {
            Some((k, l)) => row_ok(line@) && k as int == row_key(line@) && l@ == row_lineage(
                line@,
            ),
            None => !row_ok(line@),
        },
{
    let cs = chars_of(line);
    let fields = split_fields(cs.as_slice(), '\t');
    let ghost f = split_on(line@, '\t');
    assert(fields@.len() == f.len());
    if fields.len() != ROW_FIELDS {
        return None;
    }
    assert(forall|j: int| 0 <= j < fields@.len() ==> fields@[j]@ == #[trigger] f[j]);
    let key = match read_field(&fields[0]) {
        Some(k) => k,
        None => return None,
    };
    if key < 0 {
        return None;
    }
    let mut lineage: Vec<i32> = Vec::new();
    let mut j: usize = 1;
    while j < ROW_FIELDS
        invariant
            1 <= j <= ROW_FIELDS,
            fields@.len() == ROW_FIELDS,
            f == split_on(line@, '\t'),
            f.len() == ROW_FIELDS,
            forall|x: int| 0 <= x < fields@.len() ==> fields@[x]@ == #[trigger] f[x],
            field_value(f[0]) == Some(key as int),
            lineage@.len() == j - 1,
            forall|x: int| 0 <= x < j ==> (#[trigger] field_value(f[x])) is Some,
            forall|x: int|
                0 <= x < j - 1 ==> lineage@[x] as int == (#[trigger] field_value(f[x + 1])).unwrap(),
        decreases ROW_FIELDS - j,
    {
        match read_field(&fields[j]) {
            Some(v) => lineage.push(v),
            None => {
                assert(field_value(f[j as int]) is None);
                assert(!row_ok(line@));
                return None;
            },
        }
        j = j + 1;
    }
    assert(lineage@ =~= row_lineage(line@));
    Some((key as usize, lineage))
}

proof fn lemma_lineage_for_beyond(rows: Seq<Seq<char>>, k: int)
    requires
        k >= table_len(rows),
    ensures
        lineage_for(rows, k) == Seq::<i32>::empty(),
    decreases rows.len(),
{
    if rows.len() > 0 {
        lemma_lineage_for_beyond(rows.drop_last(), k);
    }
}

proof fn lemma_table_len_nonneg(rows: Seq<Seq<char>>)
    ensures
        table_len(rows) >= 0,
    decreases rows.len(),
{
    if rows.len() > 0 {
        lemma_table_len_nonneg(rows.drop_last());
    }
}

proof fn lemma_lineage_for_wf(rows: Seq<Seq<char>>, k: int)
    ensures
        lineage_for(rows, k).len() == 0 || lineage_for(rows, k).len() == RANKS,
    decreases rows.len(),
{
    if rows.len() > 0 {
        lemma_lineage_for_wf(rows.drop_last(), k);
    }
}

impl Taxonomy {
    pub closed spec fn wf(&self) -> bool {
        table_wf(self@)
    }

    /// Builds the index from the rows of a taxonomy dump. Each row holds 28
    /// tab-separated fields: the taxon id, then one ancestor id per rank,
    /// where `\N` stands for 0. When two rows share an id, the later one wins.
    /// The first row that is not of that form is reported.
    pub fn build(lines: &Vec<String>) -> (r: Result<Taxonomy, ParseError>)
        ensures
            match r {
                Ok(t) => t.wf() && (forall|i: int|
                    0 <= i < lines@.len() ==> row_ok(#[trigger] lines@[i]@)) && t@ == table_of(
                    strs(lines@),
                ),
                Err(e) => e.line < lines@.len() && !row_ok(lines@[e.line as int]@) && (forall|
                    i: int,
                | 0 <= i < e.line ==> row_ok(#[trigger] lines@[i]@)),
            },
    {
        let ghost rows = strs(lines@);
        let mut table: Vec<Vec<i32>> = Vec::new();
        let mut i: usize = 0;
        assert(table@.map_values(|l: Vec<i32>| l@) =~= table_of(rows.take(0)));
        while i < lines.len()
            invariant
                i <= lines@.len(),
                rows == strs(lines@),
                forall|x: int| 0 <= x < i ==> row_ok(#[trigger] lines@[x]@),
                table@.map_values(|l: Vec<i32>| l@) == table_of(rows.take(i as int)),
            decreases lines@.len() - i,
        {
            let ghost pre = rows.take(i as int);
            let ghost cur = rows.take(i + 1);
            assert(cur.drop_last() =~= pre);
            assert(cur.last() == lines@[i as int]@);
            let (k, lineage) = match parse_row(lines[i].as_str()) {
                Some(row) => row,
                None => return Err(ParseError { line: i }),
            };
            proof {
                lemma_table_len_nonneg(pre);
            }
            assert(table@.map_values(|l: Vec<i32>| l@).len() == table@.len());
            assert(table_of(pre).len() == table_len(pre));
            assert(table@.len() == table_len(pre));
            assert(forall|x: int|
                0 <= x < table@.len() ==> #[trigger] table@[x]@ == lineage_for(pre, x)) by {
                assert(forall|x: int|
                    0 <= x < table@.len() ==> #[trigger] table@[x]@ == table@.map_values(
                        |l: Vec<i32>| l@,
                    )[x]);
            }
            while table.len() <= k
                invariant
                    table_len(pre) <= table@.len(),
                    table@.len() <= table_len(pre) || table@.len() <= k + 1,
                    forall|x: int|
                        0 <= x < table@.len() ==> #[trigger] table@[x]@ == lineage_for(pre, x),
                decreases k + 1 - table@.len(),
            {
                proof {
                    lemma_lineage_for_beyond(pre, table@.len() as int);
                }
                table.push(Vec::new());
            }
            table.set(k, lineage);
            i = i + 1;
            assert(table@.map_values(|l: Vec<i32>| l@) =~= table_of(rows.take(i as int)));
        }
        assert(rows.take(lines@.len() as int) =~= rows);
        let t = Taxonomy { taxonomy: table };
        assert forall|k: int| 0 <= k < t@.len() implies (#[trigger] t@[k]).len() == 0
            || t@[k].len() == RANKS by {
            lemma_lineage_for_wf(rows, k);
        }
        Ok(t)
    }

    /// The number of slots in the table: one more than the highest taxon id.
    pub fn len(&self) -> (r: usize)
        ensures
            r == self@.len(),
    {
        self.taxonomy.len()
    }

    /// The lineage of `taxon_id`; `None` when the id is out of range or has no
    /// row, which callers treat alike.
    pub fn lookup(&self, taxon_id: i32) -> (r: Option<&Vec<i32>>)
        requires
            self.wf(),
        ensures
            match r {
                Some(l) => lineage_of(self@, taxon_id as int) == Some(l@) && l@.len() == RANKS,
                None => lineage_of(self@, taxon_id as int) is None,
            },
    {
        if taxon_id < 0 || taxon_id as usize >= self.taxonomy.len() {
            return None;
        }
        let l = &self.taxonomy[taxon_id as usize];
        if l.len() == 0 {
            None
        } else {
            assert(self@[taxon_id as int] == l@);
            Some(l)
        }
    }
}

} // verus!
