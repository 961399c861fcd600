//! The relational fan-out: a validated protein record becomes one entry row,
//! one row per cross-reference in each of three tables, and one row per
//! candidate peptide. Each table has its own surrogate-id counter, owned by
//! the writer; a rejected record consumes no id and yields no row at all.

use vstd::prelude::*;
use crate::text::{chars_of, push_char, split_on, split_fields, trim, trim_string, char_views, parse_i32, decimal_value};
use crate::taxonomy::ParseError;
use crate::taxonomy::strs;

verus! {

/// A protein record as an upstream parser hands it over.
pub struct Entry {
    pub accession_number: String,
    pub version: String,
    pub taxon_id: i32,
    pub type_: String,
    pub name: String,
    pub sequence: String,
    pub go_references: Vec<String>,
    pub ec_references: Vec<String>,
    pub ip_references: Vec<String>,
}

/// What a record holds, as values.
pub struct EntryModel {
    pub accession_number: Seq<char>,
    pub version: Seq<char>,
    pub taxon_id: i32,
    pub type_: Seq<char>,
    pub name: Seq<char>,
    pub sequence: Seq<char>,
    pub go_references: Seq<Seq<char>>,
    pub ec_references: Seq<Seq<char>>,
    pub ip_references: Seq<Seq<char>>,
}

impl View for Entry {
    type V = EntryModel;

    open spec fn view(&self) -> EntryModel {
        EntryModel {
            accession_number: self.accession_number@,
            version: self.version@,
            taxon_id: self.taxon_id,
            type_: self.type_@,
            name: self.name@,
            sequence: self.sequence@,
            go_references: strs(self.go_references@),
            ec_references: strs(self.ec_references@),
            ip_references: strs(self.ip_references@),
        }
    }
}

/// A row of the entry table.
pub struct EntryRow {
    pub id: u64,
    pub accession_number: String,
    pub version: String,
    pub taxon_id: i32,
    pub type_: String,
    pub name: String,
    pub sequence: String,
}

/// A row of the peptide table.
pub struct PeptideRow {
    pub id: u64,
    pub sequence: String,
    pub original_sequence: String,
    pub entry_id: u64,
    pub annotations: String,
}

/// A row of a cross-reference table.
pub struct RefRow {
    pub id: u64,
    pub entry_id: u64,
    pub code: String,
}

/// Everything that one accepted record yields.
pub struct StoredRows {
    pub entry: EntryRow,
    pub peptides: Vec<PeptideRow>,
    pub go: Vec<RefRow>,
    pub ec: Vec<RefRow>,
    pub ip: Vec<RefRow>,
}

/// Entry row as values: id, accession, version, taxon, type, name, sequence.
pub type EntryRowModel = (u64, Seq<char>, Seq<char>, i32, Seq<char>, Seq<char>, Seq<char>);

/// Peptide row as values: id, normalized and original sequence, entry id,
/// annotation summary.
pub type PeptideRowModel = (u64, Seq<char>, Seq<char>, u64, Seq<char>);

/// Cross-reference row as values: id, entry id, code.
pub type RefRowModel = (u64, u64, Seq<char>);

pub struct RowsModel {
    pub entry: EntryRowModel,
    pub peptides: Seq<PeptideRowModel>,
    pub go: Seq<RefRowModel>,
    pub ec: Seq<RefRowModel>,
    pub ip: Seq<RefRowModel>,
}

impl View for EntryRow {
    type V = EntryRowModel;

    open spec fn view(&self) -> EntryRowModel {
        (
            self.id,
            self.accession_number@,
            self.version@,
            self.taxon_id,
            self.type_@,
            self.name@,
            self.sequence@,
        )
    }
}

impl View for PeptideRow {
    type V = PeptideRowModel;

    open spec fn view(&self) -> PeptideRowModel {
        (self.id, self.sequence@, self.original_sequence@, self.entry_id, self.annotations@)
    }
}

impl View for RefRow {
    type V = RefRowModel;

    open spec fn view(&self) -> RefRowModel {
        (self.id, self.entry_id, self.code@)
    }
}

pub open spec fn ref_views(v: Seq<RefRow>) -> Seq<RefRowModel> {
    v.map_values(|r: RefRow| r@)
}

pub open spec fn peptide_views(v: Seq<PeptideRow>) -> Seq<PeptideRowModel> {
    v.map_values(|r: PeptideRow| r@)
}

impl View for StoredRows {
    type V = RowsModel;

    open spec fn view(&self) -> RowsModel {
        RowsModel {
            entry: self.entry@,
            peptides: peptide_views(self.peptides@),
            go: ref_views(self.go@),
            ec: ref_views(self.ec@),
            ip: ref_views(self.ip@),
        }
    }
}

/// The last surrogate id handed out in each table (0 before the first).
#[derive(Debug, PartialEq, Eq, Structural, Clone, Copy)]
pub struct Counters {
    pub entries: u64,
    pub peptides: u64,
    pub go: u64,
    pub ec: u64,
    pub ip: u64,
}

/// `s` with every `I` rewritten to `L`.
pub open spec fn il_normalized(s: Seq<char>) -> Seq<char> {
    Seq::new(s.len(), |i: int| if s[i] == 'I' { 'L' } else { s[i] })
}

/// The non-empty codes of `xs`, each behind the prefix `p`.
pub open spec fn prefixed_nonempty(xs: Seq<Seq<char>>, p: Seq<char>) -> Seq<Seq<char>>
    decreases xs.len(),
{
    if xs.len() == 0 {
        Seq::empty()
    } else {
        let rest = prefixed_nonempty(xs.drop_last(), p);
        if xs.last().len() > 0 {
            rest.push(p + xs.last())
        } else {
            rest
        }
    }
}

/// `items` joined with the separator `sep`.
pub open spec fn join(items: Seq<Seq<char>>, sep: char) -> Seq<char>
    decreases items.len(),
{
    if items.len() == 0 {
        Seq::empty()
    } else if items.len() == 1 {
        items[0]
    } else {
        join(items.drop_last(), sep).push(sep) + items.last()
    }
}

pub open spec fn ec_prefix() -> Seq<char> {
    seq!['E', 'C', ':']
}

pub open spec fn ipr_prefix() -> Seq<char> {
    seq!['I', 'P', 'R', ':']
}

/// The annotation summary of a record: its GO codes, then its non-empty EC
/// codes behind `EC:`, then its non-empty InterPro codes behind `IPR:`,
/// joined with `;`.
pub open spec fn annotation_summary(e: EntryModel) -> Seq<char> {
    join(
        e.go_references + prefixed_nonempty(e.ec_references, ec_prefix()) + prefixed_nonempty(
            e.ip_references,
            ipr_prefix(),
        ),
        ';',
    )
}

/// Cross-reference rows for `codes`, numbered after `last`, for `entry_id`.
pub open spec fn ref_rows(codes: Seq<Seq<char>>, last: u64, entry_id: u64) -> Seq<RefRowModel> {
    Seq::new(codes.len(), |i: int| ((last + i + 1) as u64, entry_id, codes[i]))
}

/// Peptide rows for the candidate peptides `peps` of record `e`, numbered
/// after `last`, for `entry_id`.
pub open spec fn peptide_rows(
    e: EntryModel,
    peps: Seq<Seq<char>>,
    last: u64,
    entry_id: u64,
) -> Seq<PeptideRowModel> {
    Seq::new(
        peps.len(),
        |i: int|
            (
                (last + i + 1) as u64,
                il_normalized(peps[i]),
                peps[i],
                entry_id,
                annotation_summary(e),
            ),
    )
}

/// The rows that record `e` with candidate peptides `peps` yields once
/// accepted, when the counters stand at `c`.
pub open spec fn rows_for(e: EntryModel, peps: Seq<Seq<char>>, c: Counters) -> RowsModel {
    let id = (c.entries + 1) as u64;
    RowsModel {
        entry: (id, e.accession_number, e.version, e.taxon_id, e.type_, e.name, e.sequence),
        peptides: peptide_rows(e, peps, c.peptides, id),
        go: ref_rows(e.go_references, c.go, id),
        ec: ref_rows(e.ec_references, c.ec, id),
        ip: ref_rows(e.ip_references, c.ip, id),
    }
}

/// The counters after record `e` with candidate peptides `peps` was accepted.
pub open spec fn advance(c: Counters, e: EntryModel, peps: Seq<Seq<char>>) -> Counters {
    Counters {
        entries: (c.entries + 1) as u64,
        peptides: (c.peptides + peps.len()) as u64,
        go: (c.go + e.go_references.len()) as u64,
        ec: (c.ec + e.ec_references.len()) as u64,
        ip: (c.ip + e.ip_references.len()) as u64,
    }
}

/// No counter would pass `u64::MAX` while storing `e` with `n_peptides`
/// candidate peptides.
pub open spec fn has_room(c: Counters, e: EntryModel, n_peptides: nat) -> bool {
    &&& c.entries < u64::MAX
    &&& c.peptides + n_peptides <= u64::MAX
    &&& c.go + e.go_references.len() <= u64::MAX
    &&& c.ec + e.ec_references.len() <= u64::MAX
    &&& c.ip + e.ip_references.len() <= u64::MAX
}

/// The validity table accepts `id`: it is in range and marked known.
pub open spec fn valid_taxon(taxons: Seq<bool>, id: i32) -> bool {
    0 <= id < taxons.len() && taxons[id as int]
}

/// Rewrites every `I` of a peptide sequence to `L`, the equivalence class
/// used for redundancy reduction; every other character stays in place.
pub fn normalize_peptide(s: &str) -> (r: String)
    ensures
        r@ == il_normalized(s@),
{
    let cs = chars_of(s);
    let mut r = String::new();
    let mut i: usize = 0;
    while i < cs.len()
        invariant
            i <= cs@.len(),
            cs@ == s@,
            r@ == il_normalized(s@.take(i as int)),
        decreases cs@.len() - i,
    {
        let c = cs[i];
        push_char(&mut r, if c == 'I' { 'L' } else { c });
        i = i + 1;
        assert(r@ =~= il_normalized(s@.take(i as int)));
    }
    assert(s@.take(cs@.len() as int) =~= s@);
    r
}

proof fn lemma_join_push(items: Seq<Seq<char>>, x: Seq<char>, sep: char)
    ensures
        join(items.push(x), sep) == if items.len() == 0 {
            x
        } else {
            join(items, sep).push(sep) + x
        },
{
    assert(items.push(x).drop_last() =~= items);
    if items.len() == 0 {
        assert(items.push(x)[0] == x);
    }
}

/// Appends `x` as one more item of the `sep`-joined text `out`; `first`
/// tells whether `out` holds no item yet.
fn push_item(out: &mut String, x: &str, sep: char, first: bool, items: Ghost<Seq<Seq<char>>>)
    requires
        old(out)@ == join(items@, sep),
        first == (items@.len() == 0),
    ensures
        final(out)@ == join(items@.push(x@), sep),
{
    proof {
        lemma_join_push(items@, x@, sep);
    }
    if !first {
        push_char(out, sep);
    } else {
        assert(old(out)@ =~= Seq::<char>::empty());
    }
    out.append(x);
}

/// `items` joined with `sep`, as `join` describes it.
pub fn join_strings(items: &Vec<String>, sep: char) -> (r: String)
    ensures
        r@ == join(strs(items@), sep),
{
    let mut out = String::new();
    let mut i: usize = 0;
    while i < items.len()
        invariant
            i <= items@.len(),
            out@ == join(strs(items@).take(i as int), sep),
        decreases items@.len() - i,
    {
        assert(strs(items@).take(i + 1) =~= strs(items@).take(i as int).push(items@[i as int]@));
        push_item(&mut out, items[i].as_str(), sep, i == 0, Ghost(strs(items@).take(i as int)));
        i = i + 1;
    }
    assert(strs(items@).take(i as int) =~= strs(items@));
    out
}

/// The annotation summary of `e`, as `annotation_summary` describes it.
pub fn summarize_annotations(e: &Entry) -> (r: String)
    ensures
        r@ == annotation_summary(e@),
{
    let mut out = String::new();
    let ghost mut items: Seq<Seq<char>> = Seq::empty();
    let mut first = true;
    let mut i: usize = 0;
    while i < e.go_references.len()
        invariant
            i <= e.go_references@.len(),
            items == e@.go_references.take(i as int),
            out@ == join(items, ';'),
            first == (items.len() == 0),
        decreases e.go_references@.len() - i,
    {
        push_item(&mut out, e.go_references[i].as_str(), ';', first, Ghost(items));
        proof {
            items = items.push(e.go_references@[i as int]@);
        }
        first = false;
        i = i + 1;
        assert(items =~= e@.go_references.take(i as int));
    }
    assert(e@.go_references.take(i as int) =~= e@.go_references);
    let ghost go_items = items;
    let mut i: usize = 0;
    while i < e.ec_references.len()
        invariant
            i <= e.ec_references@.len(),
            items == go_items + prefixed_nonempty(e@.ec_references.take(i as int), ec_prefix()),
            out@ == join(items, ';'),
            first == (items.len() == 0),
        decreases e.ec_references@.len() - i,
    {
        let code = &e.ec_references[i];
        let ghost pre = e@.ec_references.take(i as int);
        let ghost cur = e@.ec_references.take(i + 1);
        assert(cur.drop_last() =~= pre);
        assert(cur.last() == code@);
        if !code.as_str().is_empty() {
            let mut item = String::new();
            push_char(&mut item, 'E');
            push_char(&mut item, 'C');
            push_char(&mut item, ':');
            item.append(code.as_str());
            assert(item@ =~= ec_prefix() + code@);
            push_item(&mut out, item.as_str(), ';', first, Ghost(items));
            proof {
                items = items.push(item@);
            }
            first = false;
        }
        i = i + 1;
        assert(items =~= go_items + prefixed_nonempty(e@.ec_references.take(i as int), ec_prefix()));
    }
    assert(e@.ec_references.take(i as int) =~= e@.ec_references);
    let ghost ec_items = items;
    let mut i: usize = 0;
    while i < e.ip_references.len()
        invariant
            i <= e.ip_references@.len(),
            items == ec_items + prefixed_nonempty(e@.ip_references.take(i as int), ipr_prefix()),
            out@ == join(items, ';'),
            first == (items.len() == 0),
        decreases e.ip_references@.len() - i,
    {
        let code = &e.ip_references[i];
        let ghost pre = e@.ip_references.take(i as int);
        let ghost cur = e@.ip_references.take(i + 1);
        assert(cur.drop_last() =~= pre);
        assert(cur.last() == code@);
        if !code.as_str().is_empty() {
            let mut item = String::new();
            push_char(&mut item, 'I');
            push_char(&mut item, 'P');
            push_char(&mut item, 'R');
            push_char(&mut item, ':');
            item.append(code.as_str());
            assert(item@ =~= ipr_prefix() + code@);
            push_item(&mut out, item.as_str(), ';', first, Ghost(items));
            proof {
                items = items.push(item@);
            }
            first = false;
        }
        i = i + 1;
        assert(items =~= ec_items + prefixed_nonempty(e@.ip_references.take(i as int), ipr_prefix()));
    }
    assert(e@.ip_references.take(i as int) =~= e@.ip_references);
    out
}

proof fn lemma_ref_views_push(v: Seq<RefRow>, x: RefRow)
    ensures
        ref_views(v.push(x)) == ref_views(v).push(x@),
{
    assert(ref_views(v.push(x)) =~= ref_views(v).push(x@));
}

proof fn lemma_peptide_views_push(v: Seq<PeptideRow>, x: PeptideRow)
    ensures
        peptide_views(v.push(x)) == peptide_views(v).push(x@),
{
    assert(peptide_views(v.push(x)) =~= peptide_views(v).push(x@));
}

/// Cross-reference rows for `codes`, numbered after `last`, for `entry_id`.
fn make_ref_rows(codes: &Vec<String>, last: u64, entry_id: u64) -> (r: Vec<RefRow>)
    requires
        last + codes@.len() <= u64::MAX,
    ensures
        ref_views(r@) == ref_rows(strs(codes@), last, entry_id),
{
    let mut rows: Vec<RefRow> = Vec::new();
    let mut i: usize = 0;
    while i < codes.len()
        invariant
            i <= codes@.len(),
            last + codes@.len() <= u64::MAX,
            ref_views(rows@) == ref_rows(strs(codes@), last, entry_id).take(i as int),
        decreases codes@.len() - i,
    {
        let row = RefRow { id: last + i as u64 + 1, entry_id, code: codes[i].clone() };
        let ghost before = rows@;
        rows.push(row);
        proof {
            lemma_ref_views_push(before, row);
            assert(strs(codes@)[i as int] == codes@[i as int]@);
        }
        i = i + 1;
        assert(ref_views(rows@) =~= ref_rows(strs(codes@), last, entry_id).take(i as int));
    }
    assert(ref_rows(strs(codes@), last, entry_id).take(i as int) =~= ref_rows(
        strs(codes@),
        last,
        entry_id,
    ));
    rows
}

/// Peptide rows for the candidate peptides `peps` of `e`, numbered after
/// `last`, for `entry_id`.
fn make_peptide_rows(e: &Entry, peps: &Vec<String>, last: u64, entry_id: u64) -> (r: Vec<
    PeptideRow,
>)
    requires
        last + peps@.len() <= u64::MAX,
    ensures
        peptide_views(r@) == peptide_rows(e@, strs(peps@), last, entry_id),
{
    let summary = summarize_annotations(e);
    let ghost want = peptide_rows(e@, strs(peps@), last, entry_id);
    let mut rows: Vec<PeptideRow> = Vec::new();
    let mut i: usize = 0;
    while i < peps.len()
        invariant
            i <= peps@.len(),
            last + peps@.len() <= u64::MAX,
            summary@ == annotation_summary(e@),
            want == peptide_rows(e@, strs(peps@), last, entry_id),
            peptide_views(rows@) == want.take(i as int),
        decreases peps@.len() - i,
    {
        let p = &peps[i];
        let row = PeptideRow {
            id: last + i as u64 + 1,
            sequence: normalize_peptide(p.as_str()),
            original_sequence: p.clone(),
            entry_id,
            annotations: summary.clone(),
        };
        let ghost before = rows@;
        rows.push(row);
        proof {
            lemma_peptide_views_push(before, row);
            assert(strs(peps@)[i as int] == peps@[i as int]@);
        }
        i = i + 1;
        assert(peptide_views(rows@) =~= want.take(i as int));
    }
    assert(want.take(i as int) =~= want);
    rows
}

/// Whether `id` occurs in `ids`.
fn contains_id(ids: &Vec<i32>, id: i32) -> (r: bool)
    ensures
        r == ids@.contains(id),
{
    let mut i: usize = 0;
    while i < ids.len()
        invariant
            i <= ids@.len(),
            forall|x: int| 0 <= x < i ==> ids@[x] != id,
        decreases ids@.len() - i,
    {
        if ids[i] == id {
            return true;
        }
        i = i + 1;
    }
    false
}

/// Turns validated protein records into table rows. It owns the taxon
/// validity table, the set of taxon ids that were rejected, and one
/// surrogate-id counter per table.
pub struct TableWriter {
    taxons: Vec<bool>,
    wrong_ids: Vec<i32>,
    counters: Counters,
}

impl TableWriter {
    /// The validity table: `taxon_table()[id]` tells whether `id` is known.
    pub closed spec fn taxon_table(&self) -> Seq<bool> {
        self.taxons@
    }

    /// The distinct taxon ids of the records rejected so far.
    pub closed spec fn rejected(&self) -> Set<i32> {
        self.wrong_ids@.to_set()
    }

    pub closed spec fn counts(&self) -> Counters {
        self.counters
    }

    pub closed spec fn wf(&self) -> bool {
        self.wrong_ids@.no_duplicates()
    }

    /// A writer over the validity table `taxons`, with every counter at 0.
    pub fn new(taxons: Vec<bool>) -> (r: TableWriter)
        ensures
            r.wf(),
            r.taxon_table() == taxons@,
            r.rejected() == Set::<i32>::empty(),
            r.counts() == (Counters { entries: 0, peptides: 0, go: 0, ec: 0, ip: 0 }),
    {
        let r = TableWriter {
            taxons,
            wrong_ids: Vec::new(),
            counters: Counters { entries: 0, peptides: 0, go: 0, ec: 0, ip: 0 },
        };
        assert(r.wrong_ids@.to_set() =~= Set::<i32>::empty());
        r
    }

    /// The last id handed out in each table.
    pub fn counters(&self) -> (r: Counters)
        ensures
            r == self.counts(),
    {
        self.counters
    }

    /// The distinct rejected taxon ids, in the order they were first seen.
    pub fn rejected_ids(&self) -> (r: &Vec<i32>)
        requires
            self.wf(),
        ensures
            r@.to_set() == self.rejected(),
            r@.no_duplicates(),
    {
        &self.wrong_ids
    }

    /// Whether the validity table accepts `id`.
    pub fn is_valid_taxon(&self, id: i32) -> (r: bool)
        ensures
            r == valid_taxon(self.taxon_table(), id),
    {
        0 <= id && (id as usize) < self.taxons.len() && self.taxons[id as usize]
    }

    /// Whether storing `entry` with `n_peptides` candidate peptides keeps
    /// every counter within range.
    pub fn has_room(&self, entry: &Entry, n_peptides: usize) -> (r: bool)
        ensures
            r == has_room(self.counts(), entry@, n_peptides as nat),
    {
        let c = self.counters;
        c.entries < u64::MAX && n_peptides as u64 <= u64::MAX - c.peptides
            && entry.go_references.len() as u64 <= u64::MAX - c.go
            && entry.ec_references.len() as u64 <= u64::MAX - c.ec
            && entry.ip_references.len() as u64 <= u64::MAX - c.ip
    }

    /// Stores one record whose candidate peptides are `peptides`. A record
    /// whose taxon the validity table accepts gets the next entry id and
    /// yields all its rows at once; any other record yields no row, consumes
    /// no id, and has its taxon id added to the rejected set.
    pub fn store(&mut self, entry: Entry, peptides: Vec<String>) -> (r: Option<StoredRows>)
        requires
            old(self).wf(),
            has_room(old(self).counts(), entry@, peptides@.len()),
        ensures
            final(self).wf(),
            final(self).taxon_table() == old(self).taxon_table(),
            if valid_taxon(old(self).taxon_table(), entry.taxon_id) {
                &&& r matches Some(rows) && rows@ == rows_for(
                    entry@,
                    strs(peptides@),
                    old(self).counts(),
                )
                &&& final(self).counts() == advance(old(self).counts(), entry@, strs(peptides@))
                &&& final(self).rejected() == old(self).rejected()
            } else {
                &&& r is None
                &&& final(self).counts() == old(self).counts()
                &&& final(self).rejected() == old(self).rejected().insert(entry.taxon_id)
            },
    {
        if !self.is_valid_taxon(entry.taxon_id) {
            if !contains_id(&self.wrong_ids, entry.taxon_id) {
                let ghost before = self.wrong_ids@;
                self.wrong_ids.push(entry.taxon_id);
                proof {
                    before.lemma_push_to_set_commute(entry.taxon_id);
                    assert(self.wrong_ids@.to_set() =~= before.to_set().insert(entry.taxon_id));
                    assert forall|a: int, b: int|
                        0 <= a < b < self.wrong_ids@.len() implies self.wrong_ids@[a]
                        != self.wrong_ids@[b] by {
                        if b == before.len() {
                            assert(before.contains(before[a]));
                        }
                    }
                }
            } else {
                assert(self.wrong_ids@.to_set() =~= self.wrong_ids@.to_set().insert(entry.taxon_id));
            }
            return None;
        }
        let c = self.counters;
        let id = c.entries + 1;
        let go = make_ref_rows(&entry.go_references, c.go, id);
        let ec = make_ref_rows(&entry.ec_references, c.ec, id);
        let ip = make_ref_rows(&entry.ip_references, c.ip, id);
        let peps = make_peptide_rows(&entry, &peptides, c.peptides, id);
        self.counters = Counters {
            entries: id,
            peptides: c.peptides + peptides.len() as u64,
            go: c.go + entry.go_references.len() as u64,
            ec: c.ec + entry.ec_references.len() as u64,
            ip: c.ip + entry.ip_references.len() as u64,
        };
        let row = EntryRow {
            id,
            accession_number: entry.accession_number,
            version: entry.version,
            taxon_id: entry.taxon_id,
            type_: entry.type_,
            name: entry.name,
            sequence: entry.sequence,
        };
        Some(StoredRows { entry: row, peptides: peps, go, ec, ip })
    }
}

/// The normalized form of a peptide holds no `I`, has the length of the
/// original, turns each `I` of the original into `L` at the same position,
/// and keeps every other character.
pub proof fn lemma_il_normalization(s: Seq<char>)
    ensures
        il_normalized(s).len() == s.len(),
        !il_normalized(s).contains('I'),
        forall|i: int| 0 <= i < s.len() && s[i] == 'I' ==> #[trigger] il_normalized(s)[i] == 'L',
        forall|i: int| 0 <= i < s.len() && s[i] != 'I' ==> #[trigger] il_normalized(s)[i] == s[i],
{
}

/// The counters of a fresh writer.
pub open spec fn zero_counters() -> Counters {
    Counters { entries: 0, peptides: 0, go: 0, ec: 0, ip: 0 }
}

/// What a writer over the validity table `taxons`, with counters `c`, yields
/// for each of the records `recs` (each with its candidate peptides).
pub open spec fn run(
    taxons: Seq<bool>,
    c: Counters,
    recs: Seq<(EntryModel, Seq<Seq<char>>)>,
) -> Seq<Option<RowsModel>>
    decreases recs.len(),
{
    if recs.len() == 0 {
        Seq::empty()
    } else {
        let (e, p) = recs[0];
        if valid_taxon(taxons, e.taxon_id) {
            seq![Some(rows_for(e, p, c))] + run(taxons, advance(c, e, p), recs.drop_first())
        } else {
            seq![None] + run(taxons, c, recs.drop_first())
        }
    }
}

/// Every record of `recs` that is accepted finds room in the counters.
pub open spec fn run_fits(taxons: Seq<bool>, c: Counters, recs: Seq<(EntryModel, Seq<Seq<char>>)>) -> bool
    decreases recs.len(),
{
    if recs.len() == 0 {
        true
    } else {
        let (e, p) = recs[0];
        if valid_taxon(taxons, e.taxon_id) {
            has_room(c, e, p.len()) && run_fits(taxons, advance(c, e, p), recs.drop_first())
        } else {
            run_fits(taxons, c, recs.drop_first())
        }
    }
}

/// `rows` with every surrogate id moved up by the counters `d`: entry ids
/// (also where rows refer to their entry) by `d.entries`, and the ids of each
/// other table by its own counter.
pub open spec fn shift(rows: RowsModel, d: Counters) -> RowsModel {
    let eid = (rows.entry.0 + d.entries) as u64;
    RowsModel {
        entry: (
            eid,
            rows.entry.1,
            rows.entry.2,
            rows.entry.3,
            rows.entry.4,
            rows.entry.5,
            rows.entry.6,
        ),
        peptides: rows.peptides.map_values(
            |r: PeptideRowModel| ((r.0 + d.peptides) as u64, r.1, r.2, eid, r.4),
        ),
        go: rows.go.map_values(|r: RefRowModel| ((r.0 + d.go) as u64, eid, r.2)),
        ec: rows.ec.map_values(|r: RefRowModel| ((r.0 + d.ec) as u64, eid, r.2)),
        ip: rows.ip.map_values(|r: RefRowModel| ((r.0 + d.ip) as u64, eid, r.2)),
    }
}

pub open spec fn shift_all(out: Seq<Option<RowsModel>>, d: Counters) -> Seq<Option<RowsModel>> {
    out.map_values(
        |o: Option<RowsModel>|
            match o {
                Some(rows) => Some(shift(rows, d)),
                None => None,
            },
    )
}

/// The counters `c` moved up by `d`.
pub open spec fn add_counters(c: Counters, d: Counters) -> Counters {
    Counters {
        entries: (c.entries + d.entries) as u64,
        peptides: (c.peptides + d.peptides) as u64,
        go: (c.go + d.go) as u64,
        ec: (c.ec + d.ec) as u64,
        ip: (c.ip + d.ip) as u64,
    }
}

proof fn lemma_shift_compose(rows: RowsModel, a: Counters, b: Counters)
    requires
        rows.entry.0 + a.entries + b.entries <= u64::MAX,
        forall|i: int| 0 <= i < rows.peptides.len() ==> #[trigger] rows.peptides[i].0 + a.peptides + b.peptides <= u64::MAX,
        forall|i: int| 0 <= i < rows.go.len() ==> #[trigger] rows.go[i].0 + a.go + b.go <= u64::MAX,
        forall|i: int| 0 <= i < rows.ec.len() ==> #[trigger] rows.ec[i].0 + a.ec + b.ec <= u64::MAX,
        forall|i: int| 0 <= i < rows.ip.len() ==> #[trigger] rows.ip[i].0 + a.ip + b.ip <= u64::MAX,
    ensures
        shift(shift(rows, a), b) == shift(rows, add_counters(a, b)),
{
    let l = shift(shift(rows, a), b);
    let r = shift(rows, add_counters(a, b));
    assert(l.peptides =~= r.peptides);
    assert(l.go =~= r.go);
    assert(l.ec =~= r.ec);
    assert(l.ip =~= r.ip);
}

/// The rows of one accepted record, with the counters at `c`, are those with
/// fresh counters, renumbered by `c`.
proof fn lemma_rows_for_shift(e: EntryModel, p: Seq<Seq<char>>, c: Counters)
    requires
        has_room(c, e, p.len()),
    ensures
        rows_for(e, p, c) == shift(rows_for(e, p, zero_counters()), c),
{
    let l = rows_for(e, p, c);
    let r = shift(rows_for(e, p, zero_counters()), c);
    assert(l.peptides =~= r.peptides);
    assert(l.go =~= r.go);
    assert(l.ec =~= r.ec);
    assert(l.ip =~= r.ip);
}

proof fn lemma_run_shift(
    taxons: Seq<bool>,
    c: Counters,
    d: Counters,
    recs: Seq<(EntryModel, Seq<Seq<char>>)>,
)
    requires
        run_fits(taxons, add_counters(c, d), recs),
        c.entries + d.entries <= u64::MAX,
        c.peptides + d.peptides <= u64::MAX,
        c.go + d.go <= u64::MAX,
        c.ec + d.ec <= u64::MAX,
        c.ip + d.ip <= u64::MAX,
    ensures
        run(taxons, add_counters(c, d), recs) == shift_all(run(taxons, c, recs), d),
    decreases recs.len(),
{
    if recs.len() > 0 {
        let (e, p) = recs[0];
        let cd = add_counters(c, d);
        if valid_taxon(taxons, e.taxon_id) {
            assert(add_counters(advance(c, e, p), d) == advance(cd, e, p));
            lemma_run_shift(taxons, advance(c, e, p), d, recs.drop_first());
            lemma_rows_for_shift(e, p, cd);
            lemma_rows_for_shift(e, p, c);
            let base = rows_for(e, p, zero_counters());
            assert forall|i: int| 0 <= i < base.peptides.len() implies #[trigger] base.peptides[i].0 + c.peptides + d.peptides <= u64::MAX by {}
            assert forall|i: int| 0 <= i < base.go.len() implies #[trigger] base.go[i].0 + c.go + d.go <= u64::MAX by {}
            assert forall|i: int| 0 <= i < base.ec.len() implies #[trigger] base.ec[i].0 + c.ec + d.ec <= u64::MAX by {}
            assert forall|i: int| 0 <= i < base.ip.len() implies #[trigger] base.ip[i].0 + c.ip + d.ip <= u64::MAX by {}
            lemma_shift_compose(base, c, d);
            assert(run(taxons, cd, recs) =~= shift_all(run(taxons, c, recs), d));
        } else {
            lemma_run_shift(taxons, c, d, recs.drop_first());
            assert(run(taxons, cd, recs) =~= shift_all(run(taxons, c, recs), d));
        }
    }
}

/// Storing the same records again, with the counters standing at `c` instead
/// of fresh ones, yields the same rows, with every id renumbered by `c`; from
/// fresh counters the ids of each table start at 1.
pub proof fn lemma_rerun_isomorphic(
    taxons: Seq<bool>,
    c: Counters,
    recs: Seq<(EntryModel, Seq<Seq<char>>)>,
)
    requires
        run_fits(taxons, c, recs),
    ensures
        run(taxons, c, recs) == shift_all(run(taxons, zero_counters(), recs), c),
{
    assert(add_counters(zero_counters(), c) == c);
    lemma_run_shift(taxons, zero_counters(), c, recs);
}

/// The taxon id that a line of the taxon list names: its first tab-separated
/// field, trimmed, as a non-negative 32-bit decimal integer.
pub open spec fn listed_taxon(s: Seq<char>) -> Option<int> {
    let v = decimal_value(trim(split_on(s, '\t')[0]));
    if v is Some && 0 <= v.unwrap() <= i32::MAX {
        v
    } else {
        None
    }
}

/// Reads the taxon id of one line of the taxon list.
fn read_listed_taxon(line: &str) -> (r: Option<usize>)
    ensures
        match r {
            Some(k) => listed_taxon(line@) == Some(k as int),
            None => listed_taxon(line@) is None,
        },
{
    let cs = chars_of(line);
    let parts = split_fields(cs.as_slice(), '\t');
    assert(char_views(parts@)[0] == parts@[0]@);
    let first = chars_of(trim_string(parts[0].as_slice()).as_str());
    match parse_i32(first.as_slice()) {
        Some(v) => if v >= 0 {
            Some(v as usize)
        } else {
            None
        },
        None => None,
    }
}

/// The validity table of a taxon list: one slot per id up to the highest
/// listed one, true exactly for the listed ids. The first line that names no
/// taxon id is reported.
pub fn validity_table(lines: &Vec<String>) -> (r: Result<Vec<bool>, ParseError>)
    ensures
        match r {
            Ok(t) => (forall|i: int| 0 <= i < lines@.len() ==> (#[trigger] listed_taxon(lines@[i]@)) is Some)
                && (forall|i: int| 0 <= i < lines@.len() ==> listed_taxon(lines@[i]@).unwrap() < t@.len())
                && (forall|k: int|
                0 <= k < t@.len() ==> (#[trigger] t@[k] <==> exists|i: int|
                    0 <= i < lines@.len() && #[trigger] listed_taxon(lines@[i]@) == Some(k)))
                && (t@.len() == 0 || exists|i: int|
                0 <= i < lines@.len() && listed_taxon(lines@[i]@) == Some(t@.len() - 1)),
            Err(e) => e.line < lines@.len() && listed_taxon(lines@[e.line as int]@) is None && (
            forall|i: int| 0 <= i < e.line ==> (#[trigger] listed_taxon(lines@[i]@)) is Some),
        },
{
    let mut t: Vec<bool> = Vec::new();
    let mut n: usize = 0;
    while n < lines.len()
        invariant
            n <= lines@.len(),
            forall|i: int| 0 <= i < n ==> (#[trigger] listed_taxon(lines@[i]@)) is Some,
            forall|i: int| 0 <= i < n ==> listed_taxon(lines@[i]@).unwrap() < t@.len(),
            forall|k: int|
                0 <= k < t@.len() ==> (#[trigger] t@[k] <==> exists|i: int|
                    0 <= i < n && #[trigger] listed_taxon(lines@[i]@) == Some(k)),
            t@.len() == 0 || exists|i: int|
                0 <= i < n && listed_taxon(lines@[i]@) == Some(t@.len() - 1),
        decreases lines@.len() - n,
    {
        let k = match read_listed_taxon(lines[n].as_str()) {
            Some(k) => k,
            None => return Err(ParseError { line: n }),
        };
        let ghost old_len = t@.len();
        while t.len() <= k
            invariant
                old_len <= t@.len() <= k + 1 || t@.len() == old_len,
                old_len <= t@.len(),
                forall|i: int| 0 <= i < n ==> listed_taxon(lines@[i]@).unwrap() < old_len,
                forall|x: int|
                    0 <= x < t@.len() ==> (#[trigger] t@[x] <==> exists|i: int|
                        0 <= i < n && #[trigger] listed_taxon(lines@[i]@) == Some(x)),
            decreases k + 1 - t@.len(),
        {
            let ghost x = t@.len() as int;
            assert forall|i: int| 0 <= i < n implies #[trigger] listed_taxon(lines@[i]@) != Some(x) by {
                assert(listed_taxon(lines@[i]@).unwrap() < old_len);
            }
            t.push(false);
        }
        t.set(k, true);
        assert(listed_taxon(lines@[n as int]@) == Some(k as int));
        n = n + 1;
        assert forall|x: int| 0 <= x < t@.len() implies (#[trigger] t@[x] <==> exists|i: int|
            0 <= i < n && #[trigger] listed_taxon(lines@[i]@) == Some(x)) by {
            if x == k {
                assert(listed_taxon(lines@[n - 1]@) == Some(x));
            }
        }
        proof {
            if t@.len() == old_len {
                if t@.len() > 0 {
                    let w = choose|i: int|
                        0 <= i < n - 1 && listed_taxon(lines@[i]@) == Some(old_len - 1);
                    assert(0 <= w < n && listed_taxon(lines@[w]@) == Some(t@.len() - 1));
                }
            } else {
                assert(listed_taxon(lines@[n - 1]@) == Some(t@.len() - 1));
            }
        }
    }
    Ok(t)
}

} // verus!
