//! Reading protein records from a tab-separated table whose first line names
//! the columns.

use vstd::prelude::*;
use vstd::string::StringExecFns;
use crate::text::{char_views, chars_of, split_on, split_fields, trim, trim_string, parse_i32, decimal_value, fits_i32};
use crate::taxonomy::strs;
use crate::fanout::{Entry, EntryModel};

verus! {

/// Each part of `parts` without surrounding whitespace.
pub open spec fn trimmed_all(parts: Seq<Seq<char>>) -> Seq<Seq<char>> {
    parts.map_values(|x: Seq<char>| trim(x))
}

/// The last position of `name` among `cols`.
pub open spec fn last_index_of(cols: Seq<Seq<char>>, name: Seq<char>) -> Option<int>
    decreases cols.len(),
{
    if cols.len() == 0 {
        None
    } else if cols.last() == name {
        Some(cols.len() - 1)
    } else {
        last_index_of(cols.drop_last(), name)
    }
}

/// The field of `fields` under the column `name`, if both exist.
pub open spec fn field_named(cols: Seq<Seq<char>>, fields: Seq<Seq<char>>, name: Seq<char>) -> Option<
    Seq<char>,
> {
    match last_index_of(cols, name) {
        Some(i) => if i < fields.len() {
            Some(fields[i])
        } else {
            None
        },
        None => None,
    }
}

/// The `;`-separated codes of a field, each trimmed.
pub open spec fn codes_of(f: Seq<char>) -> Seq<Seq<char>> {
    trimmed_all(split_on(f, ';'))
}

/// The record that `line` holds under the columns `cols`: the line is trimmed
/// and split at tabs, each named field is trimmed, the organism id must be a
/// 32-bit decimal integer, and the three reference fields are split at `;`.
pub open spec fn record_of(cols: Seq<Seq<char>>, line: Seq<char>) -> Option<EntryModel> {
    let fields = split_on(trim(line), '\t');
    let acc = field_named(cols, fields, "Entry"@);
    let seq = field_named(cols, fields, "Sequence"@);
    let name = field_named(cols, fields, "Protein names"@);
    let version = field_named(cols, fields, "Version (entry)"@);
    let ec = field_named(cols, fields, "EC number"@);
    let go = field_named(cols, fields, "Gene ontology IDs"@);
    let ip = field_named(cols, fields, "Cross-reference (InterPro)"@);
    let status = field_named(cols, fields, "Status"@);
    let organism = field_named(cols, fields, "Organism ID"@);
    if acc is Some && seq is Some && name is Some && version is Some && ec is Some && go is Some
        && ip is Some && status is Some && organism is Some && decimal_value(
        trim(organism.unwrap()),
    ) is Some && fits_i32(decimal_value(trim(organism.unwrap())).unwrap()) {
        Some(
            EntryModel {
                accession_number: trim(acc.unwrap()),
                version: trim(version.unwrap()),
                taxon_id: decimal_value(trim(organism.unwrap())).unwrap() as i32,
                type_: trim(status.unwrap()),
                name: trim(name.unwrap()),
                sequence: trim(seq.unwrap()),
                go_references: codes_of(go.unwrap()),
                ec_references: codes_of(ec.unwrap()),
                ip_references: codes_of(ip.unwrap()),
            },
        )
    } else {
        None
    }
}

/// Trims every part of `parts`.
fn trim_parts(parts: &Vec<Vec<char>>) -> (r: Vec<String>)
    ensures
        strs(r@) == trimmed_all(char_views(parts@)),
{
    let ghost want = trimmed_all(char_views(parts@));
    let mut out: Vec<String> = Vec::new();
    let mut i: usize = 0;
    while i < parts.len()
        invariant
            i <= parts@.len(),
            want == trimmed_all(char_views(parts@)),
            strs(out@) == want.take(i as int),
        decreases parts@.len() - i,
    {
        let t = trim_string(parts[i].as_slice());
        assert(char_views(parts@)[i as int] == parts@[i as int]@);
        let ghost before = out@;
        out.push(t);
        assert(strs(out@) =~= strs(before).push(t@));
        i = i + 1;
        assert(strs(out@) =~= want.take(i as int));
    }
    assert(want.take(i as int) =~= want);
    out
}

/// Splits a reference field into its trimmed codes.
fn split_codes(f: &Vec<char>) -> (r: Vec<String>)
    ensures
        strs(r@) == codes_of(f@),
{
    let parts = split_fields(f.as_slice(), ';');
    trim_parts(&parts)
}

/// Reads the records of a tab-separated protein table.
pub struct TabParser {
    columns: Vec<String>,
    min_length: u32,
    max_length: u32,
    verbose: bool,
}

impl TabParser {
    /// The trimmed column names of the header.
    pub closed spec fn columns(&self) -> Seq<Seq<char>> {
        strs(self.columns@)
    }

    /// The peptide length bounds and the verbosity.
    pub closed spec fn settings(&self) -> (u32, u32, bool) {
        (self.min_length, self.max_length, self.verbose)
    }

    /// A parser for the table whose header line is `header`; the peptide
    /// length bounds and the verbosity are kept for the caller.
    pub fn new(header: &str, peptide_min: u32, peptide_max: u32, verbose: bool) -> (r: TabParser)
        ensures
            r.columns() == trimmed_all(split_on(header@, '\t')),
            r.settings() == (peptide_min, peptide_max, verbose),
    {
        let cs = chars_of(header);
        let parts = split_fields(cs.as_slice(), '\t');
        TabParser {
            columns: trim_parts(&parts),
            min_length: peptide_min,
            max_length: peptide_max,
            verbose,
        }
    }

    pub fn min_length(&self) -> (r: u32)
        ensures
            r == self.settings().0,
    {
        self.min_length
    }

    pub fn max_length(&self) -> (r: u32)
        ensures
            r == self.settings().1,
    {
        self.max_length
    }

    pub fn verbose(&self) -> (r: bool)
        ensures
            r == self.settings().2,
    {
        self.verbose
    }

    /// The last position of the column `name`.
    pub fn column(&self, name: &str) -> (r: Option<usize>)
        ensures
            match r {
                Some(i) => last_index_of(self.columns(), name@) == Some(i as int),
                None => last_index_of(self.columns(), name@) is None,
            },
    {
        let wanted = String::from_str(name);
        let mut i: usize = self.columns.len();
        assert(self.columns().take(i as int) =~= self.columns());
        while i > 0
            invariant
                i <= self.columns@.len(),
                wanted@ == name@,
                last_index_of(self.columns(), name@) == last_index_of(
                    self.columns().take(i as int),
                    name@,
                ),
            decreases i,
        {
            let ghost pre = self.columns().take(i as int);
            assert(pre.drop_last() =~= self.columns().take(i - 1));
            assert(pre.last() == self.columns@[i - 1]@);
            if self.columns[i - 1] == wanted {
                return Some(i - 1);
            }
            i = i - 1;
        }
        None
    }

    /// The field under the column `name`.
    fn field<'a>(&self, fields: &'a Vec<Vec<char>>, name: &str) -> (r: Option<&'a Vec<char>>)
        ensures
            match r {
                Some(f) => field_named(
                    self.columns(),
                    char_views(fields@),
                    name@,
                ) == Some(f@),
                None => field_named(
                    self.columns(),
                    char_views(fields@),
                    name@,
                ) is None,
            },
    {
        match self.column(name) {
            Some(i) => if i < fields.len() {
                Some(&fields[i])
            } else {
                None
            },
            None => None,
        }
    }

    /// The record on `line`; `None` when a column is missing or the
    /// organism id is not a number.
    pub fn parse_line(&self, line: &str) -> (r: Option<Entry>)
        ensures
            match r {
                Some(e) => record_of(self.columns(), line@) == Some(e@),
                None => record_of(self.columns(), line@) is None,
            },
    {
        let cs = chars_of(line);
        let trimmed = trim_string(cs.as_slice());
        let tcs = chars_of(trimmed.as_str());
        let fields = split_fields(tcs.as_slice(), '\t');
        let acc = self.field(&fields, "Entry");
        let seq = self.field(&fields, "Sequence");
        let name = self.field(&fields, "Protein names");
        let version = self.field(&fields, "Version (entry)");
        let ec = self.field(&fields, "EC number");
        let go = self.field(&fields, "Gene ontology IDs");
        let ip = self.field(&fields, "Cross-reference (InterPro)");
        let status = self.field(&fields, "Status");
        let organism = self.field(&fields, "Organism ID");
        match (acc, seq, name, version, ec, go, ip, status, organism) {
            (
                Some(acc),
                Some(seq),
                Some(name),
                Some(version),
                Some(ec),
                Some(go),
                Some(ip),
                Some(status),
                Some(organism),
            ) => {
                let org = chars_of(trim_string(organism.as_slice()).as_str());
                let taxon_id = match parse_i32(org.as_slice()) {
                    Some(t) => t,
                    None => return None,
                };
                let e = Entry {
                    accession_number: trim_string(acc.as_slice()),
                    version: trim_string(version.as_slice()),
                    taxon_id,
                    type_: trim_string(status.as_slice()),
                    name: trim_string(name.as_slice()),
                    sequence: trim_string(seq.as_slice()),
                    go_references: split_codes(go),
                    ec_references: split_codes(ec),
                    ip_references: split_codes(ip),
                };
                Some(e)
            },
            _ => None,
        }
    }
}

} // verus!
