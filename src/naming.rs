//! Turning a UniProt XML entry into the fields of one tab-separated record:
//! which of its names to use, its taxon, and its cross-references.

use vstd::prelude::*;
use vstd::string::StringExecFns;
use crate::fanout::{join, join_strings};
use crate::taxonomy::strs;

verus! {

/// The names of a protein, a component or a domain: the full recommended
/// name, if any, and the full submitted names, in document order.
pub struct Names {
    pub recommended: Option<String>,
    pub submitted: Vec<String>,
}

pub type NamesModel = (Option<Seq<char>>, Seq<Seq<char>>);

impl View for Names {
    type V = NamesModel;

    open spec fn view(&self) -> NamesModel {
        (
            match self.recommended {
                Some(r) => Some(r@),
                None => None,
            },
            strs(self.submitted@),
        )
    }
}

pub open spec fn names_views(v: Seq<Names>) -> Seq<NamesModel> {
    v.map_values(|n: Names| n@)
}

/// Scans `list` from its last element backwards: the first recommended name
/// met ends the scan; until then `sub`, while empty, takes the last submitted
/// name of each element passed. Gives the recommended name found, if any, and
/// the final `sub`.
pub open spec fn scan_names(list: Seq<NamesModel>, sub: Seq<char>) -> (Option<Seq<char>>, Seq<char>)
    decreases list.len(),
{
    if list.len() == 0 {
        (None, sub)
    } else {
        let n = list.last();
        if n.0 is Some {
            (n.0, sub)
        } else {
            let next = if sub.len() == 0 && n.1.len() > 0 {
                n.1.last()
            } else {
                sub
            };
            scan_names(list.drop_last(), next)
        }
    }
}

/// The name of an entry: the last recommended name of its components, else of
/// its domains, else the protein's own recommended name, else the submitted
/// name found while scanning components and domains, else the protein's last
/// submitted name.
pub open spec fn name_of(protein: NamesModel, components: Seq<NamesModel>, domains: Seq<NamesModel>) -> Option<
    Seq<char>,
> {
    let (r1, s1) = scan_names(components, Seq::empty());
    let (r2, s2) = scan_names(domains, s1);
    if r1 is Some {
        r1
    } else if r2 is Some {
        r2
    } else if protein.0 is Some {
        protein.0
    } else if s2.len() > 0 {
        Some(s2)
    } else if protein.1.len() > 0 {
        Some(protein.1.last())
    } else {
        None
    }
}

/// Runs `scan_names` over `list` starting from `sub`.
fn scan(list: &Vec<Names>, start: String) -> (r: (Option<String>, String))
    ensures
        scan_names(names_views(list@), start@).0 == match r.0 {
            Some(x) => Some(x@),
            None => None,
        },
        scan_names(names_views(list@), start@).1 == r.1@,
{
    let ghost all = names_views(list@);
    let ghost sub0 = start@;
    let mut sub = start;
    let mut i: usize = list.len();
    assert(all.take(i as int) =~= all);
    while i > 0
        invariant
            i <= list@.len(),
            all == names_views(list@),
            sub0 == start@,
            scan_names(all, sub0) == scan_names(all.take(i as int), sub@),
        decreases i,
    {
        let n = &list[i - 1];
        let ghost pre = all.take(i as int);
        assert(pre.drop_last() =~= all.take(i - 1));
        assert(pre.last() == n@);
        match &n.recommended {
            Some(x) => {
                let found = x.clone();
                assert(n@.0 == Some(found@));
                assert(scan_names(pre, sub@) == (Some(found@), sub@));
                return (Some(found), sub);
            },
            None => {},
        }
        if sub.as_str().is_empty() && n.submitted.len() > 0 {
            sub = n.submitted[n.submitted.len() - 1].clone();
            assert(n@.1.last() == sub@);
        }
        i = i - 1;
    }
    (None, sub)
}

/// The name of an entry, as `name_of` describes it; `None` when it has none.
pub fn parse_name(protein: &Names, components: &Vec<Names>, domains: &Vec<Names>) -> (r: Option<
    String,
>)
    ensures
        match r {
            Some(x) => name_of(protein@, names_views(components@), names_views(domains@)) == Some(
                x@,
            ),
            None => name_of(protein@, names_views(components@), names_views(domains@)) is None,
        },
{
    let (r1, s1) = scan(components, String::new());
    if let Some(x) = r1 {
        return Some(x);
    }
    let (r2, s2) = scan(domains, s1);
    if let Some(x) = r2 {
        return Some(x);
    }
    match &protein.recommended {
        Some(x) => Some(x.clone()),
        None => {
            if !s2.as_str().is_empty() {
                Some(s2)
            } else if protein.submitted.len() > 0 {
                Some(protein.submitted[protein.submitted.len() - 1].clone())
            } else {
                None
            }
        },
    }
}

/// A cross-reference of an entry or of its organism: database and id.
pub struct DbRef {
    pub ty: String,
    pub id: String,
}

pub open spec fn ref_pairs(v: Seq<DbRef>) -> Seq<(Seq<char>, Seq<char>)> {
    v.map_values(|r: DbRef| (r.ty@, r.id@))
}

/// The ids of the references of `refs` into the database `ty`, in order.
pub open spec fn ids_of(refs: Seq<(Seq<char>, Seq<char>)>, ty: Seq<char>) -> Seq<Seq<char>>
    decreases refs.len(),
{
    if refs.len() == 0 {
        Seq::empty()
    } else if refs.last().0 == ty {
        ids_of(refs.drop_last(), ty).push(refs.last().1)
    } else {
        ids_of(refs.drop_last(), ty)
    }
}

/// The fields of the tab-separated record of an entry: accession, sequence,
/// name, version, then its EC, GO and InterPro ids each joined with `;`, the
/// status, and the id of the last NCBI Taxonomy reference of its organism
/// (empty when there is none).
pub open spec fn record_fields(
    accession: Seq<char>,
    sequence: Seq<char>,
    name: Seq<char>,
    version: Seq<char>,
    organism_refs: Seq<(Seq<char>, Seq<char>)>,
    refs: Seq<(Seq<char>, Seq<char>)>,
) -> Seq<Seq<char>> {
    let taxa = ids_of(organism_refs, "NCBI Taxonomy"@);
    seq![
        accession,
        sequence,
        name,
        version,
        join(ids_of(refs, "EC"@), ';'),
        join(ids_of(refs, "GO"@), ';'),
        join(ids_of(refs, "InterPro"@), ';'),
        "swissprot"@,
        if taxa.len() > 0 { taxa.last() } else { Seq::empty() },
    ]
}

/// The ids of the references of `refs` into the database `ty`.
fn collect_ids(refs: &Vec<DbRef>, ty: &str) -> (r: Vec<String>)
    ensures
        strs(r@) == ids_of(ref_pairs(refs@), ty@),
{
    let wanted = String::from_str(ty);
    let ghost all = ref_pairs(refs@);
    let mut out: Vec<String> = Vec::new();
    let mut i: usize = 0;
    while i < refs.len()
        invariant
            i <= refs@.len(),
            wanted@ == ty@,
            all == ref_pairs(refs@),
            strs(out@) == ids_of(all.take(i as int), ty@),
        decreases refs@.len() - i,
    {
        let ghost pre = all.take(i as int);
        let ghost cur = all.take(i + 1);
        assert(cur.drop_last() =~= pre);
        assert(cur.last() == (refs@[i as int].ty@, refs@[i as int].id@));
        if refs[i].ty == wanted {
            let ghost before = out@;
            out.push(refs[i].id.clone());
            assert(strs(out@) =~= strs(before).push(refs@[i as int].id@));
        }
        i = i + 1;
    }
    assert(all.take(i as int) =~= all);
    out
}

/// The fields of the tab-separated record of an entry, as `record_fields`
/// describes them.
pub fn entry_fields(
    accession: String,
    sequence: String,
    name: String,
    version: String,
    organism_refs: &Vec<DbRef>,
    refs: &Vec<DbRef>,
) -> (r: Vec<String>)
    ensures
        strs(r@) == record_fields(
            accession@,
            sequence@,
            name@,
            version@,
            ref_pairs(organism_refs@),
            ref_pairs(refs@),
        ),
{
    let taxa = collect_ids(organism_refs, "NCBI Taxonomy");
    let taxon = if taxa.len() > 0 {
        taxa[taxa.len() - 1].clone()
    } else {
        String::new()
    };
    let ec = join_strings(&collect_ids(refs, "EC"), ';');
    let go = join_strings(&collect_ids(refs, "GO"), ';');
    let ip = join_strings(&collect_ids(refs, "InterPro"), ';');
    let mut fields: Vec<String> = Vec::new();
    fields.push(accession);
    fields.push(sequence);
    fields.push(name);
    fields.push(version);
    fields.push(ec);
    fields.push(go);
    fields.push(ip);
    fields.push(String::from_str("swissprot"));
    fields.push(taxon);
    let ghost want = record_fields(
        accession@,
        sequence@,
        name@,
        version@,
        ref_pairs(organism_refs@),
        ref_pairs(refs@),
    );
    assert(strs(fields@) =~= want);
    fields
}

} // verus!
