use unipept_build::digest::digest;
use unipept_build::naming::{entry_fields, parse_name, DbRef, Names};
use unipept_build::tabular::TabParser;

const HEADER: &str = "Entry\tSequence\tProtein names\tVersion (entry)\tEC number\tGene ontology IDs\tCross-reference (InterPro)\tStatus\tOrganism ID";

#[test]
fn tab_parser_reads_record() {
    let p = TabParser::new(HEADER, 5, 50, false);
    assert_eq!(p.column("Status"), Some(7));
    assert_eq!(p.column("Nope"), None);
    let e = p
        .parse_line("  Q8N158\tMKIK\t Name \t2\t1.1.1.1; 2.2\tGO:1\t\tswissprot\t 9606 \n")
        .unwrap();
    assert_eq!(e.accession_number, "Q8N158");
    assert_eq!(e.sequence, "MKIK");
    assert_eq!(e.name, "Name");
    assert_eq!(e.version, "2");
    assert_eq!(e.ec_references, vec!["1.1.1.1", "2.2"]);
    assert_eq!(e.go_references, vec!["GO:1"]);
    assert_eq!(e.ip_references, vec![""]);
    assert_eq!(e.type_, "swissprot");
    assert_eq!(e.taxon_id, 9606);
    assert_eq!((p.min_length(), p.max_length(), p.verbose()), (5, 50, false));
}

#[test]
fn tab_parser_rejects_missing_fields_and_bad_taxon() {
    let p = TabParser::new(HEADER, 5, 50, false);
    assert!(p.parse_line("Q8N158\tMKIK\tName").is_none());
    assert!(p.parse_line("Q8N158\tMKIK\tName\t2\t\t\t\tswissprot\tabc").is_none());
    let q = TabParser::new("Entry\tSequence", 5, 50, true);
    assert!(q.parse_line("Q8N158\tMKIK").is_none());
}

fn names(rec: Option<&str>, sub: &[&str]) -> Names {
    Names { recommended: rec.map(|s| s.to_string()), submitted: sub.iter().map(|s| s.to_string()).collect() }
}

#[test]
fn name_prefers_last_recommended_component() {
    let protein = names(Some("protein"), &[]);
    let comps = vec![names(Some("first"), &[]), names(Some("second"), &[]), names(None, &["sub"])];
    assert_eq!(parse_name(&protein, &comps, &vec![]), Some("second".to_string()));
}

#[test]
fn name_falls_back_in_order() {
    let protein = names(Some("protein"), &["psub"]);
    let comps = vec![names(None, &["c1", "c2"])];
    let doms = vec![names(Some("domain"), &[])];
    assert_eq!(parse_name(&protein, &comps, &doms), Some("domain".to_string()));
    assert_eq!(parse_name(&protein, &comps, &vec![]), Some("protein".to_string()));
    let bare = names(None, &["psub1", "psub2"]);
    assert_eq!(parse_name(&bare, &comps, &vec![]), Some("c2".to_string()));
    assert_eq!(parse_name(&bare, &vec![], &vec![]), Some("psub2".to_string()));
    assert_eq!(parse_name(&names(None, &[]), &vec![], &vec![]), None);
}

fn r(ty: &str, id: &str) -> DbRef {
    DbRef { ty: ty.to_string(), id: id.to_string() }
}

#[test]
fn entry_fields_sort_references() {
    let fields = entry_fields(
        "Q8N158".to_string(),
        "MK".to_string(),
        "Name".to_string(),
        "3".to_string(),
        &vec![r("NCBI Taxonomy", "1"), r("Other", "x"), r("NCBI Taxonomy", "9606")],
        &vec![r("GO", "GO:1"), r("EC", "1.2"), r("GO", "GO:2"), r("InterPro", "IPR1"), r("Pfam", "PF1")],
    );
    assert_eq!(fields, vec!["Q8N158", "MK", "Name", "3", "1.2", "GO:1;GO:2", "IPR1", "swissprot", "9606"]);
    let none = entry_fields(String::new(), String::new(), String::new(), "1".to_string(), &vec![], &vec![]);
    assert_eq!(none[8], "");
    assert_eq!(none[4], "");
}

#[test]
fn digest_cuts_after_k_and_r_not_before_p() {
    assert_eq!(digest("AAKBBRPCCRDD", 1, 50), vec!["AAK", "BBRPCCR", "DD"]);
    assert_eq!(digest("AAKBBRPCCRDD", 3, 5), vec!["AAK"]);
    assert_eq!(digest("", 1, 50), Vec::<String>::new());
    assert_eq!(digest("KK", 1, 1), vec!["K", "K"]);
}
