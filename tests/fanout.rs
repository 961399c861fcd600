use unipept_build::taxonomy::ParseError;
use unipept_build::fanout::{validity_table, normalize_peptide, summarize_annotations, Counters, Entry, StoredRows, TableWriter};

fn entry(taxon_id: i32, go: &[&str], ec: &[&str], ip: &[&str]) -> Entry {
    Entry {
        accession_number: "Q9Y6K9".to_string(),
        version: "3".to_string(),
        taxon_id,
        type_: "swissprot".to_string(),
        name: "Some protein".to_string(),
        sequence: "MKIALK".to_string(),
        go_references: go.iter().map(|s| s.to_string()).collect(),
        ec_references: ec.iter().map(|s| s.to_string()).collect(),
        ip_references: ip.iter().map(|s| s.to_string()).collect(),
    }
}

fn peptides(v: &[&str]) -> Vec<String> {
    v.iter().map(|s| s.to_string()).collect()
}

fn taxons() -> Vec<bool> {
    vec![false, true, true, false, true]
}

#[test]
fn store_accepts_known_taxon_and_emits_all_rows() {
    let mut w = TableWriter::new(taxons());
    let rows = w
        .store(entry(2, &["GO:1", "GO:2"], &["1.1.1.1"], &["IPR0001", ""]), peptides(&["MKI", "ALK"]))
        .unwrap();
    assert_eq!(rows.entry.id, 1);
    assert_eq!(rows.entry.accession_number, "Q9Y6K9");
    assert_eq!(rows.entry.taxon_id, 2);
    assert_eq!(rows.go.len(), 2);
    assert_eq!((rows.go[1].id, rows.go[1].entry_id, rows.go[1].code.as_str()), (2, 1, "GO:2"));
    assert_eq!(rows.ec.len(), 1);
    assert_eq!(rows.ip.len(), 2);
    assert_eq!(rows.ip[1].code, "");
    assert_eq!(rows.peptides.len(), 2);
    let p = &rows.peptides[0];
    assert_eq!((p.id, p.sequence.as_str(), p.original_sequence.as_str(), p.entry_id), (1, "MKL", "MKI", 1));
    assert_eq!(p.annotations, "GO:1;GO:2;EC:1.1.1.1;IPR:IPR0001");
    assert_eq!(
        w.counters(),
        Counters { entries: 1, peptides: 2, go: 2, ec: 1, ip: 2 }
    );
}

#[test]
fn store_rejects_unknown_taxon_without_rows() {
    let mut w = TableWriter::new(taxons());
    assert!(w.store(entry(3, &["GO:1"], &[], &[]), peptides(&["A"])).is_none());
    assert!(w.store(entry(9, &["GO:1"], &[], &[]), peptides(&["A"])).is_none());
    assert!(w.store(entry(-1, &[], &[], &[]), peptides(&[])).is_none());
    assert!(w.store(entry(3, &[], &[], &[]), peptides(&[])).is_none());
    assert_eq!(w.counters(), Counters { entries: 0, peptides: 0, go: 0, ec: 0, ip: 0 });
    assert_eq!(w.rejected_ids(), &vec![3, 9, -1]);
}

#[test]
fn ids_continue_per_table() {
    let mut w = TableWriter::new(taxons());
    w.store(entry(1, &["a"], &[], &[]), peptides(&["X"])).unwrap();
    assert!(w.store(entry(0, &["b"], &[], &[]), peptides(&["Y"])).is_none());
    let rows = w.store(entry(4, &["c", "d"], &[], &[]), peptides(&["Z"])).unwrap();
    assert_eq!(rows.entry.id, 2);
    assert_eq!(rows.go[0].id, 2);
    assert_eq!(rows.go[1].id, 3);
    assert_eq!(rows.go[1].entry_id, 2);
    assert_eq!(rows.peptides[0].id, 2);
}

fn flatten(rows: &StoredRows) -> Vec<String> {
    let mut v = vec![format!("{} {} {}", rows.entry.id, rows.entry.accession_number, rows.entry.taxon_id)];
    for p in &rows.peptides {
        v.push(format!("{} {} {} {} {}", p.id, p.sequence, p.original_sequence, p.entry_id, p.annotations));
    }
    for r in rows.go.iter().chain(rows.ec.iter()).chain(rows.ip.iter()) {
        v.push(format!("{} {} {}", r.id, r.entry_id, r.code));
    }
    v
}

#[test]
fn rerun_with_fresh_writer_gives_same_rows() {
    let records = || {
        vec![
            (entry(1, &["g"], &["e", ""], &["i"]), peptides(&["IIL", "KI"])),
            (entry(3, &["g"], &[], &[]), peptides(&["A"])),
            (entry(2, &[], &["x"], &[]), peptides(&["QI"])),
        ]
    };
    let run = || {
        let mut w = TableWriter::new(taxons());
        records()
            .into_iter()
            .map(|(e, p)| w.store(e, p).map(|r| flatten(&r)))
            .collect::<Vec<_>>()
    };
    let first = run();
    assert_eq!(first, run());
    assert_eq!(first[0].as_ref().unwrap()[0], "1 Q9Y6K9 1");
    assert!(first[1].is_none());
    assert_eq!(first[2].as_ref().unwrap()[0], "2 Q9Y6K9 2");
    assert_eq!(first[2].as_ref().unwrap()[1], "3 QL QI 2 EC:x");
}

#[test]
fn normalization_rewrites_i_to_l_only() {
    assert_eq!(normalize_peptide("IAIKL"), "LALKL");
    assert_eq!(normalize_peptide(""), "");
    assert_eq!(normalize_peptide("MKQ"), "MKQ");
    assert!(!normalize_peptide("IIIiI").contains('I'));
    assert_eq!(normalize_peptide("IIIiI"), "LLLiL");
}

#[test]
fn summary_skips_empty_ec_and_interpro_but_not_go() {
    assert_eq!(summarize_annotations(&entry(1, &["", "GO:5"], &["", "2.7"], &["", "IPR9"])), ";GO:5;EC:2.7;IPR:IPR9");
    assert_eq!(summarize_annotations(&entry(1, &[], &[], &[])), "");
    assert_eq!(summarize_annotations(&entry(1, &[], &[""], &["IPR1"])), "IPR:IPR1");
}

#[test]
fn room_check_and_validity() {
    let w = TableWriter::new(taxons());
    assert!(w.has_room(&entry(1, &[], &[], &[]), 10));
    assert!(w.is_valid_taxon(4));
    assert!(!w.is_valid_taxon(3));
    assert!(!w.is_valid_taxon(5));
    assert!(!w.is_valid_taxon(-2));
}

#[test]
fn validity_table_marks_listed_ids() {
    let lines: Vec<String> = vec!["3\tname\tspecies".to_string(), " 1 \tx".to_string(), "3".to_string()];
    assert_eq!(validity_table(&lines), Ok(vec![false, true, false, true]));
    assert_eq!(validity_table(&Vec::new()), Ok(vec![]));
    let bad: Vec<String> = vec!["1".to_string(), "-2\tx".to_string()];
    assert_eq!(validity_table(&bad), Err(ParseError { line: 1 }));
    let bad: Vec<String> = vec!["x\t1".to_string()];
    assert_eq!(validity_table(&bad), Err(ParseError { line: 0 }));
}
