use unipept_build::lca::ROOT;
use unipept_build::taxonomy::{ParseError, Taxonomy, GENUS, SPECIES};

fn row(key: i32, ranks: &[(usize, i32)]) -> String {
    let mut fields = vec![key.to_string()];
    for r in 0..27 {
        match ranks.iter().find(|(i, _)| *i == r) {
            Some((_, v)) => fields.push(v.to_string()),
            None => fields.push("\\N".to_string()),
        }
    }
    fields.join("\t")
}

fn scenario_taxonomy() -> Taxonomy {
    let lines = vec![
        row(10, &[(GENUS, 50), (SPECIES, 100)]),
        row(11, &[(GENUS, 50), (SPECIES, 100)]),
        row(12, &[(GENUS, 50), (SPECIES, 200)]),
    ];
    Taxonomy::build(&lines).unwrap()
}

#[test]
fn build_sizes_table_by_highest_id() {
    let t = scenario_taxonomy();
    assert_eq!(t.len(), 13);
    assert!(t.lookup(5).is_none());
    assert!(t.lookup(13).is_none());
    assert!(t.lookup(-1).is_none());
    let l = t.lookup(10).unwrap();
    assert_eq!(l.len(), 27);
    assert_eq!(l[GENUS], 50);
    assert_eq!(l[SPECIES], 100);
    assert_eq!(l[0], 0);
}

#[test]
fn build_of_nothing_is_empty() {
    let t = Taxonomy::build(&Vec::new()).unwrap();
    assert_eq!(t.len(), 0);
    assert!(t.lookup(0).is_none());
}

#[test]
fn build_later_row_wins() {
    let lines = vec![row(3, &[(0, 7)]), row(3, &[(0, 8)])];
    let t = Taxonomy::build(&lines).unwrap();
    assert_eq!(t.lookup(3).unwrap()[0], 8);
}

#[test]
fn build_rejects_wrong_column_count() {
    let mut short = row(4, &[]);
    short.truncate(short.rfind('\t').unwrap());
    let lines = vec![row(1, &[]), short];
    assert_eq!(Taxonomy::build(&lines).err(), Some(ParseError { line: 1 }));
    let long = format!("{}\t5", row(4, &[]));
    assert_eq!(Taxonomy::build(&vec![long]).err(), Some(ParseError { line: 0 }));
}

#[test]
fn build_rejects_non_integer_and_negative_key() {
    let bad = row(4, &[]).replace("\\N", "x");
    assert_eq!(Taxonomy::build(&vec![bad]).err(), Some(ParseError { line: 0 }));
    assert_eq!(Taxonomy::build(&vec![row(-4, &[])]).err(), Some(ParseError { line: 0 }));
    let overflow = row(4, &[]).replacen("4", "99999999999", 1);
    assert_eq!(Taxonomy::build(&vec![overflow]).err(), Some(ParseError { line: 0 }));
}

#[test]
fn consensus_of_agreeing_pair_is_species() {
    let t = scenario_taxonomy();
    assert_eq!(t.calculate_lca(&[10, 11]), 100);
}

#[test]
fn consensus_downgrades_on_species_disagreement() {
    let t = scenario_taxonomy();
    assert_eq!(t.calculate_lca(&[10, 11, 12]), 50);
}

#[test]
fn consensus_ignores_unknown_ids() {
    let t = scenario_taxonomy();
    assert_eq!(t.calculate_lca(&[10, 7, 11, 999, -3]), t.calculate_lca(&[10, 11]));
    assert_eq!(t.calculate_lca(&[7]), ROOT);
    assert_eq!(t.calculate_lca(&[]), ROOT);
}

#[test]
fn consensus_of_single_taxon_is_deepest_value() {
    let t = scenario_taxonomy();
    assert_eq!(t.calculate_lca(&[12]), 200);
    let t2 = Taxonomy::build(&vec![row(2, &[(0, 1), (3, 9), (25, 0)])]).unwrap();
    assert_eq!(t2.calculate_lca(&[2]), 9);
    let t3 = Taxonomy::build(&vec![row(2, &[])]).unwrap();
    assert_eq!(t3.calculate_lca(&[2, 2]), ROOT);
}

#[test]
fn consensus_stops_at_first_disagreement() {
    let lines = vec![row(1, &[(0, 5), (4, 6), (10, 7)]), row(2, &[(0, 8), (4, 6), (10, 7)])];
    let t = Taxonomy::build(&lines).unwrap();
    assert_eq!(t.calculate_lca(&[1, 2]), ROOT);
}

#[test]
fn consensus_zero_votes_at_ordinary_rank_disagree_with_ids() {
    // rank 3: 0 versus 9 is a disagreement, since 0 counts outside genus and species
    let lines = vec![row(1, &[(1, 4), (3, 0)]), row(2, &[(1, 4), (3, 9)])];
    let t = Taxonomy::build(&lines).unwrap();
    assert_eq!(t.calculate_lca(&[1, 2]), 4);
}

#[test]
fn consensus_zero_at_species_is_not_a_vote() {
    let lines = vec![row(1, &[(GENUS, 40), (SPECIES, 0)]), row(2, &[(GENUS, 40), (SPECIES, 41)])];
    let t = Taxonomy::build(&lines).unwrap();
    assert_eq!(t.calculate_lca(&[1, 2]), 41);
}
