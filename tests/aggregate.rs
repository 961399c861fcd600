use unipept_build::aggregate::{aggregate, parse_observation, FormatError, LcaAggregator};
use unipept_build::taxonomy::{Taxonomy, GENUS, SPECIES};

fn row(key: i32, ranks: &[(usize, i32)]) -> String {
    let mut fields = vec![key.to_string()];
    for r in 0..27 {
        match ranks.iter().find(|(i, _)| *i == r) {
            Some((_, v)) => fields.push(v.to_string()),
            None => fields.push("\\N".to_string()),
        }
    }
    fields.join("\t")
}

fn taxonomy() -> Taxonomy {
    Taxonomy::build(&vec![
        row(10, &[(GENUS, 50), (SPECIES, 100)]),
        row(11, &[(GENUS, 50), (SPECIES, 100)]),
        row(12, &[(GENUS, 50), (SPECIES, 200)]),
    ])
    .unwrap()
}

fn lines(v: &[&str]) -> Vec<String> {
    v.iter().map(|s| s.to_string()).collect()
}

#[test]
fn aggregate_emits_one_result_per_group() {
    let t = taxonomy();
    let out = aggregate(&t, &lines(&["ACDE\t10", "ACDE\t11", "KLMN\t12", "PQ\t7"])).unwrap();
    assert_eq!(
        out,
        vec![("ACDE".to_string(), 100), ("KLMN".to_string(), 200), ("PQ".to_string(), 1)]
    );
}

#[test]
fn aggregate_scenario_with_disagreeing_third_row() {
    let t = taxonomy();
    let out = aggregate(&t, &lines(&["ACDE\t10", "ACDE\t11", "ACDE\t12"])).unwrap();
    assert_eq!(out, vec![("ACDE".to_string(), 50)]);
}

#[test]
fn aggregate_of_nothing_is_nothing() {
    assert_eq!(aggregate(&taxonomy(), &Vec::new()).unwrap(), vec![]);
}

#[test]
fn aggregate_fails_on_malformed_row() {
    let t = taxonomy();
    assert_eq!(aggregate(&t, &lines(&["ACDE\t10", "ACDE 11"])), Err(FormatError { line: 1 }));
    assert_eq!(aggregate(&t, &lines(&["ACDE\tx"])), Err(FormatError { line: 0 }));
}

#[test]
fn observation_trims_trailing_whitespace_only() {
    assert_eq!(parse_observation("AB\t12 \r"), Some(("AB".to_string(), 12)));
    assert_eq!(parse_observation("AB\t-3"), Some(("AB".to_string(), -3)));
    assert_eq!(parse_observation("AB\t 12"), None);
    assert_eq!(parse_observation("AB\t1\t2"), None);
    assert_eq!(parse_observation("AB"), None);
    assert_eq!(parse_observation("\t5"), Some(("".to_string(), 5)));
}

#[test]
fn aggregator_streams_groups() {
    let t = taxonomy();
    let mut agg = LcaAggregator::new();
    assert_eq!(agg.finish(&t), None);
    assert_eq!(agg.push(&t, "A".to_string(), 10), None);
    assert_eq!(agg.push(&t, "A".to_string(), 12), None);
    assert_eq!(agg.push(&t, "B".to_string(), 11), Some(("A".to_string(), 50)));
    assert_eq!(agg.finish(&t), Some(("B".to_string(), 100)));
}
