use unipept_build::database::{index_statement, psql_invocation, split_table_column, DatabaseContext};
use unipept_build::datasets::{
    cmd_delete, cmd_get, cmd_set, cmd_should_reprocess, DatasetsMetadata, DeleteArgs, GetArgs,
    ProcessingStage, SetArgs, ShouldReprocessArgs,
};
use unipept_build::lines::{eq_or_og_starts_with, sequence_starts_with, split_line, LineRetriever};
use unipept_build::text::{parse_i32, parse_u64};

fn set(meta: &mut DatasetsMetadata, stage: ProcessingStage, t: &str, v: &str) {
    cmd_set(meta, SetArgs { stage, db_type: t.to_string(), value: v.to_string() });
}

fn get(meta: &DatasetsMetadata, stage: ProcessingStage, t: &str) -> Option<String> {
    cmd_get(meta, GetArgs { stage, db_type: t.to_string() }).cloned()
}

#[test]
fn metadata_set_get_delete() {
    let mut meta = DatasetsMetadata::new();
    assert_eq!(get(&meta, ProcessingStage::Downloaded, "swissprot"), None);
    set(&mut meta, ProcessingStage::Downloaded, "swissprot", "tag1");
    set(&mut meta, ProcessingStage::Downloaded, "swissprot", "tag2");
    set(&mut meta, ProcessingStage::Processed, "trembl", "tag3");
    assert_eq!(get(&meta, ProcessingStage::Downloaded, "swissprot"), Some("tag2".to_string()));
    assert_eq!(get(&meta, ProcessingStage::Processed, "swissprot"), None);
    assert_eq!(meta.downloaded.entries().len(), 1);
    cmd_delete(&mut meta, DeleteArgs { stage: ProcessingStage::Downloaded, db_type: "swissprot".to_string() });
    assert_eq!(get(&meta, ProcessingStage::Downloaded, "swissprot"), None);
    assert_eq!(get(&meta, ProcessingStage::Processed, "trembl"), Some("tag3".to_string()));
}

fn reprocess(dl: Option<&str>, pr: Option<&str>, source: &str) -> bool {
    let mut meta = DatasetsMetadata::new();
    if let Some(d) = dl {
        set(&mut meta, ProcessingStage::Downloaded, "sp", d);
    }
    if let Some(p) = pr {
        set(&mut meta, ProcessingStage::Processed, "sp", p);
    }
    cmd_should_reprocess(meta, ShouldReprocessArgs { db_type: "sp".to_string(), db_source: source.to_string() })
}

#[test]
fn should_reprocess_rules() {
    assert!(reprocess(Some("a"), Some("a"), "https://rest.uniprot.org"));
    assert!(!reprocess(Some("a"), Some("a"), "https://ftp.uniprot.org"));
    assert!(reprocess(None, Some("a"), "ftp"));
    assert!(reprocess(Some("a"), None, "ftp"));
    assert!(reprocess(Some("a"), Some("b"), "ftp"));
    assert!(!reprocess(Some("a"), Some("a"), "res"));
}

#[test]
fn split_line_reads_padded_id() {
    assert_eq!(split_line("000000000042  ACDE \t"), Some((42, "ACDE".to_string())));
    assert_eq!(split_line("000000000007"), Some((7, "".to_string())));
    assert_eq!(split_line("00000000042"), None);
    assert_eq!(split_line("00000000004xABC"), None);
}

#[test]
fn line_retriever_buffers_one_line() {
    let mut r = LineRetriever::new();
    assert!(r.needs_line());
    assert_eq!(r.get(1, Some((1, "one".to_string()))), "one");
    assert_eq!(r.get(2, Some((3, "three".to_string()))), "\\N");
    assert!(!r.needs_line());
    assert_eq!(r.get(3, None), "three");
    assert!(r.needs_line());
    assert_eq!(r.get(4, None), "\\N");
}

#[test]
fn prefix_i_to_l_counts_as_one() {
    assert!(sequence_starts_with("KAB", 'I'));
    assert!(sequence_starts_with("LAB", 'I'));
    assert!(!sequence_starts_with("MAB", 'I'));
    assert!(!sequence_starts_with("KAB", 'L'));
    assert!(sequence_starts_with("AAB", 'A'));
    assert!(eq_or_og_starts_with("MA", "JA", 'I'));
    assert!(!eq_or_og_starts_with("MA", "NA", 'A'));
}

#[test]
fn database_commands() {
    let ctx = DatabaseContext { user: "u".to_string(), pass: "p".to_string(), container: None };
    assert_eq!(psql_invocation(&ctx), ("psql".to_string(), vec!["-U".to_string(), "u".to_string()]));
    let ctx = DatabaseContext { user: "u".to_string(), pass: "p".to_string(), container: Some("db".to_string()) };
    assert_eq!(psql_invocation(&ctx).1, vec!["exec", "-i", "db", "psql", "-U", "u"]);
    assert_eq!(index_statement("peptides", "sequence_id"), "CREATE INDEX idx_sequence_id ON unipept.peptides(sequence_id);");
    assert_eq!(split_table_column("go_terms:code"), Some(("go_terms".to_string(), "code".to_string())));
    assert_eq!(split_table_column("a:b:c"), Some(("a".to_string(), "b:c".to_string())));
    assert_eq!(split_table_column("abc"), None);
}

#[test]
fn integer_parsing() {
    let c = |s: &str| s.chars().collect::<Vec<char>>();
    assert_eq!(parse_i32(&c("2147483647")), Some(i32::MAX));
    assert_eq!(parse_i32(&c("-2147483648")), Some(i32::MIN));
    assert_eq!(parse_i32(&c("2147483648")), None);
    assert_eq!(parse_i32(&c("+7")), Some(7));
    assert_eq!(parse_i32(&c("-")), None);
    assert_eq!(parse_i32(&c("")), None);
    assert_eq!(parse_u64(&c("18446744073709551615")), Some(u64::MAX));
    assert_eq!(parse_u64(&c("18446744073709551616")), None);
    assert_eq!(parse_u64(&c("-0")), None);
}
