use vacuum::record::builder::VacuumRecord;
use vacuum::walk::filter::apply_filters;

fn record(relative_path: &str) -> VacuumRecord {
    let mut record = VacuumRecord::empty();
    record.relative_path = relative_path.to_string();
    record
}

fn strings(values: &[&str]) -> Vec<String> {
    values.iter().map(|value| value.to_string()).collect()
}

fn filter_matches(path: &str, includes: &[&str], excludes: &[&str]) -> bool {
    let includes = strings(includes);
    let excludes = strings(excludes);
    !apply_filters(vec![record(path)], &includes, &excludes).is_empty()
}

#[test]
fn include_patterns_are_or_matched() {
    let records = vec![record("alpha.csv"), record("beta.txt"), record("gamma.pdf")];
    let includes = vec!["*.csv".to_string(), "*.txt".to_string()];
    let filtered = apply_filters(records, &includes, &[]);

    let mut kept = filtered
        .into_iter()
        .map(|record| record.relative_path)
        .collect::<Vec<_>>();
    kept.sort();

    assert_eq!(kept, vec!["alpha.csv", "beta.txt"]);
}

#[test]
fn exclude_patterns_override_include_matches() {
    let records = vec![record("keep.csv"), record("drop.csv")];
    let includes = vec!["*.csv".to_string()];
    let excludes = vec!["drop.*".to_string()];
    let filtered = apply_filters(records, &includes, &excludes);

    let kept = filtered
        .into_iter()
        .map(|record| record.relative_path)
        .collect::<Vec<_>>();

    assert_eq!(kept, vec!["keep.csv"]);
}

#[test]
fn matching_uses_forward_slash_normalized_relative_path() {
    let records = vec![record("nested\\inner\\file.csv")];
    let includes = vec!["nested/**/*.csv".to_string()];
    let filtered = apply_filters(records, &includes, &[]);

    assert_eq!(filtered.len(), 1);
}

#[test]
fn star_pattern_matches_single_segment() {
    let records = vec![record("root.csv"), record("nested/root.csv")];
    let includes = vec!["*.csv".to_string()];
    let filtered = apply_filters(records, &includes, &[]);

    let kept = filtered
        .into_iter()
        .map(|record| record.relative_path)
        .collect::<Vec<_>>();
    assert_eq!(kept, vec!["root.csv"]);
}

#[test]
fn double_star_pattern_matches_nested_segments() {
    let records = vec![record("root.csv"), record("nested/inner/root.csv")];
    let includes = vec!["**/*.csv".to_string()];
    let filtered = apply_filters(records, &includes, &[]);
    assert_eq!(filtered.len(), 2);
}

#[test]
fn question_mark_pattern_matches_single_character() {
    let records = vec![record("a1/file.csv"), record("a12/file.csv")];
    let includes = vec!["a?/file.csv".to_string()];
    let filtered = apply_filters(records, &includes, &[]);

    let kept = filtered
        .into_iter()
        .map(|record| record.relative_path)
        .collect::<Vec<_>>();
    assert_eq!(kept, vec!["a1/file.csv"]);
}

#[test]
fn character_class_pattern_matches_expected_paths() {
    let records = vec![
        record("a1/file.csv"),
        record("b1/file.csv"),
        record("c1/file.csv"),
    ];
    let includes = vec!["[ab]1/file.csv".to_string()];
    let filtered = apply_filters(records, &includes, &[]);

    let mut kept = filtered
        .into_iter()
        .map(|record| record.relative_path)
        .collect::<Vec<_>>();
    kept.sort();

    assert_eq!(kept, vec!["a1/file.csv", "b1/file.csv"]);
}

#[test]
fn inclusion_alone_decides_where_nothing_is_excluded() {
    assert!(filter_matches("alpha.csv", &["*.csv"], &[]));
    assert!(!filter_matches("alpha.csv", &["*.txt"], &[]));
    assert!(filter_matches("nested/alpha.csv", &["**/*.csv"], &[]));
    assert!(!filter_matches("nested/alpha.csv", &["*.csv"], &[]));
    assert!(filter_matches("a1/file.csv", &["a?/file.csv"], &[]));
    assert!(!filter_matches("a11/file.csv", &["a?/file.csv"], &[]));
    assert!(filter_matches("a1/file.csv", &["[ab]1/file.csv"], &[]));
    assert!(!filter_matches("c1/file.csv", &["[ab]1/file.csv"], &[]));
    assert!(filter_matches("report.json", &["*.json", "*.csv"], &[]));
    assert!(!filter_matches("report.txt", &["*.json", "*.csv"], &[]));
    assert!(filter_matches("dir\\leaf.csv", &["dir/*.csv"], &[]));
    assert!(filter_matches("deep/tree/leaf.yaml", &["**/*.yaml"], &[]));
    assert!(!filter_matches("deep/tree/leaf.yaml", &["*.yaml"], &[]));
    assert!(filter_matches("mix/data.parquet", &["mix/*.parquet"], &[]));
    assert!(!filter_matches("mix/data.parquet", &["mix/*.csv"], &[]));
}

#[test]
fn exclusion_overrides_inclusion() {
    assert!(!filter_matches("alpha.csv", &["*.csv"], &["alpha.csv"]));
    assert!(filter_matches("alpha.csv", &["*.csv"], &["beta.csv"]));
    assert!(!filter_matches("nested/alpha.csv", &["**/*.csv"], &["nested/*.csv"]));
    assert!(filter_matches("nested/alpha.csv", &["**/*.csv"], &["other/*.csv"]));
    assert!(!filter_matches("a1/file.csv", &["a?/file.csv"], &["a1/file.csv"]));
    assert!(filter_matches("a1/file.csv", &["a?/file.csv"], &["a2/file.csv"]));
    assert!(!filter_matches("report.json", &["*.json", "*.csv"], &["report.json"]));
    assert!(filter_matches("report.csv", &["*.json", "*.csv"], &["report.json"]));
    assert!(!filter_matches("deep/tree/leaf.yaml", &["**/*.yaml"], &["deep/**"]));
    assert!(filter_matches("deep/tree/leaf.yaml", &["**/*.yaml"], &["other/**"]));
    assert!(!filter_matches(
        "nested\\inner\\leaf.csv",
        &["nested/**/*.csv"],
        &["nested/**/leaf.csv"]
    ));
    assert!(filter_matches(
        "nested\\inner\\leaf.csv",
        &["nested/**/*.csv"],
        &["nested/**/other.csv"]
    ));
}

#[test]
fn empty_inclusion_list_passes_everything() {
    assert!(!filter_matches("x/file.csv", &[], &["x/*"]));
    assert!(filter_matches("x/file.csv", &[], &["y/*"]));
    assert!(filter_matches("x/file.csv", &[], &[]));
    assert!(filter_matches("", &[], &[]));
}

#[test]
fn inclusion_list_of_which_no_pattern_parses_drops_everything() {
    assert!(!filter_matches("alpha.csv", &["[unclosed"], &[]));
    assert!(!filter_matches("alpha.csv", &["{a,b", "[z"], &[]));
}

#[test]
fn patterns_that_do_not_parse_are_passed_over() {
    assert!(filter_matches("alpha.csv", &["[unclosed", "*.csv"], &[]));
    assert!(!filter_matches("alpha.txt", &["[unclosed", "*.csv"], &[]));
}

#[test]
fn exclusion_list_of_which_no_pattern_parses_excludes_nothing() {
    assert!(filter_matches("alpha.csv", &[], &["[unclosed"]));
    assert!(filter_matches("alpha.csv", &["*.csv"], &["[unclosed"]));
    assert!(!filter_matches("alpha.csv", &["*.csv"], &["[unclosed", "alpha.*"]));
}

#[test]
fn filtering_keeps_the_order_of_the_records() {
    let records = vec![
        record("c.csv"),
        record("skip.txt"),
        record("a.csv"),
        record("b.csv"),
    ];
    let includes = vec!["*.csv".to_string()];
    let kept = apply_filters(records, &includes, &[])
        .into_iter()
        .map(|record| record.relative_path)
        .collect::<Vec<_>>();
    assert_eq!(kept, vec!["c.csv", "a.csv", "b.csv"]);
}

#[test]
fn filtering_keeps_records_whole() {
    let mut full = record("data/alpha.csv");
    full.root = "/root".to_string();
    full.path = "/root/data/alpha.csv".to_string();
    full.size = Some(7);
    let expected = full.clone();
    let kept = apply_filters(vec![full], &[], &[]);
    assert_eq!(kept, vec![expected]);
}

#[test]
fn visible_csv_alone_survives_the_mixed_tree() {
    let records = vec![
        record("visible.csv"),
        record("subdir/hidden.csv"),
        record("subdir/readme.md"),
        record("notes.txt"),
    ];
    let includes = vec!["*.csv".to_string(), "*.md".to_string()];
    let excludes = vec!["subdir/*".to_string()];
    let kept = apply_filters(records, &includes, &excludes)
        .into_iter()
        .map(|record| record.relative_path)
        .collect::<Vec<_>>();
    assert_eq!(kept, vec!["visible.csv"]);
}

#[test]
fn exclusion_list_of_which_no_set_can_be_built_excludes_nothing() {
    // Every `?` parses, but a million of them make a matcher beyond the
    // size that globset allows, so no set is built of the list.
    let huge = "?".repeat(1_000_000);
    let path = "a".repeat(1_000_000);
    let kept = apply_filters(vec![record(&path)], &[], &[huge.clone()]);
    assert_eq!(kept.len(), 1);
    let dropped = apply_filters(vec![record(&path)], &[huge], &[]);
    assert!(dropped.is_empty());
}

#[test]
fn a_top_level_file_that_an_inclusion_pattern_matches_is_kept_beside_the_others() {
    let records = vec![
        record("visible.csv"),
        record("subdir/hidden.csv"),
        record("readme.md"),
    ];
    let includes = vec!["*.csv".to_string(), "*.md".to_string()];
    let excludes = vec!["subdir/*".to_string()];
    let kept = apply_filters(records, &includes, &excludes)
        .into_iter()
        .map(|record| record.relative_path)
        .collect::<Vec<_>>();
    assert_eq!(kept, vec!["visible.csv", "readme.md"]);
}
