use vacuum::manifest;
use vacuum::output::jsonl::{
    operator_manifest, serialize_sorted_jsonl, sorted_records, SCHEMA_STUB,
};
use vacuum::walk::walker::{scan_roots, EntryStat, RootWalk, WalkItem};
use vacuum::record::builder::VacuumRecord;

fn record(relative_path: &str, root: &str) -> VacuumRecord {
    let mut record = VacuumRecord::empty();
    record.path = format!("{root}/{relative_path}");
    record.relative_path = relative_path.to_string();
    record.root = root.to_string();
    record.size = Some(1);
    record.mtime = Some("2026-01-01T00:00:00.000Z".to_string());
    record.extension = Some(".csv".to_string());
    record.mime_guess = Some("text/csv".to_string());
    record
}

fn keys(records: &[VacuumRecord]) -> Vec<(&str, &str)> {
    records
        .iter()
        .map(|record| (record.relative_path.as_str(), record.root.as_str()))
        .collect()
}

#[test]
fn records_are_sorted_by_relative_path_then_root() {
    let records = vec![
        record("b.csv", "/root-b"),
        record("a.csv", "/root-z"),
        record("a.csv", "/root-a"),
    ];

    let sorted = sorted_records(&records);
    let keys = sorted
        .iter()
        .map(|record| (record.relative_path.as_str(), record.root.as_str()))
        .collect::<Vec<_>>();

    assert_eq!(
        keys,
        vec![
            ("a.csv", "/root-a"),
            ("a.csv", "/root-z"),
            ("b.csv", "/root-b")
        ]
    );
}

#[test]
fn sorting_nothing_gives_nothing() {
    assert!(sorted_records(&[]).is_empty());
}

#[test]
fn sorting_one_record_gives_it_back() {
    let only = record("only.csv", "/root");
    assert_eq!(sorted_records(&[only.clone()]), vec![only]);
}

#[test]
fn sorting_leaves_the_input_as_it_was_and_copies_records_whole() {
    let records = vec![record("b.csv", "/r"), record("a.csv", "/r")];
    let before = records.clone();
    let sorted = sorted_records(&records);
    assert_eq!(records, before);
    assert_eq!(sorted, vec![before[1].clone(), before[0].clone()]);
}

#[test]
fn sort_order_is_byte_wise_for_symbols_digits_and_letters() {
    let records = vec![
        record("a.txt", "/r"),
        record("0a.txt", "/r"),
        record("!a.txt", "/r"),
        record("B.txt", "/r"),
        record("_.txt", "/r"),
    ];
    let sorted = sorted_records(&records);
    let names = sorted
        .iter()
        .map(|record| record.relative_path.as_str())
        .collect::<Vec<_>>();
    assert_eq!(names, vec!["!a.txt", "0a.txt", "B.txt", "_.txt", "a.txt"]);
}

#[test]
fn sort_order_is_lexicographic_for_numeric_suffixes() {
    let records = vec![record("file2.txt", "/r"), record("file10.txt", "/r")];
    let sorted = sorted_records(&records);
    let names = sorted
        .iter()
        .map(|record| record.relative_path.as_str())
        .collect::<Vec<_>>();
    assert_eq!(names, vec!["file10.txt", "file2.txt"]);
}

#[test]
fn a_prefix_sorts_before_its_extensions() {
    let records = vec![
        record("ab", "/r"),
        record("a", "/r"),
        record("", "/r"),
        record("a/b", "/r"),
    ];
    let sorted = sorted_records(&records);
    let names = sorted
        .iter()
        .map(|record| record.relative_path.as_str())
        .collect::<Vec<_>>();
    assert_eq!(names, vec!["", "a", "a/b", "ab"]);
}

#[test]
fn sort_order_follows_utf8_bytes_beyond_ascii() {
    // `z` is one byte 0x7A; `é` starts with 0xC3; U+FFFF starts with 0xEF and
    // U+10000 with 0xF0, although UTF-16 would order the last two the other way.
    let records = vec![
        record("\u{10000}", "/r"),
        record("\u{e9}", "/r"),
        record("\u{ffff}", "/r"),
        record("z", "/r"),
    ];
    let sorted = sorted_records(&records);
    let names = sorted
        .iter()
        .map(|record| record.relative_path.as_str())
        .collect::<Vec<_>>();
    assert_eq!(names, vec!["z", "\u{e9}", "\u{ffff}", "\u{10000}"]);
}

#[test]
fn records_of_equal_keys_keep_the_order_they_came_in() {
    let mut first = record("same.csv", "/root");
    first.size = Some(10);
    let mut second = record("same.csv", "/root");
    second.size = Some(20);
    let mut third = record("same.csv", "/root");
    third.size = Some(30);
    let early = record("early.csv", "/root");
    let sorted = sorted_records(&[
        first.clone(),
        second.clone(),
        early.clone(),
        third.clone(),
    ]);
    assert_eq!(sorted, vec![early, first, second, third]);
}

#[test]
fn three_roots_with_one_relative_path_are_ordered_by_root() {
    let records = vec![
        record("shared.csv", "/tmp/c"),
        record("shared.csv", "/tmp/a"),
        record("shared.csv", "/tmp/b"),
    ];
    let sorted = sorted_records(&records);
    assert_eq!(
        keys(&sorted),
        vec![
            ("shared.csv", "/tmp/a"),
            ("shared.csv", "/tmp/b"),
            ("shared.csv", "/tmp/c")
        ]
    );
}

#[test]
fn sorting_is_the_same_from_any_input_order() {
    let names = ["d", "a", "c/x", "b", "c", "a/z", "e", "c-x", "B", "10", "9"];
    let forward = names
        .iter()
        .map(|name| record(name, "/r"))
        .collect::<Vec<_>>();
    let mut backward = forward.clone();
    backward.reverse();
    let mut rotated = forward.clone();
    rotated.rotate_left(4);
    let expected = sorted_records(&forward);
    assert_eq!(sorted_records(&backward), expected);
    assert_eq!(sorted_records(&rotated), expected);
    assert_eq!(sorted_records(&expected), expected);
    let mut by_std = names.to_vec();
    by_std.sort();
    let got = expected
        .iter()
        .map(|record| record.relative_path.as_str())
        .collect::<Vec<_>>();
    assert_eq!(got, by_std);
}

#[test]
fn sorting_many_records_agrees_with_the_standard_sort() {
    let mut records = Vec::new();
    let mut state: u64 = 0x9E37_79B9_7F4A_7C15;
    for _ in 0..500 {
        state = state
            .wrapping_mul(6364136223846793005)
            .wrapping_add(1442695040888963407);
        let name = format!("dir{}/file{}.csv", (state >> 60) & 7, (state >> 33) % 40);
        let root = format!("/root{}", (state >> 20) % 3);
        records.push(record(&name, &root));
    }
    let sorted = sorted_records(&records);
    let mut expected = records.clone();
    expected.sort_by(|left, right| {
        (left.relative_path.as_bytes(), left.root.as_bytes())
            .cmp(&(right.relative_path.as_bytes(), right.root.as_bytes()))
    });
    assert_eq!(sorted, expected);
}

#[test]
fn manifest_filters_then_sorts() {
    let records = vec![
        record("z.csv", "/r"),
        record("skip.txt", "/r"),
        record("sub/hidden.csv", "/r"),
        record("a.csv", "/r"),
    ];
    let includes = vec!["**/*.csv".to_string(), "*.csv".to_string()];
    let excludes = vec!["sub/*".to_string()];
    let listed = manifest(records, &includes, &excludes);
    let names = listed
        .iter()
        .map(|record| record.relative_path.as_str())
        .collect::<Vec<_>>();
    assert_eq!(names, vec!["a.csv", "z.csv"]);
}

#[test]
fn manifest_without_patterns_lists_everything_sorted() {
    let records = vec![record("b", "/r2"), record("b", "/r1"), record("a", "/r2")];
    let listed = manifest(records, &[], &[]);
    assert_eq!(keys(&listed), vec![("a", "/r2"), ("b", "/r1"), ("b", "/r2")]);
}

fn walked(root: &str, relative: &[&str]) -> RootWalk {
    RootWalk {
        root: root.to_string(),
        items: relative
            .iter()
            .map(|name| WalkItem::Entry {
                depth: name.split('/').count(),
                is_dir: false,
                path: format!("{root}/{name}"),
                stat: EntryStat::Resolved {
                    size: 1,
                    modified: None,
                    canonical: None,
                },
                seen_at: 0,
            })
            .collect(),
    }
}

#[test]
fn basic_scan_emits_sorted_manifest() {
    let walk = walked(
        "/fixtures/nested",
        &["root.txt", "region/north.tsv", "region/deep/leaf.yaml"],
    );
    let listed = manifest(scan_roots(&vec![walk], true), &[], &[]);
    let names = listed
        .iter()
        .map(|record| record.relative_path.as_str())
        .collect::<Vec<_>>();
    assert_eq!(
        names,
        vec!["region/deep/leaf.yaml", "region/north.tsv", "root.txt"]
    );
    assert!(listed.iter().all(|record| record.version == "vacuum.v0"));
}

#[test]
fn collision_two_roots_same_relative_path_both_records_present() {
    let walks = vec![
        walked("/tmp/b", &["shared.csv"]),
        walked("/tmp/a", &["shared.csv"]),
    ];
    let listed = manifest(scan_roots(&walks, true), &[], &[]);
    assert_eq!(
        keys(&listed),
        vec![("shared.csv", "/tmp/a"), ("shared.csv", "/tmp/b")]
    );
}

#[test]
fn manifest_does_not_depend_on_the_order_of_the_roots() {
    let x = || {
        walked(
            "/fixtures/nested",
            &["root.txt", "region/north.tsv", "shared.csv"],
        )
    };
    let y = || walked("/fixtures/simple", &["alpha.csv", "shared.csv", "zeta.txt"]);
    let includes = vec!["**/*".to_string(), "*".to_string()];
    let excludes = vec!["*.txt".to_string()];
    let xy = manifest(scan_roots(&vec![x(), y()], true), &includes, &excludes);
    let yx = manifest(scan_roots(&vec![y(), x()], true), &includes, &excludes);
    assert_eq!(xy, yx);
    assert_eq!(
        keys(&xy),
        vec![
            ("alpha.csv", "/fixtures/simple"),
            ("region/north.tsv", "/fixtures/nested"),
            ("shared.csv", "/fixtures/nested"),
            ("shared.csv", "/fixtures/simple"),
        ]
    );
}

#[test]
fn manifest_of_a_repeated_scan_is_the_same() {
    let walks = || {
        vec![
            walked("/fixtures/nested", &["root.txt", "region/north.tsv"]),
            walked("/fixtures/simple", &["alpha.csv"]),
        ]
    };
    let first = manifest(scan_roots(&walks(), true), &[], &[]);
    let second = manifest(scan_roots(&walks(), true), &[], &[]);
    assert_eq!(first, second);
}

#[test]
fn records_that_fail_to_encode_are_left_out_of_the_lines() {
    let encoded = vec![
        Some("{\"a\":1}".to_string()),
        None,
        Some("{\"b\":2}".to_string()),
        None,
    ];
    assert_eq!(
        serialize_sorted_jsonl(encoded),
        vec!["{\"a\":1}", "{\"b\":2}"]
    );
    assert!(serialize_sorted_jsonl(Vec::new()).is_empty());
    assert!(serialize_sorted_jsonl(vec![None]).is_empty());
}

fn encode(record: &VacuumRecord) -> Option<String> {
    let text = |value: &Option<String>| match value {
        Some(text) => serde_json::Value::String(text.clone()),
        None => serde_json::Value::Null,
    };
    let mut versions = serde_json::Map::new();
    for entry in &record.tool_versions {
        versions.insert(
            entry.tool.clone(),
            serde_json::Value::String(entry.version.clone()),
        );
    }
    let mut object = serde_json::Map::new();
    object.insert(
        "version".to_string(),
        serde_json::Value::String(record.version.to_string()),
    );
    object.insert(
        "path".to_string(),
        serde_json::Value::String(record.path.clone()),
    );
    object.insert(
        "relative_path".to_string(),
        serde_json::Value::String(record.relative_path.clone()),
    );
    object.insert(
        "root".to_string(),
        serde_json::Value::String(record.root.clone()),
    );
    object.insert(
        "size".to_string(),
        match record.size {
            Some(size) => serde_json::Value::from(size),
            None => serde_json::Value::Null,
        },
    );
    object.insert("mtime".to_string(), text(&record.mtime));
    object.insert("extension".to_string(), text(&record.extension));
    object.insert("mime_guess".to_string(), text(&record.mime_guess));
    object.insert(
        "tool_versions".to_string(),
        serde_json::Value::Object(versions),
    );
    serde_json::to_string(&serde_json::Value::Object(object)).ok()
}

#[test]
fn jsonl_emission_is_one_json_record_per_line() {
    let records = vec![record("b.csv", "/root-b"), record("a.csv", "/root-a")];
    let sorted = sorted_records(&records);
    let lines = serialize_sorted_jsonl(sorted.iter().map(encode).collect());

    assert_eq!(lines.len(), 2);
    let parsed = lines
        .iter()
        .map(|line| {
            serde_json::from_str::<serde_json::Value>(line).expect("json line should parse")
        })
        .collect::<Vec<_>>();

    assert_eq!(parsed[0]["relative_path"], "a.csv");
    assert_eq!(parsed[1]["relative_path"], "b.csv");
    assert_eq!(parsed[0]["version"], "vacuum.v0");
    let mut expected = serde_json::Map::new();
    expected.insert(
        "vacuum".to_string(),
        serde_json::Value::String("0.1.0".to_string()),
    );
    assert_eq!(
        parsed[1]["tool_versions"],
        serde_json::Value::Object(expected)
    );
    assert!(lines.iter().all(|line| !line.contains('\n')));
}

fn is_sorted_by_key(records: &[VacuumRecord]) -> bool {
    let listed = keys(records);
    let mut sorted = listed.clone();
    sorted.sort();
    listed == sorted
}

fn nested_walk() -> RootWalk {
    walked(
        "/fixtures/nested",
        &["root.txt", "region/north.tsv", "region/deep/leaf.yaml"],
    )
}

fn simple_walk() -> RootWalk {
    walked("/fixtures/simple", &["gamma.pdf", "alpha.csv", "beta.txt"])
}

#[test]
fn sort_contract_nested_fixture() {
    let listed = manifest(scan_roots(&vec![nested_walk()], true), &[], &[]);
    assert_eq!(listed.len(), 3);
    assert!(is_sorted_by_key(&listed));
}

#[test]
fn sort_contract_simple_fixture() {
    let listed = manifest(scan_roots(&vec![simple_walk()], true), &[], &[]);
    assert_eq!(listed.len(), 3);
    assert!(is_sorted_by_key(&listed));
}

#[test]
fn sort_contract_multi_root_fixture() {
    let listed = manifest(
        scan_roots(&vec![nested_walk(), simple_walk()], true),
        &[],
        &[],
    );
    assert_eq!(listed.len(), 6);
    assert!(is_sorted_by_key(&listed));
}

#[test]
fn idempotent_scans_produce_equivalent_ordered_record_sets() {
    let first = manifest(scan_roots(&vec![nested_walk()], true), &[], &[]);
    let second = manifest(scan_roots(&vec![nested_walk()], true), &[], &[]);
    assert_eq!(first, second);
}

#[test]
fn operator_manifest_is_valid_json() {
    let manifest: serde_json::Value =
        serde_json::from_str(operator_manifest()).expect("operator manifest should parse");

    assert_eq!(manifest["schema_version"], "operator.v0");
    assert_eq!(manifest["name"], "vacuum");
    assert_eq!(manifest["exit_codes"]["0"]["meaning"], "SCAN_COMPLETE");
    assert_eq!(manifest["exit_codes"]["2"]["meaning"], "REFUSAL");
    assert_eq!(
        manifest["pipeline"]["upstream"],
        serde_json::Value::Array(Vec::new())
    );
    assert_eq!(
        manifest["pipeline"]["downstream"],
        serde_json::Value::Array(vec![serde_json::Value::String("hash".to_string())])
    );
}

#[test]
fn schema_stub_is_json_with_the_record_title() {
    let schema: serde_json::Value =
        serde_json::from_str(SCHEMA_STUB).expect("schema should parse");
    assert_eq!(
        schema["$schema"],
        "https://json-schema.org/draft/2020-12/schema"
    );
    assert_eq!(schema["title"], "vacuum.v0");
}

#[test]
fn a_root_that_changed_between_two_traversals_shows_in_the_order() {
    let seen = |size: u64| RootWalk {
        root: "/r".to_string(),
        items: vec![WalkItem::Entry {
            depth: 1,
            is_dir: false,
            path: "/r/a.txt".to_string(),
            stat: EntryStat::Resolved {
                size,
                modified: None,
                canonical: None,
            },
            seen_at: 0,
        }],
    };
    let early_first = manifest(scan_roots(&vec![seen(1), seen(2)], false), &[], &[]);
    let late_first = manifest(scan_roots(&vec![seen(2), seen(1)], false), &[], &[]);
    let sizes = |records: &[VacuumRecord]| {
        records
            .iter()
            .map(|record| record.size)
            .collect::<Vec<_>>()
    };
    assert_eq!(sizes(&early_first), vec![Some(1), Some(2)]);
    assert_eq!(sizes(&late_first), vec![Some(2), Some(1)]);
}
