use vacuum::cli::args::{Command, WitnessAction};
use vacuum::witness::ledger::resolve_ledger_path;
use vacuum::witness::query::{
    dispatch, dispatch_witness, read_entries, run_count, run_last, run_query, LedgerEntry,
    LedgerRead, QueryFilter, QueryReply, NO_MATCH_EXIT,
};
use vacuum::witness::record::WitnessRecord;

const FIRST: &str = r#"{"version":"witness.v0","tool":"vacuum","outcome":"SCAN_COMPLETE","exit_code":0,"ts":"2026-01-01T00:00:00.000Z","input_hash":"abc123"}"#;
const SECOND: &str = r#"{"version":"witness.v0","tool":"vacuum","outcome":"REFUSAL","exit_code":2,"ts":"2026-01-02T00:00:00.000Z","input_hash":"def456"}"#;
const THIRD: &str = r#"{"version":"witness.v0","tool":"other","outcome":"SCAN_COMPLETE","exit_code":0,"ts":"2026-01-03T00:00:00.000Z","input_hash":"ghi789"}"#;

fn ledger_text() -> String {
    format!("{FIRST}\n{SECOND}\n{THIRD}\n")
}

fn ledger() -> Vec<LedgerEntry> {
    read_entries(&ledger_text())
}

fn no_filter() -> QueryFilter {
    QueryFilter {
        tool: None,
        since: None,
        until: None,
        outcome: None,
        input_hash: None,
    }
}

fn text(value: &str) -> Option<String> {
    Some(value.to_string())
}

fn reply(exit_code: u8, stdout: &[&str]) -> QueryReply {
    QueryReply {
        exit_code,
        stdout: stdout.iter().map(|line| line.to_string()).collect(),
        stderr: Vec::new(),
    }
}

#[test]
fn ledger_entries_are_the_lines_that_are_json() {
    let entries = read_entries(&format!("{FIRST}\nnot json\n\n{THIRD}\r\n{{\"open\":\n"));
    assert_eq!(entries.len(), 2);
    assert_eq!(entries[0].raw, FIRST);
    assert_eq!(entries[1].raw, THIRD);
    assert_eq!(entries[0].value["tool"], "vacuum");
    assert_eq!(entries[1].value["tool"], "other");
    assert!(read_entries("").is_empty());
}

#[test]
fn json_scalars_are_entries_too() {
    let entries = read_entries("1\n\"text\"\nnull\n[]\n");
    assert_eq!(entries.len(), 4);
    assert_eq!(
        run_last(&entries, false),
        reply(0, &["<no-ts> <no-outcome> <no-tool>"])
    );
}

#[test]
fn witness_query_filters_and_limits_results_in_json_mode() {
    let filter = QueryFilter {
        tool: text("vacuum"),
        outcome: text("SCAN_COMPLETE"),
        ..no_filter()
    };
    let out = run_query(&ledger(), &filter, Some(1), true);
    assert_eq!(out.exit_code, 0);
    assert_eq!(out.stdout.len(), 1);
    let rows: Vec<serde_json::Value> =
        serde_json::from_str(&out.stdout[0]).expect("query output should be json array");
    assert_eq!(rows.len(), 1);
    assert_eq!(rows[0]["tool"], "vacuum");
    assert_eq!(rows[0]["outcome"], "SCAN_COMPLETE");
}

#[test]
fn query_in_human_mode_gives_one_row_per_match_and_no_match_exits_one() {
    let filter = QueryFilter {
        tool: text("vacuum"),
        ..no_filter()
    };
    assert_eq!(
        run_query(&ledger(), &filter, None, false),
        reply(
            0,
            &[
                "2026-01-01T00:00:00.000Z SCAN_COMPLETE vacuum",
                "2026-01-02T00:00:00.000Z REFUSAL vacuum"
            ]
        )
    );
    let missing = QueryFilter {
        tool: text("missing"),
        ..no_filter()
    };
    assert_eq!(run_query(&ledger(), &missing, None, false), reply(1, &[]));
    assert_eq!(run_query(&ledger(), &missing, None, true), reply(1, &["[]"]));
}

#[test]
fn witness_last_returns_most_recent_record() {
    let out = run_last(&ledger(), true);
    assert_eq!(out.exit_code, 0);
    assert_eq!(out.stdout.len(), 1);
    let row: serde_json::Value =
        serde_json::from_str(&out.stdout[0]).expect("last output should be json object");
    assert_eq!(row["tool"], "other");
    assert_eq!(row["ts"], "2026-01-03T00:00:00.000Z");
}

#[test]
fn last_in_human_mode_gives_one_row_and_an_empty_ledger_exits_one() {
    assert_eq!(
        run_last(&ledger(), false),
        reply(0, &["2026-01-03T00:00:00.000Z SCAN_COMPLETE other"])
    );
    assert_eq!(run_last(&[], false), reply(1, &[]));
    assert_eq!(run_last(&[], true), reply(1, &["{}"]));
}

#[test]
fn witness_count_honors_filters_and_no_match_exit_code() {
    let filter = QueryFilter {
        tool: text("vacuum"),
        input_hash: text("def"),
        ..no_filter()
    };
    assert_eq!(
        run_count(&ledger(), &filter, true),
        reply(0, &["{\"count\":1}"])
    );
    assert_eq!(run_count(&ledger(), &no_filter(), false), reply(0, &["3"]));
    let missing = QueryFilter {
        tool: text("missing"),
        ..no_filter()
    };
    assert_eq!(
        run_count(&ledger(), &missing, true),
        reply(NO_MATCH_EXIT, &["{\"count\":0}"])
    );
    assert_eq!(run_count(&ledger(), &missing, false), reply(1, &["0"]));
    assert_eq!(run_count(&[], &no_filter(), false), reply(1, &["0"]));
}

#[test]
fn json_output_is_written_compactly_with_sorted_keys() {
    let entries = read_entries("{ \"tool\" : \"t\",   \"a\": [1, 2] }\n");
    assert_eq!(
        run_last(&entries, true),
        reply(0, &["{\"a\":[1,2],\"tool\":\"t\"}"])
    );
    assert_eq!(
        run_query(&entries, &no_filter(), None, true),
        reply(0, &["[{\"a\":[1,2],\"tool\":\"t\"}]"])
    );
}

#[test]
fn time_range_is_inclusive_and_compared_as_text() {
    let entries = ledger();
    let since = QueryFilter {
        since: text("2026-01-02T00:00:00.000Z"),
        ..no_filter()
    };
    assert_eq!(run_count(&entries, &since, false), reply(0, &["2"]));
    let until = QueryFilter {
        until: text("2026-01-02T00:00:00.000Z"),
        ..no_filter()
    };
    assert_eq!(run_count(&entries, &until, false), reply(0, &["2"]));
    let between = QueryFilter {
        since: text("2026-01-01T12:00:00.000Z"),
        until: text("2026-01-02T12:00:00.000Z"),
        ..no_filter()
    };
    assert_eq!(
        run_query(&entries, &between, None, false),
        reply(0, &["2026-01-02T00:00:00.000Z REFUSAL vacuum"])
    );
    let never = QueryFilter {
        since: text("2027"),
        ..no_filter()
    };
    assert_eq!(run_count(&entries, &never, false), reply(1, &["0"]));
}

#[test]
fn entries_without_time_stamp_count_as_the_empty_time() {
    let entries = read_entries("{\"tool\":\"vacuum\"}\n{\"tool\":\"vacuum\",\"ts\":7}\n");
    let since = QueryFilter {
        since: text("2026"),
        ..no_filter()
    };
    assert_eq!(run_count(&entries, &since, false), reply(1, &["0"]));
    let until = QueryFilter {
        until: text("2026"),
        ..no_filter()
    };
    assert_eq!(run_count(&entries, &until, false), reply(0, &["2"]));
    let empty_since = QueryFilter {
        since: text(""),
        ..no_filter()
    };
    assert_eq!(run_count(&entries, &empty_since, false), reply(0, &["2"]));
}

#[test]
fn tool_and_outcome_must_be_the_very_strings() {
    let entries = read_entries(
        "{\"tool\":\"vacuum\",\"outcome\":\"REFUSAL\"}\n{\"tool\":\"Vacuum\"}\n{\"tool\":7}\n{}\n",
    );
    let tool = QueryFilter {
        tool: text("vacuum"),
        ..no_filter()
    };
    assert_eq!(run_count(&entries, &tool, false), reply(0, &["1"]));
    let outcome = QueryFilter {
        outcome: text("REFUSAL"),
        ..no_filter()
    };
    assert_eq!(run_count(&entries, &outcome, false), reply(0, &["1"]));
    let prefix = QueryFilter {
        tool: text("vac"),
        ..no_filter()
    };
    assert_eq!(run_count(&entries, &prefix, false), reply(1, &["0"]));
}

#[test]
fn input_hash_is_looked_for_in_the_raw_line() {
    let entries = ledger();
    let by_value = QueryFilter {
        input_hash: text("ghi789"),
        ..no_filter()
    };
    assert!(entries[2].matches(&by_value));
    assert!(!entries[0].matches(&by_value));
    let by_key = QueryFilter {
        input_hash: text("\"input_hash\":"),
        ..no_filter()
    };
    assert_eq!(run_count(&entries, &by_key, false), reply(0, &["3"]));
    let nowhere = QueryFilter {
        input_hash: text("zzz"),
        ..no_filter()
    };
    assert_eq!(run_count(&entries, &nowhere, false), reply(1, &["0"]));
}

#[test]
fn limit_cuts_the_matches_from_the_front() {
    let entries = ledger();
    let all = run_query(&entries, &no_filter(), None, false);
    assert_eq!(all.stdout.len(), 3);
    let two = run_query(&entries, &no_filter(), Some(2), false);
    assert_eq!(two.exit_code, 0);
    assert_eq!(two.stdout, all.stdout[..2].to_vec());
    let many = run_query(&entries, &no_filter(), Some(10), false);
    assert_eq!(many, all);
    assert_eq!(
        run_query(&entries, &no_filter(), Some(0), false),
        reply(1, &[])
    );
    assert_eq!(
        run_query(&entries, &no_filter(), Some(0), true),
        reply(1, &["[]"])
    );
}

#[test]
fn members_that_are_missing_get_placeholders() {
    let entries = read_entries("{\"outcome\":\"X\"}\n");
    assert_eq!(
        run_last(&entries, false),
        reply(0, &["<no-ts> X <no-tool>"])
    );
}

#[test]
fn missing_ledger_is_an_empty_ledger() {
    let last = WitnessAction::Last { json: true };
    assert_eq!(
        dispatch_witness(&last, &LedgerRead::Missing),
        reply(1, &["{}"])
    );
    let count = WitnessAction::Count {
        tool: None,
        since: None,
        until: None,
        outcome: None,
        input_hash: None,
        json: false,
    };
    assert_eq!(
        dispatch_witness(&count, &LedgerRead::Contents(String::new())),
        reply(1, &["0"])
    );
}

#[test]
fn unreadable_ledger_is_refused_with_a_complaint() {
    let last = WitnessAction::Last { json: false };
    let out = dispatch_witness(
        &last,
        &LedgerRead::Failed("Permission denied (os error 13)".to_string()),
    );
    assert_eq!(out.exit_code, 2);
    assert!(out.stdout.is_empty());
    assert_eq!(
        out.stderr,
        vec!["vacuum: witness read failed: Permission denied (os error 13)"]
    );
}

#[test]
fn dispatch_answers_each_action_from_the_ledger_text() {
    let read = LedgerRead::Contents(ledger_text());
    let query = Command::Witness {
        action: WitnessAction::Query {
            tool: text("vacuum"),
            since: None,
            until: None,
            outcome: text("SCAN_COMPLETE"),
            input_hash: None,
            limit: Some(1),
            json: false,
        },
    };
    assert_eq!(
        dispatch(&query, &read),
        reply(0, &["2026-01-01T00:00:00.000Z SCAN_COMPLETE vacuum"])
    );
    let count = Command::Witness {
        action: WitnessAction::Count {
            tool: text("vacuum"),
            since: None,
            until: None,
            outcome: None,
            input_hash: text("def"),
            json: true,
        },
    };
    assert_eq!(dispatch(&count, &read), reply(0, &["{\"count\":1}"]));
    let last = Command::Witness {
        action: WitnessAction::Last { json: false },
    };
    assert_eq!(
        dispatch(&last, &read),
        reply(0, &["2026-01-03T00:00:00.000Z SCAN_COMPLETE other"])
    );
}

#[test]
fn stamped_witness_record_holds_what_it_was_given() {
    let record = WitnessRecord::stamped("REFUSAL", 2, "2026-01-01T00:00:00.000Z".to_string());
    assert_eq!(
        record,
        WitnessRecord {
            version: "witness.v0",
            tool: "vacuum".to_string(),
            outcome: "REFUSAL".to_string(),
            exit_code: 2,
            ts: "2026-01-01T00:00:00.000Z".to_string(),
        }
    );
}

#[test]
fn new_witness_record_differs_from_a_stamped_one_in_time_only() {
    let made = WitnessRecord::new("SCAN_COMPLETE", 0);
    let stamped = WitnessRecord::stamped("SCAN_COMPLETE", 0, made.ts.clone());
    assert_eq!(made, stamped);
    assert!(made.ts.ends_with('Z'));
}

#[test]
fn ledger_path_follows_the_settings_in_their_order() {
    assert_eq!(
        resolve_ledger_path(Some("/var/log/w.jsonl"), Some("/home/u"), Some("C:\\Users\\u")),
        "/var/log/w.jsonl"
    );
    assert_eq!(
        resolve_ledger_path(None, Some("/home/u"), Some("/profile")),
        "/home/u/.epistemic/witness.jsonl"
    );
    assert_eq!(
        resolve_ledger_path(None, None, Some("/profile")),
        "/profile/.epistemic/witness.jsonl"
    );
    assert_eq!(
        resolve_ledger_path(None, None, None),
        ".epistemic/witness.jsonl"
    );
    assert_eq!(resolve_ledger_path(Some(""), Some("/home/u"), None), "");
}
