//! Questions put to the audit ledger: which entries fit a filter, the last
//! entry, and how many fit.

use vstd::prelude::*;

use crate::cli::args::{Command, WitnessAction};
use crate::cli::exit::{REFUSAL, SCAN_COMPLETE};
use crate::record::builder::{clone_text, text_of};
use crate::text::{
    compare_text, contains, decimal, joined, lines_of, same_text, split_lines, text_contains,
    text_lt, texts, to_decimal, Order,
};

verus! {

/// The exit code of a query that found nothing.
pub const NO_MATCH_EXIT: u8 = 1;

// Ledger lines are read and written by serde_json. Its `Value` passes
// through this module unopened; what is claimed of it is said by the four
// names below and by the contracts of the five functions that call into the
// crate.

#[verifier::external_type_specification]
#[verifier::external_body]
pub struct ExValue(serde_json::Value);

/// The document that serde_json parses from one line of text; `None` where
/// the line is no JSON document.
pub uninterp spec fn json_document(line: Seq<char>) -> Option<serde_json::Value>;

/// The string that a JSON value holds under `key`; `None` where the value is
/// no object, has no such member, or the member is no string.
pub uninterp spec fn json_string_member(value: serde_json::Value, key: Seq<char>) -> Option<
    Seq<char>,
>;

/// A JSON value written by serde_json in its compact form; `None` where
/// serde_json fails to write it.
pub uninterp spec fn json_encoding(value: serde_json::Value) -> Option<Seq<char>>;

/// A list of JSON values written by serde_json as one array in compact form;
/// `None` where serde_json fails to write it.
pub uninterp spec fn json_array_encoding(values: Seq<serde_json::Value>) -> Option<Seq<char>>;

/// Calls `serde_json::from_str` for a `Value`. Nothing is claimed of the
/// result but that it is `json_document` of the line.
#[verifier::external_body]
fn parse_document(line: &str) -> (out: Option<serde_json::Value>)
    ensures
        out == json_document(line@),
{
    serde_json::from_str::<serde_json::Value>(line).ok()
}

/// Calls `Value::get` of serde_json with a string key and `Value::as_str` on
/// what it finds. Nothing is claimed of the result but that it is
/// `json_string_member` of the value and the key.
#[verifier::external_body]
fn string_member(value: &serde_json::Value, key: &str) -> (out: Option<String>)
    ensures
        text_of(out) == json_string_member(*value, key@),
{
    match value.get(key) {
        Some(member) => match member.as_str() {
            Some(text) => Some(text.to_string()),
            None => None,
        },
        None => None,
    }
}

/// Calls `serde_json::to_string` on a `Value`. Nothing is claimed of the
/// result but that it is `json_encoding` of the value.
#[verifier::external_body]
fn encode(value: &serde_json::Value) -> (out: Option<String>)
    ensures
        text_of(out) == json_encoding(*value),
{
    serde_json::to_string(value).ok()
}

/// Calls `serde_json::to_string` on a list of `Value`s. Nothing is claimed of
/// the result but that it is `json_array_encoding` of the list.
#[verifier::external_body]
fn encode_all(values: &Vec<serde_json::Value>) -> (out: Option<String>)
    ensures
        text_of(out) == json_array_encoding(values@),
{
    serde_json::to_string(values).ok()
}

/// A copy of a JSON value, made by its `clone`.
#[verifier::external_body]
fn clone_value(value: &serde_json::Value) -> (out: serde_json::Value)
    ensures
        out == *value,
{
    value.clone()
}

/// What a ledger query asks of an entry. A condition that is absent asks
/// nothing.
#[derive(Debug, PartialEq, Eq)]
pub struct QueryFilter {
    pub tool: Option<String>,
    pub since: Option<String>,
    pub until: Option<String>,
    pub outcome: Option<String>,
    pub input_hash: Option<String>,
}

/// One line of the ledger that is a JSON document: the line as it stood, and
/// the document.
#[derive(Debug)]
pub struct LedgerEntry {
    pub raw: String,
    pub value: serde_json::Value,
}

/// A ledger entry as contracts see it.
pub struct EntryView {
    pub raw: Seq<char>,
    pub value: serde_json::Value,
}

/// A filter as contracts see it.
pub struct FilterView {
    pub tool: Option<Seq<char>>,
    pub since: Option<Seq<char>>,
    pub until: Option<Seq<char>>,
    pub outcome: Option<Seq<char>>,
    pub input_hash: Option<Seq<char>>,
}

impl View for LedgerEntry {
    type V = EntryView;

    open spec fn view(&self) -> EntryView {
        EntryView { raw: self.raw@, value: self.value }
    }
}

impl View for QueryFilter {
    type V = FilterView;

    open spec fn view(&self) -> FilterView {
        FilterView {
            tool: text_of(self.tool),
            since: text_of(self.since),
            until: text_of(self.until),
            outcome: text_of(self.outcome),
            input_hash: text_of(self.input_hash),
        }
    }
}

/// The views of a sequence of entries, in order.
pub open spec fn entry_views(entries: Seq<LedgerEntry>) -> Seq<EntryView> {
    entries.map_values(|entry: LedgerEntry| entry@)
}

impl EntryView {
    /// The entry's time stamp; the empty string where it has none.
    pub open spec fn timestamp(self) -> Seq<char> {
        match json_string_member(self.value, "ts"@) {
            Some(found) => found,
            None => Seq::empty(),
        }
    }

    /// The entry meets every condition of the filter: tool and outcome are
    /// the strings asked for, the time stamp is not before `since` and not
    /// after `until`, byte-wise, and the line holds `input_hash` as a
    /// substring.
    pub open spec fn fits(self, filter: FilterView) -> bool {
        &&& filter.tool matches Some(tool) ==> json_string_member(self.value, "tool"@) == Some(
            tool,
        )
        &&& filter.outcome matches Some(outcome) ==> json_string_member(self.value, "outcome"@)
            == Some(outcome)
        &&& filter.since matches Some(since) ==> !text_lt(self.timestamp(), since)
        &&& filter.until matches Some(until) ==> !text_lt(until, self.timestamp())
        &&& filter.input_hash matches Some(needle) ==> text_contains(self.raw, needle)
    }
}

/// A member of a JSON value, or `fallback` where the value has none.
pub open spec fn member_or(value: serde_json::Value, key: Seq<char>, fallback: Seq<char>) -> Seq<
    char,
> {
    match json_string_member(value, key) {
        Some(found) => found,
        None => fallback,
    }
}

/// A document as one line for a reader: time stamp, outcome and tool, a
/// placeholder standing in for each that is missing.
pub open spec fn summary_of(value: serde_json::Value) -> Seq<char> {
    member_or(value, "ts"@, "<no-ts>"@) + " "@ + member_or(value, "outcome"@, "<no-outcome>"@)
        + " "@ + member_or(value, "tool"@, "<no-tool>"@)
}

/// The entries of a ledger: one for each line that is a JSON document, in
/// the order of the lines. Other lines are passed over.
pub open spec fn ledger_entries(lines: Seq<Seq<char>>) -> Seq<EntryView>
    decreases lines.len(),
{
    if lines.len() == 0 {
        Seq::empty()
    } else {
        let before = ledger_entries(lines.drop_last());
        match json_document(lines.last()) {
            Some(value) => before.push(EntryView { raw: lines.last(), value }),
            None => before,
        }
    }
}

/// The entries that fit a filter, in their order.
pub open spec fn matching(entries: Seq<EntryView>, filter: FilterView) -> Seq<EntryView> {
    entries.filter(|entry: EntryView| entry.fits(filter))
}

/// The documents of a sequence of entries, in order.
pub open spec fn documents(entries: Seq<EntryView>) -> Seq<serde_json::Value> {
    entries.map_values(|entry: EntryView| entry.value)
}

/// The first `limit` of a sequence, or all of it where no limit is set or it
/// is shorter.
pub open spec fn limited<T>(items: Seq<T>, limit: Option<usize>) -> Seq<T> {
    match limit {
        Some(most) if most < items.len() => items.take(most as int),
        _ => items,
    }
}

impl LedgerEntry {
    /// Whether the entry meets every condition of the filter.
    pub fn matches(&self, filter: &QueryFilter) -> (fits: bool)
        ensures
            fits == self@.fits(filter@),
    {
        match &filter.tool {
            Some(tool) => {
                match string_member(&self.value, "tool") {
                    Some(found) => {
                        if !same_text(found.as_str(), tool.as_str()) {
                            return false;
                        }
                    },
                    None => {
                        return false;
                    },
                }
            },
            None => {},
        }
        match &filter.outcome {
            Some(outcome) => {
                match string_member(&self.value, "outcome") {
                    Some(found) => {
                        if !same_text(found.as_str(), outcome.as_str()) {
                            return false;
                        }
                    },
                    None => {
                        return false;
                    },
                }
            },
            None => {},
        }
        let stamp = match string_member(&self.value, "ts") {
            Some(found) => found,
            None => String::new(),
        };
        match &filter.since {
            Some(since) => {
                match compare_text(stamp.as_str(), since.as_str()) {
                    Order::Less => {
                        return false;
                    },
                    _ => {},
                }
            },
            None => {},
        }
        match &filter.until {
            Some(until) => {
                match compare_text(stamp.as_str(), until.as_str()) {
                    Order::Greater => {
                        return false;
                    },
                    _ => {},
                }
            },
            None => {},
        }
        match &filter.input_hash {
            Some(needle) => {
                if !contains(self.raw.as_str(), needle.as_str()) {
                    return false;
                }
            },
            None => {},
        }
        true
    }
}

/// Reads the entries of a ledger from its text.
pub fn read_entries(contents: &str) -> (entries: Vec<LedgerEntry>)
    ensures
        entry_views(entries@) == ledger_entries(lines_of(contents@)),
{
    let lines = split_lines(contents);
    let ghost all = texts(lines@);
    let mut entries: Vec<LedgerEntry> = Vec::new();
    let mut i: usize = 0;
    proof {
        assert(all.take(0) =~= Seq::<Seq<char>>::empty());
        assert(entry_views(entries@) =~= Seq::<EntryView>::empty());
    }
    while i < lines.len()
        invariant
            i <= lines.len(),
            all == texts(lines@),
            entry_views(entries@) == ledger_entries(all.take(i as int)),
        decreases lines.len() - i,
    {
        let ghost before = entry_views(entries@);
        match parse_document(lines[i].as_str()) {
            Some(value) => {
                entries.push(LedgerEntry { raw: lines[i].clone(), value });
                proof {
                    assert(entry_views(entries@) =~= before.push(
                        EntryView { raw: all[i as int], value },
                    ));
                }
            },
            None => {},
        }
        proof {
            assert(all.take(i + 1).drop_last() == all.take(i as int));
            assert(all.take(i + 1).last() == all[i as int]);
        }
        i += 1;
    }
    proof {
        assert(all.take(lines.len() as int) == all);
    }
    entries
}

/// A member of a document as text, or `fallback` where it has none.
fn member_text(value: &serde_json::Value, key: &str, fallback: &str) -> (out: String)
    ensures
        out@ == member_or(*value, key@, fallback@),
{
    match string_member(value, key) {
        Some(found) => found,
        None => fallback.to_string(),
    }
}

/// A document as one line for a reader.
fn summarize(value: &serde_json::Value) -> (line: String)
    ensures
        line@ == summary_of(*value),
{
    let mut line = member_text(value, "ts", "<no-ts>");
    line.append(" ");
    line.append(member_text(value, "outcome", "<no-outcome>").as_str());
    line.append(" ");
    line.append(member_text(value, "tool", "<no-tool>").as_str());
    line
}

/// What a ledger query answers: the exit code, and the lines for the two
/// streams.
#[derive(Debug, PartialEq, Eq)]
pub struct QueryReply {
    pub exit_code: u8,
    pub stdout: Vec<String>,
    pub stderr: Vec<String>,
}

/// A reply as contracts see it.
pub struct ReplyView {
    pub exit_code: u8,
    pub stdout: Seq<Seq<char>>,
    pub stderr: Seq<Seq<char>>,
}

impl View for QueryReply {
    type V = ReplyView;

    open spec fn view(&self) -> ReplyView {
        ReplyView {
            exit_code: self.exit_code,
            stdout: texts(self.stdout@),
            stderr: texts(self.stderr@),
        }
    }
}

/// The exit code of a query that found `found` entries.
pub open spec fn found_code(found: nat) -> u8 {
    if found == 0 {
        NO_MATCH_EXIT
    } else {
        SCAN_COMPLETE
    }
}

/// The summaries of a sequence of documents, in order.
pub open spec fn summaries(values: Seq<serde_json::Value>) -> Seq<Seq<char>> {
    values.map_values(|value: serde_json::Value| summary_of(value))
}

/// The answer to `query`: the documents of the entries that fit, no more
/// than `limit` of them, as one JSON array or as one summary each; the code
/// tells whether there was any.
pub open spec fn query_reply(
    entries: Seq<EntryView>,
    filter: FilterView,
    limit: Option<usize>,
    json_mode: bool,
) -> ReplyView {
    let found = limited(documents(matching(entries, filter)), limit);
    ReplyView {
        exit_code: found_code(found.len()),
        stdout: if json_mode {
            seq![
                match json_array_encoding(found) {
                    Some(text) => text,
                    None => "[]"@,
                },
            ]
        } else {
            summaries(found)
        },
        stderr: Seq::empty(),
    }
}

/// The answer to `last`: the last entry of the ledger, as JSON or as a
/// summary; an empty ledger answers with the no-match code and, in JSON
/// mode, an empty object.
pub open spec fn last_reply(entries: Seq<EntryView>, json_mode: bool) -> ReplyView {
    if entries.len() == 0 {
        ReplyView {
            exit_code: NO_MATCH_EXIT,
            stdout: if json_mode {
                seq!["{}"@]
            } else {
                Seq::empty()
            },
            stderr: Seq::empty(),
        }
    } else {
        ReplyView {
            exit_code: SCAN_COMPLETE,
            stdout: if json_mode {
                seq![
                    match json_encoding(entries.last().value) {
                        Some(text) => text,
                        None => "{}"@,
                    },
                ]
            } else {
                seq![summary_of(entries.last().value)]
            },
            stderr: Seq::empty(),
        }
    }
}

/// The line that tells a count in JSON mode.
pub open spec fn count_document(count: nat) -> Seq<char> {
    "{\"count\":"@ + decimal(count) + "}"@
}

/// The answer to `count`: how many entries fit, as a JSON object or as the
/// bare number; the code tells whether there was any.
pub open spec fn count_reply(entries: Seq<EntryView>, filter: FilterView, json_mode: bool) -> ReplyView {
    let count = matching(entries, filter).len();
    ReplyView {
        exit_code: found_code(count),
        stdout: seq![
            if json_mode {
                count_document(count)
            } else {
                decimal(count)
            },
        ],
        stderr: Seq::empty(),
    }
}

/// Answers `query`.
pub fn run_query(
    entries: &[LedgerEntry],
    filter: &QueryFilter,
    limit: Option<usize>,
    json_mode: bool,
) -> (reply: QueryReply)
    ensures
        reply@ == query_reply(entry_views(entries@), filter@, limit, json_mode),
{
    let ghost views = entry_views(entries@);
    let mut found: Vec<serde_json::Value> = Vec::new();
    let mut i: usize = 0;
    proof {
        reveal(Seq::filter);
        assert(views.take(0) =~= Seq::<EntryView>::empty());
        assert(found@ =~= documents(matching(views.take(0), filter@)));
    }
    while i < entries.len()
        invariant
            i <= entries.len(),
            views == entry_views(entries@),
            found@ == documents(matching(views.take(i as int), filter@)),
        decreases entries.len() - i,
    {
        let ghost before = matching(views.take(i as int), filter@);
        let fits = entries[i].matches(filter);
        if fits {
            found.push(clone_value(&entries[i].value));
        }
        proof {
            reveal(Seq::filter);
            assert(views.take(i + 1).drop_last() == views.take(i as int));
            assert(views.take(i + 1).last() == entries[i as int]@);
            if fits {
                assert(documents(before.push(entries[i as int]@)) =~= documents(before).push(
                    entries[i as int].value,
                ));
            }
        }
        i += 1;
    }
    proof {
        assert(views.take(entries.len() as int) == views);
    }
    match limit {
        Some(most) => {
            found.truncate(most);
        },
        None => {},
    }
    assert(found@ == limited(documents(matching(views, filter@)), limit));
    let mut stdout: Vec<String> = Vec::new();
    if json_mode {
        let text = match encode_all(&found) {
            Some(text) => text,
            None => "[]".to_string(),
        };
        stdout.push(text);
        proof {
            assert(texts(stdout@) =~= seq![text@]);
        }
    } else {
        let mut k: usize = 0;
        while k < found.len()
            invariant
                k <= found.len(),
                stdout.len() == k,
                forall|m: int| 0 <= m < k ==> (#[trigger] stdout[m])@ == summary_of(found[m]),
            decreases found.len() - k,
        {
            stdout.push(summarize(&found[k]));
            k += 1;
        }
        proof {
            assert(texts(stdout@) =~= summaries(found@));
        }
    }
    let exit_code = if found.len() == 0 {
        NO_MATCH_EXIT
    } else {
        SCAN_COMPLETE
    };
    let stderr: Vec<String> = Vec::new();
    proof {
        assert(texts(stderr@) =~= Seq::<Seq<char>>::empty());
    }
    QueryReply { exit_code, stdout, stderr }
}

/// Answers `last`.
pub fn run_last(entries: &[LedgerEntry], json_mode: bool) -> (reply: QueryReply)
    ensures
        reply@ == last_reply(entry_views(entries@), json_mode),
{
    let mut stdout: Vec<String> = Vec::new();
    let stderr: Vec<String> = Vec::new();
    proof {
        assert(texts(stderr@) =~= Seq::<Seq<char>>::empty());
        assert(texts(stdout@) =~= Seq::<Seq<char>>::empty());
    }
    if entries.len() == 0 {
        if json_mode {
            stdout.push("{}".to_string());
            proof {
                assert(texts(stdout@) =~= seq!["{}"@]);
            }
        }
        return QueryReply { exit_code: NO_MATCH_EXIT, stdout, stderr };
    }
    let last = &entries[entries.len() - 1];
    proof {
        assert(entry_views(entries@).last() == last@);
    }
    let line = if json_mode {
        match encode(&last.value) {
            Some(text) => text,
            None => "{}".to_string(),
        }
    } else {
        summarize(&last.value)
    };
    stdout.push(line);
    proof {
        assert(texts(stdout@) =~= seq![line@]);
    }
    QueryReply { exit_code: SCAN_COMPLETE, stdout, stderr }
}

/// Answers `count`.
pub fn run_count(entries: &[LedgerEntry], filter: &QueryFilter, json_mode: bool) -> (reply: QueryReply)
    ensures
        reply@ == count_reply(entry_views(entries@), filter@, json_mode),
{
    let ghost views = entry_views(entries@);
    let mut count: usize = 0;
    let mut i: usize = 0;
    proof {
        reveal(Seq::filter);
        assert(views.take(0) =~= Seq::<EntryView>::empty());
    }
    while i < entries.len()
        invariant
            i <= entries.len(),
            views == entry_views(entries@),
            count == matching(views.take(i as int), filter@).len(),
            count <= i,
        decreases entries.len() - i,
    {
        let fits = entries[i].matches(filter);
        proof {
            reveal(Seq::filter);
            assert(views.take(i + 1).drop_last() == views.take(i as int));
            assert(views.take(i + 1).last() == entries[i as int]@);
        }
        if fits {
            count += 1;
        }
        i += 1;
    }
    proof {
        assert(views.take(entries.len() as int) == views);
    }
    let number = to_decimal(count as u64);
    let line = if json_mode {
        let mut line = joined("{\"count\":", number.as_str());
        line.append("}");
        line
    } else {
        number
    };
    let mut stdout: Vec<String> = Vec::new();
    stdout.push(line);
    let stderr: Vec<String> = Vec::new();
    proof {
        assert(texts(stdout@) =~= seq![line@]);
        assert(texts(stderr@) =~= Seq::<Seq<char>>::empty());
    }
    let exit_code = if count == 0 {
        NO_MATCH_EXIT
    } else {
        SCAN_COMPLETE
    };
    QueryReply { exit_code, stdout, stderr }
}

/// What came of reading the ledger file.
#[derive(Debug, PartialEq, Eq)]
pub enum LedgerRead {
    /// The file was read; this is its text.
    Contents(String),
    /// There is no ledger file.
    Missing,
    /// The file could not be read; this is the system's own wording.
    Failed(String),
}

/// The conditions that an action puts on the entries.
pub open spec fn conditions(
    tool: Option<String>,
    since: Option<String>,
    until: Option<String>,
    outcome: Option<String>,
    input_hash: Option<String>,
) -> FilterView {
    FilterView {
        tool: text_of(tool),
        since: text_of(since),
        until: text_of(until),
        outcome: text_of(outcome),
        input_hash: text_of(input_hash),
    }
}

/// The answer of an action to a ledger with these entries.
pub open spec fn action_reply(action: WitnessAction, entries: Seq<EntryView>) -> ReplyView {
    match action {
        WitnessAction::Query { tool, since, until, outcome, input_hash, limit, json } => query_reply(
            entries,
            conditions(tool, since, until, outcome, input_hash),
            limit,
            json,
        ),
        WitnessAction::Last { json } => last_reply(entries, json),
        WitnessAction::Count { tool, since, until, outcome, input_hash, json } => count_reply(
            entries,
            conditions(tool, since, until, outcome, input_hash),
            json,
        ),
    }
}

/// The complaint made when the ledger could not be read.
pub open spec fn read_failure_text(error: Seq<char>) -> Seq<char> {
    "vacuum: witness read failed: "@ + error
}

/// The answer of an action, from what came of reading the ledger: a missing
/// ledger is an empty one; a ledger that could not be read is refused with a
/// complaint.
pub open spec fn witness_reply(action: WitnessAction, ledger: LedgerRead) -> ReplyView {
    match ledger {
        LedgerRead::Contents(text) => action_reply(action, ledger_entries(lines_of(text@))),
        LedgerRead::Missing => action_reply(action, Seq::empty()),
        LedgerRead::Failed(error) => ReplyView {
            exit_code: REFUSAL,
            stdout: Seq::empty(),
            stderr: seq![read_failure_text(error@)],
        },
    }
}

fn filter_of(
    tool: &Option<String>,
    since: &Option<String>,
    until: &Option<String>,
    outcome: &Option<String>,
    input_hash: &Option<String>,
) -> (filter: QueryFilter)
    ensures
        filter@ == conditions(*tool, *since, *until, *outcome, *input_hash),
{
    QueryFilter {
        tool: clone_text(tool),
        since: clone_text(since),
        until: clone_text(until),
        outcome: clone_text(outcome),
        input_hash: clone_text(input_hash),
    }
}

/// Answers a question put to the ledger.
pub fn dispatch_witness(action: &WitnessAction, ledger: &LedgerRead) -> (reply: QueryReply)
    ensures
        reply@ == witness_reply(*action, *ledger),
{
    let entries = match ledger {
        LedgerRead::Contents(text) => read_entries(text.as_str()),
        LedgerRead::Missing => {
            let none: Vec<LedgerEntry> = Vec::new();
            proof {
                assert(entry_views(none@) =~= Seq::<EntryView>::empty());
            }
            none
        },
        LedgerRead::Failed(error) => {
            let stdout: Vec<String> = Vec::new();
            let mut stderr: Vec<String> = Vec::new();
            stderr.push(joined("vacuum: witness read failed: ", error.as_str()));
            proof {
                assert(texts(stdout@) =~= Seq::<Seq<char>>::empty());
                assert(texts(stderr@) =~= seq![read_failure_text(error@)]);
            }
            return QueryReply { exit_code: REFUSAL, stdout, stderr };
        },
    };
    match action {
        WitnessAction::Query { tool, since, until, outcome, input_hash, limit, json } => {
            let filter = filter_of(tool, since, until, outcome, input_hash);
            run_query(entries.as_slice(), &filter, *limit, *json)
        },
        WitnessAction::Last { json } => run_last(entries.as_slice(), *json),
        WitnessAction::Count { tool, since, until, outcome, input_hash, json } => {
            let filter = filter_of(tool, since, until, outcome, input_hash);
            run_count(entries.as_slice(), &filter, *json)
        },
    }
}

/// Answers a subcommand.
pub fn dispatch(command: &Command, ledger: &LedgerRead) -> (reply: QueryReply)
    ensures
        match *command {
            Command::Witness { action } => reply@ == witness_reply(action, *ledger),
        },
{
    match command {
        Command::Witness { action } => dispatch_witness(action, ledger),
    }
}

} // verus!
