//! Deterministic file manifests: the rules by which traversal observations
//! become records, records are filtered and ordered, and refusals and ledger
//! queries are answered. Filesystem access and printing are left to the caller.

use vstd::prelude::*;

use crate::cli::args::Cli;
use crate::cli::exit::{REFUSAL, SCAN_COMPLETE};
use crate::output::jsonl::{
    key_le, lemma_same_sort_iff_same_keys, lemma_stable_sort_orders_and_rearranges, same_key,
    sorted_records, stable_sort, with_key,
};
use crate::record::builder::{record_views, RecordView, VacuumRecord, TOOL_NAME};
use crate::refusal::payload::REFUSAL_OUTCOME;
use crate::text::texts;
use crate::walk::filter::{apply_filters, filtered, lemma_filtered_members, selected};
use crate::walk::walker::{
    lemma_same_observations_give_same_records, lemma_scan_records_well_formed,
    lemma_walk_records_carry_root, same_observations, scan_records, walk_records, RootWalk,
};
use crate::witness::record::{WitnessRecord, WITNESS_VERSION};

pub mod cli;
pub mod output;
pub mod record;
pub mod refusal;
pub mod text;
pub mod walk;
pub mod witness;

verus! {

/// The ledger's word for a run that did what it was asked.
pub const COMPLETE_OUTCOME: &'static str = "SCAN_COMPLETE";

/// What one invocation is to do.
#[derive(Debug, Clone, Copy, PartialEq, Eq, Structural)]
pub enum Invocation {
    /// Answer a subcommand.
    Subcommand,
    /// Print the operator manifest.
    Describe,
    /// Print the record schema.
    Schema,
    /// Validate the roots and scan them.
    Scan,
}

/// What the command line asks for, by the precedence of its parts: a
/// subcommand comes before `describe`, that before `schema`, and that before
/// a scan.
pub open spec fn invocation_of(cli: Cli) -> Invocation {
    if cli.command is Some {
        Invocation::Subcommand
    } else if cli.describe {
        Invocation::Describe
    } else if cli.schema {
        Invocation::Schema
    } else {
        Invocation::Scan
    }
}

/// What the command line asks for.
pub fn invocation(cli: &Cli) -> (what: Invocation)
    ensures
        what == invocation_of(*cli),
{
    if cli.command.is_some() {
        Invocation::Subcommand
    } else if cli.describe {
        Invocation::Describe
    } else if cli.schema {
        Invocation::Schema
    } else {
        Invocation::Scan
    }
}

/// Where an invocation that scans stands. It begins idle, validates the
/// roots, and from there either is refused or walks, filters, sorts, emits
/// and is done.
#[derive(Debug, Clone, Copy, PartialEq, Eq, Structural)]
pub enum Stage {
    Idle,
    Validating,
    Refused,
    Walking,
    Filtering,
    Sorting,
    Emitting,
    Done,
}

/// What has just been brought about outside, and so moves an invocation on.
#[derive(Debug, Clone, Copy, PartialEq, Eq, Structural)]
pub enum Step {
    /// The invocation has begun.
    Begun,
    /// Every root was validated.
    RootsAccepted,
    /// A root was refused, or none was named.
    RootsRefused,
    /// The roots were walked.
    Walked,
    /// The records were filtered.
    Filtered,
    /// The records were sorted.
    Sorted,
    /// The manifest was put out.
    Emitted,
}

/// What the caller is to do at a stage.
#[derive(Debug, Clone, Copy, PartialEq, Eq)]
pub enum Action {
    Begin,
    ValidateRoots,
    Walk,
    Filter,
    Sort,
    Emit,
    /// Put out the refusal and end with this exit code and ledger outcome.
    EndRefused { exit_code: u8, outcome: &'static str },
    /// End with this exit code and ledger outcome.
    EndDone { exit_code: u8, outcome: &'static str },
}

impl Stage {
    /// The invocation has ended.
    pub open spec fn is_terminal(self) -> bool {
        self is Refused || self is Done
    }

    /// The stage that a step leads to from here; none where the step has no
    /// place at this stage.
    pub open spec fn after(self, step: Step) -> Option<Stage> {
        match (self, step) {
            (Stage::Idle, Step::Begun) => Some(Stage::Validating),
            (Stage::Validating, Step::RootsAccepted) => Some(Stage::Walking),
            (Stage::Validating, Step::RootsRefused) => Some(Stage::Refused),
            (Stage::Walking, Step::Walked) => Some(Stage::Filtering),
            (Stage::Filtering, Step::Filtered) => Some(Stage::Sorting),
            (Stage::Sorting, Step::Sorted) => Some(Stage::Emitting),
            (Stage::Emitting, Step::Emitted) => Some(Stage::Done),
            _ => None,
        }
    }

    /// The stage reached from here by a sequence of steps; none where one of
    /// them has no place at the stage it meets.
    pub open spec fn after_all(self, steps: Seq<Step>) -> Option<Stage>
        decreases steps.len(),
    {
        if steps.len() == 0 {
            Some(self)
        } else {
            match self.after_all(steps.drop_last()) {
                Some(reached) => reached.after(steps.last()),
                None => None,
            }
        }
    }

    /// Moves on by one step, where the step has its place at this stage.
    pub fn advance(self, step: Step) -> (next: Option<Stage>)
        ensures
            next == self.after(step),
    {
        match (self, step) {
            (Stage::Idle, Step::Begun) => Some(Stage::Validating),
            (Stage::Validating, Step::RootsAccepted) => Some(Stage::Walking),
            (Stage::Validating, Step::RootsRefused) => Some(Stage::Refused),
            (Stage::Walking, Step::Walked) => Some(Stage::Filtering),
            (Stage::Filtering, Step::Filtered) => Some(Stage::Sorting),
            (Stage::Sorting, Step::Sorted) => Some(Stage::Emitting),
            (Stage::Emitting, Step::Emitted) => Some(Stage::Done),
            _ => None,
        }
    }

    /// What the caller is to do at this stage. A refused invocation ends with
    /// the refusal code and the outcome `REFUSAL`, a finished one with the
    /// code of completion and the outcome `SCAN_COMPLETE`.
    pub fn action(self) -> (what: Action)
        ensures
            what == match self {
                Stage::Idle => Action::Begin,
                Stage::Validating => Action::ValidateRoots,
                Stage::Refused => Action::EndRefused {
                    exit_code: REFUSAL,
                    outcome: REFUSAL_OUTCOME,
                },
                Stage::Walking => Action::Walk,
                Stage::Filtering => Action::Filter,
                Stage::Sorting => Action::Sort,
                Stage::Emitting => Action::Emit,
                Stage::Done => Action::EndDone {
                    exit_code: SCAN_COMPLETE,
                    outcome: COMPLETE_OUTCOME,
                },
            },
            self.is_terminal() <==> what is EndRefused || what is EndDone,
    {
        match self {
            Stage::Idle => Action::Begin,
            Stage::Validating => Action::ValidateRoots,
            Stage::Refused => Action::EndRefused { exit_code: REFUSAL, outcome: REFUSAL_OUTCOME },
            Stage::Walking => Action::Walk,
            Stage::Filtering => Action::Filter,
            Stage::Sorting => Action::Sort,
            Stage::Emitting => Action::Emit,
            Stage::Done => Action::EndDone { exit_code: SCAN_COMPLETE, outcome: COMPLETE_OUTCOME },
        }
    }
}

/// An invocation ends once: no step has a place at a terminal stage, so a
/// run of steps that reaches one cannot go on, and no run reaches both.
pub proof fn lemma_one_terminal_stage(steps: Seq<Step>, more: Seq<Step>)
    requires
        Stage::Idle.after_all(steps) matches Some(reached) && reached.is_terminal(),
        more.len() > 0,
    ensures
        Stage::Idle.after_all(steps + more) is None,
    decreases more.len(),
{
    let all = steps + more;
    assert(all.drop_last() =~= steps + more.drop_last());
    if more.len() == 1 {
        assert(steps + more.drop_last() =~= steps);
    } else {
        lemma_one_terminal_stage(steps, more.drop_last());
    }
}

/// The ways through an invocation: it is refused after validation, or it is
/// done after walking, filtering, sorting and emitting. No other run of
/// steps from the idle stage ends at a terminal stage.
pub proof fn lemma_runs_that_end(steps: Seq<Step>)
    requires
        Stage::Idle.after_all(steps) matches Some(reached) && reached.is_terminal(),
    ensures
        steps == seq![Step::Begun, Step::RootsRefused] || steps == seq![
            Step::Begun,
            Step::RootsAccepted,
            Step::Walked,
            Step::Filtered,
            Step::Sorted,
            Step::Emitted,
        ],
{
    lemma_stage_tells_the_steps(steps);
}

/// The steps that lead from the idle stage to a stage are told by the stage.
proof fn lemma_stage_tells_the_steps(steps: Seq<Step>)
    requires
        Stage::Idle.after_all(steps) is Some,
    ensures
        steps == match Stage::Idle.after_all(steps)->0 {
            Stage::Idle => Seq::<Step>::empty(),
            Stage::Validating => seq![Step::Begun],
            Stage::Refused => seq![Step::Begun, Step::RootsRefused],
            Stage::Walking => seq![Step::Begun, Step::RootsAccepted],
            Stage::Filtering => seq![Step::Begun, Step::RootsAccepted, Step::Walked],
            Stage::Sorting => seq![Step::Begun, Step::RootsAccepted, Step::Walked, Step::Filtered],
            Stage::Emitting => seq![
                Step::Begun,
                Step::RootsAccepted,
                Step::Walked,
                Step::Filtered,
                Step::Sorted,
            ],
            Stage::Done => seq![
                Step::Begun,
                Step::RootsAccepted,
                Step::Walked,
                Step::Filtered,
                Step::Sorted,
                Step::Emitted,
            ],
        },
    decreases steps.len(),
{
    if steps.len() == 0 {
        assert(steps =~= Seq::<Step>::empty());
    } else {
        lemma_stage_tells_the_steps(steps.drop_last());
        assert(steps =~= steps.drop_last().push(steps.last()));
    }
}

/// The ledger record to append when a run ends: none where the ledger is
/// switched off. The time of the record is read from the clock.
pub fn append_witness_record(no_witness: bool, outcome: &str, exit_code: u8) -> (record: Option<
    WitnessRecord,
>)
    ensures
        no_witness <==> record is None,
        record matches Some(made) ==> {
            &&& made.version@ == WITNESS_VERSION@
            &&& made.tool@ == TOOL_NAME@
            &&& made.outcome@ == outcome@
            &&& made.exit_code == exit_code
        },
{
    if no_witness {
        return None;
    }
    Some(WitnessRecord::new(outcome, exit_code))
}

/// The manifest of a set of records: those that pass the filter, sorted by
/// relative path and then by root, both byte-wise.
pub open spec fn manifest_of(
    records: Seq<RecordView>,
    includes: Seq<Seq<char>>,
    excludes: Seq<Seq<char>>,
) -> Seq<RecordView> {
    stable_sort(filtered(records, includes, excludes))
}

/// From the records of a scan to the manifest: those that pass the filter,
/// sorted by relative path and then by root.
pub fn manifest(records: Vec<VacuumRecord>, includes: &[String], excludes: &[String]) -> (listed:
    Vec<VacuumRecord>)
    ensures
        record_views(listed@) == manifest_of(
            record_views(records@),
            texts(includes@),
            texts(excludes@),
        ),
        forall|k: int, l: int|
            0 <= k < l < listed.len() ==> key_le(#[trigger] listed[k]@, #[trigger] listed[l]@),
{
    let kept = apply_filters(records, includes, excludes);
    sorted_records(kept.as_slice())
}

/// The keys of a manifest never descend: of any two of its records the
/// earlier has the smaller relative path, or the same and a root that is not
/// the greater.
pub proof fn lemma_manifest_is_ordered(
    records: Seq<RecordView>,
    includes: Seq<Seq<char>>,
    excludes: Seq<Seq<char>>,
)
    ensures
        forall|k: int, l: int|
            0 <= k < l < manifest_of(records, includes, excludes).len() ==> key_le(
                #[trigger] manifest_of(records, includes, excludes)[k],
                #[trigger] manifest_of(records, includes, excludes)[l],
            ),
{
    lemma_stable_sort_orders_and_rearranges(filtered(records, includes, excludes));
}

/// Filtering and sorting neither make nor change records: the manifest holds
/// exactly the records that are selected, each as often as it was found.
pub proof fn lemma_manifest_holds_the_selected_records(
    records: Seq<RecordView>,
    includes: Seq<Seq<char>>,
    excludes: Seq<Seq<char>>,
)
    ensures
        manifest_of(records, includes, excludes).to_multiset() == filtered(
            records,
            includes,
            excludes,
        ).to_multiset(),
        forall|record: RecordView|
            manifest_of(records, includes, excludes).contains(record) <==> records.contains(record)
                && selected(includes, excludes, record.relative_path),
{
    lemma_stable_sort_orders_and_rearranges(filtered(records, includes, excludes));
    assert forall|record: RecordView|
        manifest_of(records, includes, excludes).contains(record) <==> records.contains(record)
            && selected(includes, excludes, record.relative_path) by {
        lemma_filtered_members(records, includes, excludes, record);
    }
}

/// Every record of the manifest of a scan is well formed: one that is
/// skipped carries neither size nor modification time and has at least one
/// warning, and no relative path holds a backslash.
pub proof fn lemma_manifest_of_scan_is_well_formed(
    walks: Seq<RootWalk>,
    follow_symlinks: bool,
    includes: Seq<Seq<char>>,
    excludes: Seq<Seq<char>>,
)
    ensures
        forall|k: int|
            0 <= k < manifest_of(scan_records(walks, follow_symlinks), includes, excludes).len()
                ==> {
                let record = #[trigger] manifest_of(
                    scan_records(walks, follow_symlinks),
                    includes,
                    excludes,
                )[k];
                record.well_formed() && record.skip_invariant() && !record.relative_path.contains(
                    '\\',
                )
            },
{
    let scanned = scan_records(walks, follow_symlinks);
    let listed = manifest_of(scanned, includes, excludes);
    lemma_manifest_holds_the_selected_records(scanned, includes, excludes);
    lemma_scan_records_well_formed(walks, follow_symlinks);
    assert forall|k: int| 0 <= k < listed.len() implies {
        let record = #[trigger] listed[k];
        record.well_formed() && record.skip_invariant() && !record.relative_path.contains('\\')
    } by {
        assert(listed.contains(listed[k]));
        assert(scanned.contains(listed[k]));
        let i = choose|i: int| 0 <= i < scanned.len() && scanned[i] == listed[k];
        assert(scanned[i].well_formed());
    }
}

/// Scanning is repeatable: two scans that came upon the same things give the
/// same manifest, whatever the clock said.
pub proof fn lemma_repeated_scan_gives_same_manifest(
    first: Seq<RootWalk>,
    second: Seq<RootWalk>,
    follow_symlinks: bool,
    includes: Seq<Seq<char>>,
    excludes: Seq<Seq<char>>,
)
    requires
        same_observations(first, second),
    ensures
        manifest_of(scan_records(first, follow_symlinks), includes, excludes) == manifest_of(
            scan_records(second, follow_symlinks),
            includes,
            excludes,
        ),
{
    lemma_same_observations_give_same_records(first, second, follow_symlinks);
}

/// Two sets of records have the same manifest exactly when they hold, of
/// every key, the same selected records in the same order. In whatever other
/// way the two differ in order, the manifest does not show it.
pub proof fn lemma_manifest_is_told_by_keys(
    first: Seq<RecordView>,
    second: Seq<RecordView>,
    includes: Seq<Seq<char>>,
    excludes: Seq<Seq<char>>,
)
    ensures
        manifest_of(first, includes, excludes) == manifest_of(second, includes, excludes)
            <==> forall|key: RecordView|
            with_key(filtered(first, includes, excludes), key) == with_key(
                filtered(second, includes, excludes),
                key,
            ),
{
    lemma_same_sort_iff_same_keys(
        filtered(first, includes, excludes),
        filtered(second, includes, excludes),
    );
}

/// The manifest does not depend on the order in which two roots were named:
/// scanning `x` and then `y` lists the same records in the same order as
/// scanning `y` and then `x`, where the two are different roots or the same
/// root seen twice with the same content. In general the two manifests are
/// the same exactly when, of every key, the two scans hold the same selected
/// records in the same order.
pub proof fn lemma_root_order_independence(
    x: RootWalk,
    y: RootWalk,
    follow_symlinks: bool,
    includes: Seq<Seq<char>>,
    excludes: Seq<Seq<char>>,
)
    ensures
        x.root@ != y.root@ || x.agrees(y) ==> manifest_of(
            scan_records(seq![x, y], follow_symlinks),
            includes,
            excludes,
        ) == manifest_of(scan_records(seq![y, x], follow_symlinks), includes, excludes),
        manifest_of(scan_records(seq![x, y], follow_symlinks), includes, excludes) == manifest_of(
            scan_records(seq![y, x], follow_symlinks),
            includes,
            excludes,
        ) <==> forall|key: RecordView|
            with_key(
                filtered(scan_records(seq![x, y], follow_symlinks), includes, excludes),
                key,
            ) == with_key(
                filtered(scan_records(seq![y, x], follow_symlinks), includes, excludes),
                key,
            ),
{
    let xy = scan_records(seq![x, y], follow_symlinks);
    let yx = scan_records(seq![y, x], follow_symlinks);
    lemma_manifest_is_told_by_keys(xy, yx, includes, excludes);
    if x.agrees(y) {
        assert(same_observations(seq![x, y], seq![y, x])) by {
            assert(x.agrees(x));
            assert forall|i: int| 0 <= i < y.items@.len() implies (#[trigger] y.items@[i]).agrees(
                x.items@[i],
            ) by {
                assert(x.items@[i].agrees(y.items@[i]));
            }
            assert(y.agrees(x));
        }
        lemma_repeated_scan_gives_same_manifest(
            seq![x, y],
            seq![y, x],
            follow_symlinks,
            includes,
            excludes,
        );
    } else if x.root@ != y.root@ {
        broadcast use vstd::seq_lib::group_filter_ensures;

        let of_x = walk_records(x.root@, follow_symlinks, x.items@);
        let of_y = walk_records(y.root@, follow_symlinks, y.items@);
        let keep = |record: RecordView| selected(includes, excludes, record.relative_path);
        lemma_scan_of_two(x, y, follow_symlinks);
        lemma_scan_of_two(y, x, follow_symlinks);
        let kept_x = filtered(of_x, includes, excludes);
        let kept_y = filtered(of_y, includes, excludes);
        Seq::filter_distributes_over_add(of_x, of_y, keep);
        Seq::filter_distributes_over_add(of_y, of_x, keep);
        assert(filtered(xy, includes, excludes) == kept_x + kept_y);
        assert(filtered(yx, includes, excludes) == kept_y + kept_x);
        lemma_walk_records_carry_root(x.root@, follow_symlinks, x.items@);
        lemma_walk_records_carry_root(y.root@, follow_symlinks, y.items@);
        assert forall|i: int| 0 <= i < kept_x.len() implies (#[trigger] kept_x[i]).root == x.root@ by {
            assert(kept_x.contains(kept_x[i]));
            of_x.lemma_filter_contains_rev(keep, kept_x[i]);
            let a = choose|a: int| 0 <= a < of_x.len() && of_x[a] == kept_x[i];
            assert(of_x[a].root == x.root@);
        }
        assert forall|j: int| 0 <= j < kept_y.len() implies (#[trigger] kept_y[j]).root == y.root@ by {
            assert(kept_y.contains(kept_y[j]));
            of_y.lemma_filter_contains_rev(keep, kept_y[j]);
            let b = choose|b: int| 0 <= b < of_y.len() && of_y[b] == kept_y[j];
            assert(of_y[b].root == y.root@);
        }
        assert forall|key: RecordView|
            with_key(kept_x + kept_y, key) == with_key(kept_y + kept_x, key) by {
            let has_key = |record: RecordView| same_key(record, key);
            Seq::filter_distributes_over_add(kept_x, kept_y, has_key);
            Seq::filter_distributes_over_add(kept_y, kept_x, has_key);
            if key.root == x.root@ {
                assert(kept_y.all(|record: RecordView| !has_key(record))) by {
                    assert forall|j: int| 0 <= j < kept_y.len() implies !has_key(
                        #[trigger] kept_y[j],
                    ) by {
                        assert(kept_y[j].root == y.root@);
                    }
                }
                kept_y.lemma_all_neg_filter_empty(has_key);
                assert(kept_y.filter(has_key) =~= Seq::<RecordView>::empty());
                assert(kept_x.filter(has_key) + kept_y.filter(has_key) =~= kept_y.filter(has_key)
                    + kept_x.filter(has_key));
            } else {
                assert(kept_x.all(|record: RecordView| !has_key(record))) by {
                    assert forall|i: int| 0 <= i < kept_x.len() implies !has_key(
                        #[trigger] kept_x[i],
                    ) by {
                        assert(kept_x[i].root == x.root@);
                    }
                }
                kept_x.lemma_all_neg_filter_empty(has_key);
                assert(kept_x.filter(has_key) =~= Seq::<RecordView>::empty());
                assert(kept_x.filter(has_key) + kept_y.filter(has_key) =~= kept_y.filter(has_key)
                    + kept_x.filter(has_key));
            }
        }
    }
}

proof fn lemma_scan_of_two(first: RootWalk, second: RootWalk, follow_symlinks: bool)
    ensures
        scan_records(seq![first, second], follow_symlinks) == walk_records(
            first.root@,
            follow_symlinks,
            first.items@,
        ) + walk_records(second.root@, follow_symlinks, second.items@),
{
    let both = seq![first, second];
    assert(both.drop_last() =~= seq![first]);
    assert(seq![first].drop_last() =~= Seq::<RootWalk>::empty());
    reveal_with_fuel(scan_records, 3);
    assert(scan_records(seq![first], follow_symlinks) =~= walk_records(
        first.root@,
        follow_symlinks,
        first.items@,
    ));
}

} // verus!
