use vacuum::cli::args::{Cli, Command, WitnessAction};
use vacuum::cli::exit::{from_clap_error, ParseFailure, REFUSAL, SCAN_COMPLETE};
use vacuum::{
    append_witness_record, invocation, Action, Invocation, Stage, Step, COMPLETE_OUTCOME,
};

fn plain() -> Cli {
    Cli {
        command: None,
        roots: vec!["/data".to_string()],
        includes: Vec::new(),
        excludes: Vec::new(),
        no_follow: false,
        no_witness: false,
        describe: false,
        schema: false,
        progress: false,
    }
}

#[test]
fn exit_codes_are_zero_and_two() {
    assert_eq!(SCAN_COMPLETE, 0);
    assert_eq!(REFUSAL, 2);
}

#[test]
fn help_and_version_are_no_failures() {
    assert_eq!(from_clap_error(ParseFailure::DisplayHelp), 0);
    assert_eq!(from_clap_error(ParseFailure::DisplayVersion), 0);
}

#[test]
fn wrong_arguments_are_refused() {
    assert_eq!(from_clap_error(ParseFailure::Usage), 2);
}

#[test]
fn plain_command_line_asks_for_a_scan() {
    assert_eq!(invocation(&plain()), Invocation::Scan);
}

#[test]
fn no_roots_still_ask_for_a_scan() {
    let mut cli = plain();
    cli.roots.clear();
    assert_eq!(invocation(&cli), Invocation::Scan);
}

#[test]
fn describe_comes_before_schema_and_scan() {
    let mut cli = plain();
    cli.describe = true;
    cli.schema = true;
    assert_eq!(invocation(&cli), Invocation::Describe);
    cli.describe = false;
    assert_eq!(invocation(&cli), Invocation::Schema);
}

#[test]
fn subcommand_comes_first() {
    let mut cli = plain();
    cli.describe = true;
    cli.schema = true;
    cli.command = Some(Command::Witness {
        action: WitnessAction::Last { json: false },
    });
    assert_eq!(invocation(&cli), Invocation::Subcommand);
}

#[test]
fn witness_record_is_made_unless_switched_off() {
    assert_eq!(append_witness_record(true, COMPLETE_OUTCOME, 0), None);
    let record = append_witness_record(false, COMPLETE_OUTCOME, 0).expect("record is owed");
    assert_eq!(record.version, "witness.v0");
    assert_eq!(record.tool, "vacuum");
    assert_eq!(record.outcome, "SCAN_COMPLETE");
    assert_eq!(record.exit_code, 0);
    let refused = append_witness_record(false, "REFUSAL", 2).expect("record is owed");
    assert_eq!(refused.outcome, "REFUSAL");
    assert_eq!(refused.exit_code, 2);
}

#[test]
fn witness_time_is_utc_rfc3339_with_milliseconds() {
    let record = append_witness_record(false, COMPLETE_OUTCOME, 0).expect("record is owed");
    let ts = record.ts.as_bytes();
    assert_eq!(ts.len(), 24);
    assert_eq!(ts[4], b'-');
    assert_eq!(ts[7], b'-');
    assert_eq!(ts[10], b'T');
    assert_eq!(ts[13], b':');
    assert_eq!(ts[16], b':');
    assert_eq!(ts[19], b'.');
    assert_eq!(ts[23], b'Z');
}

const STEPS: [Step; 7] = [
    Step::Begun,
    Step::RootsAccepted,
    Step::RootsRefused,
    Step::Walked,
    Step::Filtered,
    Step::Sorted,
    Step::Emitted,
];

#[test]
fn a_scan_that_is_accepted_goes_through_every_stage_to_done() {
    let mut stage = Stage::Idle;
    let mut actions = Vec::new();
    for step in [
        Step::Begun,
        Step::RootsAccepted,
        Step::Walked,
        Step::Filtered,
        Step::Sorted,
        Step::Emitted,
    ] {
        actions.push(stage.action());
        stage = stage.advance(step).expect("the step has its place");
    }
    assert_eq!(stage, Stage::Done);
    assert_eq!(
        actions,
        vec![
            Action::Begin,
            Action::ValidateRoots,
            Action::Walk,
            Action::Filter,
            Action::Sort,
            Action::Emit
        ]
    );
    assert_eq!(
        stage.action(),
        Action::EndDone {
            exit_code: 0,
            outcome: "SCAN_COMPLETE"
        }
    );
}

#[test]
fn a_scan_that_is_refused_ends_after_validation() {
    let stage = Stage::Idle
        .advance(Step::Begun)
        .and_then(|stage| stage.advance(Step::RootsRefused));
    assert_eq!(stage, Some(Stage::Refused));
    assert_eq!(
        Stage::Refused.action(),
        Action::EndRefused {
            exit_code: 2,
            outcome: "REFUSAL"
        }
    );
}

#[test]
fn terminal_stages_admit_no_step() {
    for step in STEPS {
        assert_eq!(Stage::Refused.advance(step), None);
        assert_eq!(Stage::Done.advance(step), None);
    }
}

#[test]
fn every_stage_admits_only_its_own_steps() {
    let stages = [
        (Stage::Idle, vec![(Step::Begun, Stage::Validating)]),
        (
            Stage::Validating,
            vec![
                (Step::RootsAccepted, Stage::Walking),
                (Step::RootsRefused, Stage::Refused),
            ],
        ),
        (Stage::Walking, vec![(Step::Walked, Stage::Filtering)]),
        (Stage::Filtering, vec![(Step::Filtered, Stage::Sorting)]),
        (Stage::Sorting, vec![(Step::Sorted, Stage::Emitting)]),
        (Stage::Emitting, vec![(Step::Emitted, Stage::Done)]),
        (Stage::Refused, vec![]),
        (Stage::Done, vec![]),
    ];
    for (stage, allowed) in stages {
        for step in STEPS {
            let expected = allowed
                .iter()
                .find(|(admitted, _)| *admitted == step)
                .map(|(_, next)| *next);
            assert_eq!(stage.advance(step), expected);
        }
    }
}
