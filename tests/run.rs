use cargo_all_features::command::{invocation, join_features, CargoCommand, CommandTarget};
use cargo_all_features::run::{
    preflight, ConfigError, Outcome, RunOptions, Runner, Step, EXIT_FAILURE, EXIT_MISSING_TOOL,
};

fn strs(v: &[&str]) -> Vec<String> {
    v.iter().map(|s| s.to_string()).collect()
}

fn options(dry_run: bool, chunk: Option<usize>, chunks: Option<usize>) -> RunOptions {
    RunOptions { dry_run, verbose: false, chunk, chunks, target: CommandTarget::Cargo }
}

#[test]
fn features_are_joined_with_commas() {
    assert_eq!(join_features(&strs(&[])), "");
    assert_eq!(join_features(&strs(&["a"])), "a");
    assert_eq!(join_features(&strs(&["a", "b", "c"])), "a,b,c");
}

#[test]
fn combination_turns_defaults_off() {
    let inv = invocation(
        CommandTarget::Cargo,
        CargoCommand::Test,
        &strs(&["a", "b"]),
        &strs(&["a"]),
        &strs(&["--release"]),
    );
    assert_eq!(inv.program, "cargo");
    assert_eq!(inv.args, strs(&["test", "--no-default-features", "--features", "a,b", "--release"]));
    assert_eq!(inv.command_line(), "cargo test --no-default-features --features a,b --release");
}

#[test]
fn empty_combination_lists_no_features() {
    let inv = invocation(CommandTarget::Cross, CargoCommand::Build, &strs(&[]), &strs(&["a"]), &strs(&[]));
    assert_eq!(inv.program, "cross");
    assert_eq!(inv.args, strs(&["build", "--no-default-features"]));
}

#[test]
fn default_combination_is_the_default_run() {
    let inv = invocation(
        CommandTarget::Cargo,
        CargoCommand::Check,
        &strs(&["b", "a"]),
        &strs(&["a", "b"]),
        &strs(&["-q"]),
    );
    assert_eq!(inv.args, strs(&["check", "-q"]));
    let inv = invocation(CommandTarget::Cargo, CargoCommand::Bench, &strs(&[]), &strs(&[]), &strs(&[]));
    assert_eq!(inv.args, strs(&["bench"]));
    assert_eq!(inv.command_line(), "cargo bench");
}

#[test]
fn dry_run_spawns_nothing_and_passes() {
    let mut run = Runner::new(3, &options(true, None, None)).unwrap();
    for i in 0..3 {
        assert_eq!(run.step(), Step::DryRun { index: i });
    }
    assert_eq!(run.step(), Step::Done { exit_code: 0 });
    assert!(run.failed.is_empty());
}

#[test]
fn one_failure_fails_the_run_and_the_rest_still_run() {
    let mut run = Runner::new(4, &options(false, None, None)).unwrap();
    let mut ran = Vec::new();
    loop {
        match run.step() {
            Step::Spawn { index, echo } => {
                assert!(!echo);
                ran.push(index);
                let outcome = if index == 1 { Outcome::Failed } else { Outcome::Passed };
                assert_eq!(run.record(outcome), index != 1);
            }
            Step::DryRun { .. } => panic!("not a dry run"),
            Step::Done { exit_code } => {
                assert_eq!(exit_code, EXIT_FAILURE);
                break;
            }
        }
    }
    assert_eq!(ran, vec![0, 1, 2, 3]);
    assert_eq!(run.failed, vec![1]);
}

#[test]
fn launch_failure_counts_as_failure() {
    let mut run = Runner::new(1, &options(false, None, None)).unwrap();
    assert_eq!(run.step(), Step::Spawn { index: 0, echo: false });
    assert!(!run.record(Outcome::NotLaunched));
    assert_eq!(run.step(), Step::Done { exit_code: EXIT_FAILURE });
}

#[test]
fn verbose_run_echoes_commands() {
    let mut o = options(false, None, None);
    o.verbose = true;
    let mut run = Runner::new(1, &o).unwrap();
    assert_eq!(run.step(), Step::Spawn { index: 0, echo: true });
}

#[test]
fn chunked_run_covers_its_chunk_only() {
    let run = Runner::new(4, &options(false, Some(2), Some(2))).unwrap();
    assert_eq!((run.next, run.end), (2, 4));
}

#[test]
fn half_a_chunk_pair_runs_everything() {
    let run = Runner::new(4, &options(false, Some(2), None)).unwrap();
    assert_eq!((run.next, run.end), (0, 4));
    let run = Runner::new(4, &options(false, None, Some(3))).unwrap();
    assert_eq!((run.next, run.end), (0, 4));
}

#[test]
fn bad_chunk_pair_is_refused() {
    assert_eq!(
        Runner::new(4, &options(false, Some(0), Some(2))).err(),
        Some(ConfigError::BadChunk { chunk: 0, chunks: 2 })
    );
    assert_eq!(
        Runner::new(4, &options(false, Some(3), Some(2))).err(),
        Some(ConfigError::BadChunk { chunk: 3, chunks: 2 })
    );
}

#[test]
fn missing_cross_stops_before_any_combination() {
    assert_eq!(preflight(CommandTarget::Cross, false), Err(EXIT_MISSING_TOOL));
    assert_eq!(EXIT_MISSING_TOOL, 127);
    assert_eq!(preflight(CommandTarget::Cross, true), Ok(()));
    assert_eq!(preflight(CommandTarget::Cargo, false), Ok(()));
}
