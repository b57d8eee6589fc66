use vstd::prelude::*;
use crate::chunk::{chunk_bounds, chunk_start};
use crate::command::CommandTarget;

verus! {

/// Exit code of a run in which some combination failed, or whose
/// configuration was refused.
pub const EXIT_FAILURE: i32 = 1;

/// Exit code of a run that could not find the front-end it was asked for.
pub const EXIT_MISSING_TOOL: i32 = 127;

/// The options of a run, fixed before the first combination.
pub struct RunOptions {
    /// Show each command instead of running it.
    pub dry_run: bool,
    /// Show each command before running it.
    pub verbose: bool,
    /// The chunk to run, counting from 1.
    pub chunk: Option<usize>,
    /// The number of chunks the matrix is split into.
    pub chunks: Option<usize>,
    pub target: CommandTarget,
}

/// A configuration that a run refuses before it starts.
#[derive(Debug, PartialEq, Eq, Structural)]
pub enum ConfigError {
    /// The chunk is 0 or greater than the number of chunks.
    BadChunk { chunk: usize, chunks: usize },
}

/// The chunk pair asks for a partition that exists. A pair with one side
/// missing asks for no partition at all.
pub open spec fn chunk_pair_valid(chunk: Option<usize>, chunks: Option<usize>) -> bool {
    match (chunk, chunks) {
        (Some(k), Some(c)) => 1 <= k <= c,
        _ => true,
    }
}

/// The positions of the matrix entries that a run covers: the chunk when
/// both sides of the pair are given, else the whole matrix.
pub open spec fn scope_of(n: int, chunk: Option<usize>, chunks: Option<usize>) -> (int, int) {
    match (chunk, chunks) {
        (Some(k), Some(c)) => (chunk_start(n, c as int, k - 1), chunk_start(n, c as int, k as int)),
        _ => (0, n),
    }
}

/// The exit code of a run with `failures` failed combinations.
pub open spec fn exit_code_for(failures: nat) -> i32 {
    if failures == 0 {
        0
    } else {
        EXIT_FAILURE
    }
}

/// Refuses a run on the alternate front-end when that front-end is not
/// installed, with the exit code kept for a missing tool.
pub fn preflight(target: CommandTarget, cross_installed: bool) -> (r: Result<(), i32>)
    ensures
        r == (if target == CommandTarget::Cross && !cross_installed {
            Err(EXIT_MISSING_TOOL)
        } else {
            Ok(())
        }),
{
    match target {
        CommandTarget::Cross => {
            if cross_installed {
                Ok(())
            } else {
                Err(EXIT_MISSING_TOOL)
            }
        },
        CommandTarget::Cargo => Ok(()),
    }
}

/// How one spawned command ended.
#[derive(Clone, Copy, Debug, PartialEq, Eq, Structural)]
pub enum Outcome {
    /// It exited with success.
    Passed,
    /// It exited with failure.
    Failed,
    /// It could not be started.
    NotLaunched,
}

/// What the caller does next.
#[derive(Clone, Copy, Debug, PartialEq, Eq, Structural)]
pub enum Step {
    /// Run the command of matrix entry `index` and report how it ended;
    /// show the command first when `echo` is set.
    Spawn { index: usize, echo: bool },
    /// Show the command of matrix entry `index` without running it; it
    /// counts as passed.
    DryRun { index: usize },
    /// Every entry in scope is done: end with this exit code.
    Done { exit_code: i32 },
}

/// The decisions of a run over the entries `next..end` of a matrix, one
/// entry at a time, in matrix order.
pub struct Runner {
    pub dry_run: bool,
    pub verbose: bool,
    /// The first entry not yet done.
    pub next: usize,
    /// One past the last entry in scope.
    pub end: usize,
    /// The entries that failed, in the order they ran.
    pub failed: Vec<usize>,
    /// The entry `next` has been handed out to run and its outcome is due.
    pub waiting: bool,
}

impl Runner {
    pub open spec fn wf(&self) -> bool {
        &&& self.next <= self.end
        &&& self.waiting ==> self.next < self.end
        &&& self.dry_run ==> !self.waiting && self.failed@.len() == 0
        &&& forall|i: int| 0 <= i < self.failed@.len() ==> #[trigger] self.failed@[i] < self.next
        &&& forall|i: int, j: int|
            0 <= i < j < self.failed@.len() ==> #[trigger] self.failed@[i] < #[trigger] self.failed@[j]
    }

    /// A run over a matrix of `n` entries. A chunk pair with the chunk out of
    /// `1..=chunks` is refused.
    pub fn new(n: usize, options: &RunOptions) -> (r: Result<Runner, ConfigError>)
        ensures
            r is Ok <==> chunk_pair_valid(options.chunk, options.chunks),
            r matches Ok(run) ==> {
                &&& run.wf()
                &&& (run.next as int, run.end as int) == scope_of(n as int, options.chunk, options.chunks)
                &&& run.failed@.len() == 0
                &&& !run.waiting
                &&& run.dry_run == options.dry_run
                &&& run.verbose == options.verbose
            },
            r matches Err(e) ==> options.chunk matches Some(k) && options.chunks matches Some(c)
                && e == (ConfigError::BadChunk { chunk: k, chunks: c }),
    {
        let (next, end) = match (options.chunk, options.chunks) {
            (Some(chunk), Some(chunks)) => {
                if chunk == 0 || chunk > chunks {
                    return Err(ConfigError::BadChunk { chunk, chunks });
                }
                chunk_bounds(n, chunk, chunks)
            },
            _ => (0, n),
        };
        Ok(
            Runner {
                dry_run: options.dry_run,
                verbose: options.verbose,
                next,
                end,
                failed: Vec::new(),
                waiting: false,
            },
        )
    }

    /// The next thing to do. In a dry run no entry is ever handed out to be
    /// spawned, and every entry counts as passed.
    pub fn step(&mut self) -> (s: Step)
        requires
            old(self).wf(),
            !old(self).waiting,
        ensures
            final(self).wf(),
            final(self).dry_run == old(self).dry_run,
            final(self).verbose == old(self).verbose,
            final(self).end == old(self).end,
            final(self).failed@ == old(self).failed@,
            old(self).dry_run ==> !(s is Spawn) && (s matches Step::Done { exit_code } ==> exit_code
                == 0),
            old(self).next == old(self).end ==> s == (Step::Done {
                exit_code: exit_code_for(old(self).failed@.len()),
            }) && *final(self) == *old(self),
            old(self).next < old(self).end && old(self).dry_run ==> s == (Step::DryRun {
                index: old(self).next,
            }) && final(self).next == old(self).next + 1 && !final(self).waiting,
            old(self).next < old(self).end && !old(self).dry_run ==> s == (Step::Spawn {
                index: old(self).next,
                echo: old(self).verbose,
            }) && final(self).next == old(self).next && final(self).waiting,
    {
        if self.next == self.end {
            let exit_code = if self.failed.len() == 0 {
                0
            } else {
                EXIT_FAILURE
            };
            Step::Done { exit_code }
        } else if self.dry_run {
            let index = self.next;
            self.next = self.next + 1;
            Step::DryRun { index }
        } else {
            self.waiting = true;
            Step::Spawn { index: self.next, echo: self.verbose }
        }
    }

    /// Takes the outcome of the entry handed out to run, and moves on; a
    /// failure is counted and the run goes on. Returns whether it passed.
    pub fn record(&mut self, outcome: Outcome) -> (passed: bool)
        requires
            old(self).wf(),
            old(self).waiting,
        ensures
            final(self).wf(),
            passed == (outcome == Outcome::Passed),
            !final(self).waiting,
            final(self).next == old(self).next + 1,
            final(self).dry_run == old(self).dry_run,
            final(self).verbose == old(self).verbose,
            final(self).end == old(self).end,
            final(self).failed@ == if passed {
                old(self).failed@
            } else {
                old(self).failed@.push(old(self).next)
            },
    {
        let passed = match outcome {
            Outcome::Passed => true,
            _ => false,
        };
        if !passed {
            self.failed.push(self.next);
        }
        self.next = self.next + 1;
        self.waiting = false;
        passed
    }
}

} // verus!
