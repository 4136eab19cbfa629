//! The bootstrap runner's bookkeeping: which configured command failed, for
//! what reason, and the final tally.
//!
//! The caller spawns the commands one after another — never stopping early —
//! and records one outcome per command; this module classifies each outcome
//! and folds them into the summary that is the sole signal of partial
//! failure. A command whose program name is blank is failed without being
//! spawned at all.

use vstd::prelude::*;
use crate::bytes::trim_seq;
use crate::bytes::{push_all, subvec, trim};

verus! {

/// One configured setup command.
pub struct BootstrapCommand {
    pub program: Vec<u8>,
    pub args: Vec<Vec<u8>>,
}

/// The mathematical shadow of `BootstrapCommand`.
pub struct SpecBootstrapCommand {
    pub program: Seq<u8>,
    pub args: Seq<Seq<u8>>,
}

impl View for BootstrapCommand {
    type V = SpecBootstrapCommand;

    open spec fn view(&self) -> SpecBootstrapCommand {
        SpecBootstrapCommand {
            program: self.program@,
            args: self.args@.map_values(|a: Vec<u8>| a@),
        }
    }
}

/// What happened when the caller tried to run one command.
pub enum SpawnOutcome {
    /// The process ran and exited with this code.
    Exited(i32),
    /// The process was terminated by a signal, so no exit code exists.
    Signaled,
    /// The process could not be started; the text is the OS error.
    NotRun(Vec<u8>),
}

pub enum SpecSpawnOutcome {
    Exited(i32),
    Signaled,
    NotRun(Seq<u8>),
}

impl View for SpawnOutcome {
    type V = SpecSpawnOutcome;

    open spec fn view(&self) -> SpecSpawnOutcome {
        match self {
            SpawnOutcome::Exited(c) => SpecSpawnOutcome::Exited(*c),
            SpawnOutcome::Signaled => SpecSpawnOutcome::Signaled,
            SpawnOutcome::NotRun(e) => SpecSpawnOutcome::NotRun(e@),
        }
    }
}

/// Why one command counts as failed.
pub enum FailureReason {
    /// The configured program name is empty or blank.
    EmptyProgram,
    /// The command exited with this nonzero code.
    ExitCode(i32),
    /// The command was terminated by a signal.
    Signal,
    /// The command could not be started; the text is the OS error.
    SpawnError(Vec<u8>),
}

pub enum SpecFailureReason {
    EmptyProgram,
    ExitCode(i32),
    Signal,
    SpawnError(Seq<u8>),
}

impl View for FailureReason {
    type V = SpecFailureReason;

    open spec fn view(&self) -> SpecFailureReason {
        match self {
            FailureReason::EmptyProgram => SpecFailureReason::EmptyProgram,
            FailureReason::ExitCode(c) => SpecFailureReason::ExitCode(*c),
            FailureReason::Signal => SpecFailureReason::Signal,
            FailureReason::SpawnError(e) => SpecFailureReason::SpawnError(e@),
        }
    }
}

/// A command with a blank program name is failed without being spawned.
pub open spec fn blank_program_spec(program: Seq<u8>) -> bool {
    trim_seq(program).len() == 0
}

/// Tests whether a command's program name is blank, so that the caller
/// knows not to spawn it.
pub fn has_blank_program(command: &BootstrapCommand) -> (r: bool)
    ensures
        r == blank_program_spec(command@.program),
{
    let t = trim(command.program.as_slice());
    t.len() == 0
}

/// The failure a command's outcome amounts to, if any: a blank program
/// fails regardless of any outcome; otherwise exit code zero succeeds and
/// everything else fails with its own reason.
pub open spec fn failure_spec(cmd: SpecBootstrapCommand, out: SpecSpawnOutcome) -> Option<
    SpecFailureReason,
> {
    if blank_program_spec(cmd.program) {
        Some(SpecFailureReason::EmptyProgram)
    } else {
        match out {
            SpecSpawnOutcome::Exited(c) => if c == 0 {
                None
            } else {
                Some(SpecFailureReason::ExitCode(c))
            },
            SpecSpawnOutcome::Signaled => Some(SpecFailureReason::Signal),
            SpecSpawnOutcome::NotRun(e) => Some(SpecFailureReason::SpawnError(e)),
        }
    }
}

/// Classifies one command's outcome.
pub fn classify_outcome(command: &BootstrapCommand, outcome: &SpawnOutcome) -> (r: Option<
    FailureReason,
>)
    ensures
        match r {
            Some(f) => failure_spec(command@, outcome@) == Some(f@),
            None => failure_spec(command@, outcome@) is None,
        },
{
    if has_blank_program(command) {
        return Some(FailureReason::EmptyProgram);
    }
    match outcome {
        SpawnOutcome::Exited(c) => {
            if *c == 0 {
                None
            } else {
                Some(FailureReason::ExitCode(*c))
            }
        },
        SpawnOutcome::Signaled => Some(FailureReason::Signal),
        SpawnOutcome::NotRun(e) => {
            let text = subvec(e.as_slice(), 0, e.len());
            proof {
                assert(text@ =~= e@);
            }
            Some(FailureReason::SpawnError(text))
        },
    }
}

/// The display form of a command: the program, then its arguments separated
/// by single spaces.
pub open spec fn join_args_spec(args: Seq<Seq<u8>>, k: int) -> Seq<u8>
    decreases k,
{
    if k <= 0 {
        Seq::empty()
    } else {
        join_args_spec(args, k - 1) + seq![32u8] + args[k - 1]
    }
}

pub open spec fn display_spec(cmd: SpecBootstrapCommand) -> Seq<u8> {
    cmd.program + join_args_spec(cmd.args, cmd.args.len() as int)
}

/// Formats a command for display: program and arguments joined by spaces.
pub fn format_bootstrap_command(command: &BootstrapCommand) -> (r: Vec<u8>)
    ensures
        r@ == display_spec(command@),
{
    let mut r = subvec(command.program.as_slice(), 0, command.program.len());
    proof {
        assert(r@ =~= command@.program);
        assert(r@ =~= command@.program + join_args_spec(command@.args, 0));
    }
    let n = command.args.len();
    let mut k: usize = 0;
    while k < n
        invariant
            n == command.args@.len(),
            k <= n,
            r@ == command@.program + join_args_spec(command@.args, k as int),
        decreases n - k,
    {
        let ghost r0 = r@;
        r.push(32);
        push_all(&mut r, command.args[k].as_slice());
        proof {
            assert(command@.args[k as int] == command.args@[k as int]@);
            assert(r@ =~= r0 + seq![32u8] + command@.args[k as int]);
            assert(r@ =~= command@.program + join_args_spec(command@.args, k + 1));
        }
        k += 1;
    }
    r
}

/// The final tally of one bootstrap run.
pub struct BootstrapSummary {
    pub total: usize,
    pub succeeded: usize,
    pub failed: Vec<(Vec<u8>, FailureReason)>,
}

/// The failures among the first `k` commands, in configuration order, each
/// carrying the command's display form.
pub open spec fn failures_spec(
    cmds: Seq<SpecBootstrapCommand>,
    outs: Seq<SpecSpawnOutcome>,
    k: int,
) -> Seq<(Seq<u8>, SpecFailureReason)>
    decreases k,
{
    if k <= 0 {
        Seq::empty()
    } else {
        let rest = failures_spec(cmds, outs, k - 1);
        match failure_spec(cmds[k - 1], outs[k - 1]) {
            Some(f) => rest.push((display_spec(cmds[k - 1]), f)),
            None => rest,
        }
    }
}

/// Folds the outcomes of a full bootstrap run into its summary: every
/// command is accounted for, successes are counted, and the failures keep
/// configuration order.
pub fn summarize_bootstrap(commands: &Vec<BootstrapCommand>, outcomes: &Vec<SpawnOutcome>) -> (r:
    BootstrapSummary)
    requires
        commands@.len() == outcomes@.len(),
    ensures
        r.total == commands@.len(),
        r.failed@.map_values(|p: (Vec<u8>, FailureReason)| (p.0@, p.1@)) == failures_spec(
            commands@.map_values(|c: BootstrapCommand| c@),
            outcomes@.map_values(|o: SpawnOutcome| o@),
            commands@.len() as int,
        ),
        r.succeeded + r.failed@.len() == r.total,
{
    let ghost cs = commands@.map_values(|c: BootstrapCommand| c@);
    let ghost os = outcomes@.map_values(|o: SpawnOutcome| o@);
    let n = commands.len();
    let mut succeeded: usize = 0;
    let mut failed: Vec<(Vec<u8>, FailureReason)> = Vec::new();
    let mut k: usize = 0;
    proof {
        assert(failed@.map_values(|p: (Vec<u8>, FailureReason)| (p.0@, p.1@)) =~= Seq::<
            (Seq<u8>, SpecFailureReason),
        >::empty());
    }
    while k < n
        invariant
            n == commands@.len() == outcomes@.len(),
            cs == commands@.map_values(|c: BootstrapCommand| c@),
            os == outcomes@.map_values(|o: SpawnOutcome| o@),
            k <= n,
            succeeded + failed@.len() == k,
            failed@.map_values(|p: (Vec<u8>, FailureReason)| (p.0@, p.1@)) == failures_spec(
                cs,
                os,
                k as int,
            ),
        decreases n - k,
    {
        proof {
            assert(cs[k as int] == commands@[k as int]@);
            assert(os[k as int] == outcomes@[k as int]@);
        }
        let ghost f0 = failed@.map_values(|p: (Vec<u8>, FailureReason)| (p.0@, p.1@));
        match classify_outcome(&commands[k], &outcomes[k]) {
            None => {
                succeeded += 1;
            },
            Some(reason) => {
                let display = format_bootstrap_command(&commands[k]);
                let ghost reason_v = reason@;
                failed.push((display, reason));
                proof {
                    assert(failed@.map_values(|p: (Vec<u8>, FailureReason)| (p.0@, p.1@)) =~= f0
                        .push((display_spec(cs[k as int]), reason_v)));
                }
            },
        }
        k += 1;
    }
    BootstrapSummary { total: n, succeeded, failed }
}

} // verus!
