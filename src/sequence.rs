//! The decisions of a sequential run: commands are launched one at a time, in
//! list order, each only after the previous one has terminated; the first
//! failure to launch or to wait ends the run.
use vstd::prelude::*;

verus! {

/// What became of the command that was last launched.
#[derive(PartialEq, Eq, Structural, Clone, Copy, Debug)]
pub enum Outcome {
    /// It was launched and has terminated, whatever its exit status.
    Exited,
    /// It could not be launched.
    LaunchFailed,
    /// Its termination could not be awaited.
    WaitFailed,
}

/// Why a run was aborted.
#[derive(PartialEq, Eq, Structural, Clone, Copy, Debug)]
pub enum Failure {
    Launch,
    Wait,
}

/// What the caller is to do next.
#[derive(PartialEq, Eq, Structural, Clone, Copy, Debug)]
pub enum Action {
    /// Launch the command at this index, wait for it, and report the outcome.
    Launch(usize),
    /// Every command has run: the run is complete.
    Finish,
    /// The run is over on a fatal error.
    Abort(Failure),
    /// The run was already over: nothing is to be done.
    Idle,
}

/// Where a run stands.
#[derive(PartialEq, Eq, Structural, Clone, Copy, Debug)]
pub enum Phase {
    /// The command at this index was launched; its outcome is awaited.
    Awaiting(usize),
    Finished,
    Aborted,
}

/// A run over a list of `count` commands.
#[derive(PartialEq, Eq, Structural, Clone, Copy, Debug)]
pub struct SequentialRun {
    pub count: usize,
    pub phase: Phase,
}

impl SequentialRun {
    /// Only a command of the list can be awaited.
    pub open spec fn wf(&self) -> bool {
        match self.phase {
            Phase::Awaiting(i) => i < self.count,
            _ => true,
        }
    }
}

/// The state in which a run over `count` commands begins.
pub open spec fn begin(count: usize) -> SequentialRun {
    if count == 0 {
        SequentialRun { count, phase: Phase::Finished }
    } else {
        SequentialRun { count, phase: Phase::Awaiting(0) }
    }
}

/// The first action of a run over `count` commands.
pub open spec fn first_action(count: usize) -> Action {
    if count == 0 {
        Action::Finish
    } else {
        Action::Launch(0)
    }
}

/// The state and action that follow an outcome.
pub open spec fn next(run: SequentialRun, o: Outcome) -> (SequentialRun, Action) {
    match run.phase {
        Phase::Awaiting(i) => match o {
            Outcome::Exited => if i + 1 < run.count {
                (
                    SequentialRun { phase: Phase::Awaiting((i + 1) as usize), ..run },
                    Action::Launch((i + 1) as usize),
                )
            } else {
                (SequentialRun { phase: Phase::Finished, ..run }, Action::Finish)
            },
            Outcome::LaunchFailed => (
                SequentialRun { phase: Phase::Aborted, ..run },
                Action::Abort(Failure::Launch),
            ),
            Outcome::WaitFailed => (
                SequentialRun { phase: Phase::Aborted, ..run },
                Action::Abort(Failure::Wait),
            ),
        },
        _ => (run, Action::Idle),
    }
}

/// The actions that answer a sequence of outcomes, from a given state.
pub open spec fn trace_from(run: SequentialRun, outcomes: Seq<Outcome>) -> Seq<Action>
    decreases outcomes.len(),
{
    if outcomes.len() == 0 {
        Seq::empty()
    } else {
        let (after, a) = next(run, outcomes[0]);
        seq![a] + trace_from(after, outcomes.drop_first())
    }
}

/// Every action of a run over `count` commands, the first one included, when
/// the outcomes reported are `outcomes`.
pub open spec fn actions(count: usize, outcomes: Seq<Outcome>) -> Seq<Action> {
    seq![first_action(count)] + trace_from(begin(count), outcomes)
}

/// Outcomes of commands that all ran to termination.
pub open spec fn all_exited(outcomes: Seq<Outcome>) -> bool {
    forall|k: int| 0 <= k < outcomes.len() ==> outcomes[k] == Outcome::Exited
}

/// Every command launched in order, then the end of the run.
pub open spec fn in_order(count: usize) -> Seq<Action> {
    Seq::new(count as nat, |i: int| Action::Launch(i as usize)).push(Action::Finish)
}

impl SequentialRun {
    /// Begins a run over `count` commands.
    pub fn start(count: usize) -> (r: (SequentialRun, Action))
        ensures
            r.0 == begin(count),
            r.1 == first_action(count),
            r.0.wf(),
    {
        if count == 0 {
            (SequentialRun { count, phase: Phase::Finished }, Action::Finish)
        } else {
            (SequentialRun { count, phase: Phase::Awaiting(0) }, Action::Launch(0))
        }
    }

    /// Takes the outcome of the command last launched and says what to do next.
    pub fn step(&mut self, outcome: Outcome) -> (a: Action)
        requires
            old(self).wf(),
        ensures
            (*final(self), a) == next(*old(self), outcome),
            final(self).wf(),
    {
        match self.phase {
            Phase::Awaiting(i) => match outcome {
                Outcome::Exited => {
                    if i + 1 < self.count {
                        self.phase = Phase::Awaiting(i + 1);
                        Action::Launch(i + 1)
                    } else {
                        self.phase = Phase::Finished;
                        Action::Finish
                    }
                },
                Outcome::LaunchFailed => {
                    self.phase = Phase::Aborted;
                    Action::Abort(Failure::Launch)
                },
                Outcome::WaitFailed => {
                    self.phase = Phase::Aborted;
                    Action::Abort(Failure::Wait)
                },
            },
            _ => Action::Idle,
        }
    }
}

/// Each outcome is answered with exactly one action.
proof fn lemma_trace_len(run: SequentialRun, outcomes: Seq<Outcome>)
    ensures
        trace_from(run, outcomes).len() == outcomes.len(),
    decreases outcomes.len(),
{
    if outcomes.len() > 0 {
        lemma_trace_len(next(run, outcomes[0]).0, outcomes.drop_first());
    }
}

/// Once a run is over, every further outcome is answered with `Idle`.
proof fn lemma_over_stays_idle(run: SequentialRun, outcomes: Seq<Outcome>)
    requires
        !(run.phase is Awaiting),
    ensures
        trace_from(run, outcomes) == Seq::new(outcomes.len(), |k: int| Action::Idle),
    decreases outcomes.len(),
{
    if outcomes.len() > 0 {
        lemma_over_stays_idle(run, outcomes.drop_first());
        assert(trace_from(run, outcomes) =~= Seq::new(outcomes.len(), |k: int| Action::Idle));
    }
}

/// From command `i` on, outcomes that are all `Exited` launch the remaining
/// commands in order and then finish.
proof fn lemma_rest_in_order(run: SequentialRun, i: usize, outcomes: Seq<Outcome>)
    requires
        run.phase == Phase::Awaiting(i),
        i < run.count,
        outcomes.len() == run.count - i,
        all_exited(outcomes),
    ensures
        trace_from(run, outcomes) == Seq::new(
            (run.count - i - 1) as nat,
            |k: int| Action::Launch((i + 1 + k) as usize),
        ).push(Action::Finish),
    decreases outcomes.len(),
{
    let rest = outcomes.drop_first();
    assert(outcomes[0] == Outcome::Exited);
    lemma_trace_len(run, outcomes);
    if i + 1 < run.count {
        let after = SequentialRun { phase: Phase::Awaiting((i + 1) as usize), ..run };
        lemma_rest_in_order(after, (i + 1) as usize, rest);
    } else {
        assert(rest.len() == 0);
    }
    assert(trace_from(run, outcomes) =~= Seq::new(
        (run.count - i - 1) as nat,
        |k: int| Action::Launch((i + 1 + k) as usize),
    ).push(Action::Finish));
}

/// A launch answers only the termination of the command before it.
proof fn lemma_launch_follows_exit(run: SequentialRun, prev: Action, outcomes: Seq<Outcome>)
    requires
        run.wf(),
        run.phase is Awaiting <==> prev is Launch,
        run.phase is Awaiting ==> prev == Action::Launch(run.phase->Awaiting_0),
    ensures
        ({
            let t = seq![prev] + trace_from(run, outcomes);
            forall|k: int|
                0 <= k < outcomes.len() && #[trigger] t[k + 1] is Launch ==> {
                    &&& outcomes[k] == Outcome::Exited
                    &&& t[k] is Launch
                    &&& t[k + 1]->Launch_0 == t[k]->Launch_0 + 1
                }
        }),
    decreases outcomes.len(),
{
    if outcomes.len() > 0 {
        let (after, a) = next(run, outcomes[0]);
        lemma_launch_follows_exit(after, a, outcomes.drop_first());
        let t = seq![prev] + trace_from(run, outcomes);
        let t2 = seq![a] + trace_from(after, outcomes.drop_first());
        lemma_trace_len(after, outcomes.drop_first());
        assert(t =~= seq![prev] + t2);
        assert forall|k: int|
            0 <= k < outcomes.len() && #[trigger] t[k + 1] is Launch implies {
                &&& outcomes[k] == Outcome::Exited
                &&& t[k] is Launch
                &&& t[k + 1]->Launch_0 == t[k]->Launch_0 + 1
            } by {
            if k > 0 {
                assert(t[k + 1] == t2[k]);
                assert(t[k] == t2[k - 1]);
                assert(outcomes[k] == outcomes.drop_first()[k - 1]);
            }
        }
    }
}

/// A run over a non-empty list launches the first command first, launches a
/// command only once the one before it has terminated, and, when every command
/// terminates, launches each command exactly once, in list order, then
/// finishes.
pub proof fn lemma_runs_each_once_in_order(count: usize, outcomes: Seq<Outcome>)
    requires
        count > 0,
    ensures
        actions(count, outcomes)[0] == Action::Launch(0),
        forall|k: int|
            0 <= k < outcomes.len() && #[trigger] actions(count, outcomes)[k + 1] is Launch ==> {
                &&& outcomes[k] == Outcome::Exited
                &&& actions(count, outcomes)[k] is Launch
                &&& actions(count, outcomes)[k + 1]->Launch_0 == actions(
                    count,
                    outcomes,
                )[k]->Launch_0 + 1
            },
        outcomes.len() == count && all_exited(outcomes) ==> actions(count, outcomes)
            == in_order(count),
{
    lemma_launch_follows_exit(begin(count), first_action(count), outcomes);
    if outcomes.len() == count && all_exited(outcomes) {
        lemma_rest_in_order(begin(count), 0, outcomes);
        assert(actions(count, outcomes) =~= in_order(count));
    }
}

/// Once a command fails to launch or to be awaited, no command is launched
/// again; in particular a failure of the first command launches no other.
pub proof fn lemma_fail_fast(count: usize, outcomes: Seq<Outcome>, k: int)
    requires
        0 <= k < outcomes.len(),
        outcomes[k] != Outcome::Exited,
    ensures
        forall|m: int|
            k + 1 <= m < actions(count, outcomes).len() ==> !(#[trigger] actions(
                count,
                outcomes,
            )[m] is Launch),
{
    lemma_fail_fast_from(begin(count), outcomes, k);
    lemma_trace_len(begin(count), outcomes);
    assert forall|m: int| k + 1 <= m < actions(count, outcomes).len() implies !(#[trigger] actions(
        count,
        outcomes,
    )[m] is Launch) by {
        assert(actions(count, outcomes)[m] == trace_from(begin(count), outcomes)[m - 1]);
    }
}

proof fn lemma_fail_fast_from(run: SequentialRun, outcomes: Seq<Outcome>, k: int)
    requires
        0 <= k < outcomes.len(),
        outcomes[k] != Outcome::Exited,
    ensures
        forall|m: int|
            k <= m < outcomes.len() ==> !(#[trigger] trace_from(run, outcomes)[m] is Launch),
    decreases outcomes.len(),
{
    let (after, a) = next(run, outcomes[0]);
    lemma_trace_len(after, outcomes.drop_first());
    if k == 0 {
        assert(!(after.phase is Awaiting));
        lemma_over_stays_idle(after, outcomes.drop_first());
    } else {
        lemma_fail_fast_from(after, outcomes.drop_first(), k - 1);
    }
    assert forall|m: int| k <= m < outcomes.len() implies !(#[trigger] trace_from(
        run,
        outcomes,
    )[m] is Launch) by {
        if m > 0 {
            assert(trace_from(run, outcomes)[m] == trace_from(after, outcomes.drop_first())[m
                - 1]);
        }
    }
}

/// A run keeps nothing from an earlier one: two runs over the same list in
/// which every command terminates launch the commands in the same order.
pub proof fn lemma_rerun_same_order(count: usize, first: Seq<Outcome>, second: Seq<Outcome>)
    requires
        first.len() == count,
        second.len() == count,
        all_exited(first),
        all_exited(second),
    ensures
        actions(count, first) == actions(count, second),
        actions(count, first) == in_order(count),
{
    if count > 0 {
        lemma_runs_each_once_in_order(count, first);
        lemma_runs_each_once_in_order(count, second);
    } else {
        assert(actions(count, first) =~= in_order(count));
        assert(actions(count, second) =~= in_order(count));
    }
}

} // verus!
