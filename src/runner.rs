//! Replaying a decoded trace against a live implementation.
use vstd::prelude::*;

use crate::trace::Trace;

verus! {

/// The system under test, as a trace replay drives it.
pub trait Runner {
    type ActualState;
    type StepResult;
    type ExpectedState;
    type Error;

    /// Brings the system into the first state of the trace.
    fn init(&mut self, expected: &Self::ExpectedState) -> Result<Self::ActualState, Self::Error>;

    /// Performs the step that leads to `expected`.
    fn step(&mut self, actual: &mut Self::ActualState, expected: &Self::ExpectedState) -> Result<
        Self::StepResult,
        Self::Error,
    >;

    /// Whether the result of a step agrees with the expected state.
    fn result_invariant(&self, result: &Self::StepResult, expected: &Self::ExpectedState) -> Result<
        bool,
        Self::Error,
    >;

    /// Whether the actual state agrees with the expected state.
    fn state_invariant(&self, actual: &Self::ActualState, expected: &Self::ExpectedState) -> Result<
        bool,
        Self::Error,
    >;
}

/// Why a replay stopped. Step 0 is the initial state; step `i` leads to the
/// state at position `i`.
#[derive(Debug, PartialEq, Eq)]
pub enum RunError<E> {
    /// A hook of the runner failed.
    Hook { step: usize, error: E },
    /// The result of a step disagreed with the expected state.
    ResultInvariant { step: usize },
    /// The actual state disagreed with the expected state.
    StateInvariant { step: usize },
}

impl<E> RunError<E> {
    /// The step at which the replay stopped.
    pub open spec fn step_of(self) -> usize {
        match self {
            RunError::Hook { step, .. } => step,
            RunError::ResultInvariant { step } => step,
            RunError::StateInvariant { step } => step,
        }
    }
}

/// A call of a hook during a replay, with the position of the expected state
/// that it receives.
#[derive(Clone, Copy, Debug, PartialEq, Eq)]
pub enum Call {
    Init(usize),
    Step(usize),
    ResultInvariant(usize),
    StateInvariant(usize),
}

/// Where a replay stands: the next call to make, or its end.
#[derive(Debug, PartialEq, Eq)]
pub enum Phase<E> {
    Running(Call),
    Finished,
    Failed(RunError<E>),
}

/// The position of the expected state that a call receives.
pub open spec fn call_state(c: Call) -> usize {
    match c {
        Call::Init(i) => i,
        Call::Step(i) => i,
        Call::ResultInvariant(i) => i,
        Call::StateInvariant(i) => i,
    }
}

/// The phase in which a replay of `n` states starts: `init` on state 0, or the
/// end at once when there is no state.
pub open spec fn start_phase<E>(n: nat) -> Phase<E> {
    if n == 0 {
        Phase::Finished
    } else {
        Phase::Running(Call::Init(0))
    }
}

/// The phase after `c` returned `outcome`. For `init` and `step` an `Ok` means
/// the hook succeeded; for the invariants it carries whether they held. After
/// `init` on state `i` comes the state invariant on `i`; after the state
/// invariant on `i`, `step` on `i + 1`, or the end after the last state; after
/// `step` on `i` the result invariant on `i`, then the state invariant on `i`.
/// A false invariant or a failed hook ends the replay with that step.
pub open spec fn next_phase<E>(n: nat, c: Call, outcome: Result<bool, E>) -> Phase<E> {
    match outcome {
        Err(error) => Phase::Failed(RunError::Hook { step: call_state(c), error }),
        Ok(held) => match c {
            Call::Init(i) => Phase::Running(Call::StateInvariant(i)),
            Call::Step(i) => Phase::Running(Call::ResultInvariant(i)),
            Call::ResultInvariant(i) => if held {
                Phase::Running(Call::StateInvariant(i))
            } else {
                Phase::Failed(RunError::ResultInvariant { step: i })
            },
            Call::StateInvariant(i) => if !held {
                Phase::Failed(RunError::StateInvariant { step: i })
            } else if i + 1 < n {
                Phase::Running(Call::Step((i + 1) as usize))
            } else {
                Phase::Finished
            },
        },
    }
}

/// The phase in which a replay of `n` states starts.
pub fn start<E>(n: usize) -> (p: Phase<E>)
    ensures
        p == start_phase::<E>(n as nat),
{
    if n == 0 {
        Phase::Finished
    } else {
        Phase::Running(Call::Init(0))
    }
}

/// The phase of a replay of `n` states after `call` returned `outcome`.
pub fn advance<E>(n: usize, call: Call, outcome: Result<bool, E>) -> (p: Phase<E>)
    requires
        call_state(call) < n,
    ensures
        p == next_phase(n as nat, call, outcome),
{
    match outcome {
        Err(error) => {
            let step = match call {
                Call::Init(i) => i,
                Call::Step(i) => i,
                Call::ResultInvariant(i) => i,
                Call::StateInvariant(i) => i,
            };
            Phase::Failed(RunError::Hook { step, error })
        },
        Ok(held) => match call {
            Call::Init(i) => Phase::Running(Call::StateInvariant(i)),
            Call::Step(i) => Phase::Running(Call::ResultInvariant(i)),
            Call::ResultInvariant(i) => {
                if held {
                    Phase::Running(Call::StateInvariant(i))
                } else {
                    Phase::Failed(RunError::ResultInvariant { step: i })
                }
            },
            Call::StateInvariant(i) => {
                if !held {
                    Phase::Failed(RunError::StateInvariant { step: i })
                } else if i + 1 < n {
                    Phase::Running(Call::Step(i + 1))
                } else {
                    Phase::Finished
                }
            },
        },
    }
}

/// Holds when the calls and outcomes of `log` are a whole replay of `n` states
/// that ended with `r`: it starts with `init` on state 0, each call is the one
/// that the outcome before it leads to, and the last outcome ends the replay.
pub open spec fn replay_log<E>(
    n: nat,
    log: Seq<(Call, Result<bool, E>)>,
    r: Result<(), RunError<E>>,
) -> bool {
    if log.len() == 0 {
        n == 0 && r is Ok
    } else {
        &&& start_phase::<E>(n) == Phase::<E>::Running(log[0].0)
        &&& forall|k: int|
            0 <= k < log.len() - 1 ==> next_phase(n, (#[trigger] log[k]).0, log[k].1)
                == Phase::<E>::Running(log[k + 1].0)
        &&& match next_phase(n, log.last().0, log.last().1) {
            Phase::Finished => r is Ok,
            Phase::Failed(e) => r == Err::<(), RunError<E>>(e),
            Phase::Running(_) => false,
        }
    }
}

/// Holds when `log` is the beginning of a replay of `n` states that is now in
/// phase `p`.
#[verifier::opaque]
pub open spec fn log_leads<E>(n: nat, log: Seq<(Call, Result<bool, E>)>, p: Phase<E>) -> bool {
    &&& log.len() > 0
    &&& start_phase::<E>(n) == Phase::<E>::Running(log[0].0)
    &&& forall|k: int|
        0 <= k < log.len() - 1 ==> next_phase(n, (#[trigger] log[k]).0, log[k].1)
            == Phase::<E>::Running(log[k + 1].0)
    &&& next_phase(n, log.last().0, log.last().1) == p
}

proof fn lemma_log_push<E>(n: nat, log: Seq<(Call, Result<bool, E>)>, c: Call, o: Result<bool, E>)
    requires
        log_leads(n, log, Phase::Running(c)),
    ensures
        log_leads(n, log.push((c, o)), next_phase(n, c, o)),
{
    reveal(log_leads);
    let l2 = log.push((c, o));
    assert forall|k: int| 0 <= k < l2.len() - 1 implies next_phase(n, (#[trigger] l2[k]).0, l2[k].1)
        == Phase::<E>::Running(l2[k + 1].0) by {
        if k < log.len() - 1 {
            assert(l2[k] == log[k] && l2[k + 1] == log[k + 1]);
        } else {
            assert(l2[k] == log.last());
        }
    }
}

proof fn lemma_log_end<E>(n: nat, log: Seq<(Call, Result<bool, E>)>, p: Phase<E>, r: Result<(), RunError<E>>)
    requires
        log_leads(n, log, p),
        match p {
            Phase::Finished => r is Ok,
            Phase::Failed(e) => r == Err::<(), RunError<E>>(e),
            Phase::Running(_) => false,
        },
    ensures
        replay_log(n, log, r),
{
    reveal(log_leads);
}

proof fn lemma_log_start<E>(n: nat, o: Result<bool, E>)
    requires
        n > 0,
    ensures
        log_leads(n, seq![(Call::Init(0), o)], next_phase(n, Call::Init(0), o)),
{
    reveal(log_leads);
    let log = seq![(Call::Init(0), o)];
    assert(log.last() == log[0]);
}

/// A replay in which every hook succeeds and every invariant holds finishes
/// without error.
pub proof fn lemma_replay_succeeds<E>(n: nat, log: Seq<(Call, Result<bool, E>)>, r: Result<(), RunError<E>>)
    requires
        replay_log(n, log, r),
        forall|k: int| 0 <= k < log.len() ==> (#[trigger] log[k]).1 == Ok::<bool, E>(true),
    ensures
        r is Ok,
{
    if log.len() > 0 {
        assert(log.last() == log[log.len() - 1]);
    }
}

/// A replay stops at the first invariant that fails: that call is the last one,
/// and the error names its step.
pub proof fn lemma_replay_stops<E>(
    n: nat,
    log: Seq<(Call, Result<bool, E>)>,
    r: Result<(), RunError<E>>,
    k: int,
    i: usize,
)
    requires
        replay_log(n, log, r),
        0 <= k < log.len(),
        log[k] == (Call::StateInvariant(i), Ok::<bool, E>(false)) || log[k] == (
            Call::ResultInvariant(i),
            Ok::<bool, E>(false),
        ),
    ensures
        k == log.len() - 1,
        log[k].0 is StateInvariant ==> r == Err::<(), RunError<E>>(
            RunError::StateInvariant { step: i },
        ),
        log[k].0 is ResultInvariant ==> r == Err::<(), RunError<E>>(
            RunError::ResultInvariant { step: i },
        ),
{
    if k < log.len() - 1 {
        assert(next_phase(n, log[k].0, log[k].1) == Phase::<E>::Running(log[k + 1].0));
    }
    assert(log.last() == log[k]);
}

/// Remaining calls of a replay of `n` states in phase `p`, at most.
pub open spec fn remaining<E>(n: nat, p: Phase<E>) -> int {
    match p {
        Phase::Running(Call::Init(_)) => 3 * (n as int),
        Phase::Running(Call::Step(i)) => 3 * (n - i),
        Phase::Running(Call::ResultInvariant(i)) => 3 * (n - i) - 1,
        Phase::Running(Call::StateInvariant(i)) => 3 * (n - i) - 2,
        _ => 0,
    }
}

impl<S> Trace<S> {
    /// Replays the trace against `runner`, making at each point the call that
    /// the replay's phase names, on the expected state of that position, until
    /// the replay finishes or fails.
    pub fn run_on<R: Runner<ExpectedState = S>>(&self, runner: R) -> (r: Result<
        (),
        RunError<R::Error>,
    >)
        ensures
            exists|log: Seq<(Call, Result<bool, R::Error>)>|
                replay_log(self.states@.len() as nat, log, r),
            self.states@.len() == 0 ==> r is Ok,
            r matches Err(e) ==> e.step_of() < self.states@.len(),
    {
        let mut runner = runner;
        let n = self.states.len();
        let ghost nn = n as nat;
        let first = start::<R::Error>(n);
        if let Phase::Finished = first {
            proof {
                assert(replay_log(nn, Seq::<(Call, Result<bool, R::Error>)>::empty(), Ok(())));
            }
            return Ok(());
        }
        let mut actual = match runner.init(&self.states[0].value) {
            Ok(a) => a,
            Err(error) => {
                let ghost outcome = Err::<bool, R::Error>(error);
                let p = advance(n, Call::Init(0), Err(error));
                let r = match p {
                    Phase::Failed(e) => Err(e),
                    _ => Ok(()),
                };
                proof {
                    let log = seq![(Call::Init(0), outcome)];
                    lemma_log_start(nn, outcome);
                    lemma_log_end(nn, log, next_phase(nn, Call::Init(0), outcome), r);
                }
                return r;
            },
        };
        let ghost mut log = seq![(Call::Init(0), Ok::<bool, R::Error>(true))];
        let mut phase = advance(n, Call::Init(0), Ok(true));
        proof {
            lemma_log_start(nn, Ok::<bool, R::Error>(true));
        }
        while matches!(phase, Phase::Running(_))
            invariant
                n == self.states@.len(),
                nn == n as nat,
                log_leads(nn, log, phase),
                phase matches Phase::Running(c) ==> (c is Step || c is StateInvariant)
                    && call_state(c) < n,
                phase matches Phase::Failed(e) ==> e.step_of() < n,
            decreases remaining(nn, phase),
        {
            let call = match &phase {
                Phase::Running(c) => *c,
                _ => Call::StateInvariant(0),
            };
            match call {
                Call::Step(i) => {
                    let expected = &self.states[i].value;
                    match runner.step(&mut actual, expected) {
                        Ok(x) => {
                            let mid = advance::<R::Error>(n, Call::Step(i), Ok(true));
                            proof {
                                lemma_log_push(nn, log, Call::Step(i), Ok::<bool, R::Error>(true));
                                log = log.push((Call::Step(i), Ok::<bool, R::Error>(true)));
                            }
                            let outcome = runner.result_invariant(&x, expected);
                            proof {
                                lemma_log_push(nn, log, Call::ResultInvariant(i), outcome);
                                log = log.push((Call::ResultInvariant(i), outcome));
                            }
                            phase = advance(n, Call::ResultInvariant(i), outcome);
                        },
                        Err(error) => {
                            proof {
                                lemma_log_push(nn, log, Call::Step(i), Err::<bool, R::Error>(error));
                                log = log.push((Call::Step(i), Err::<bool, R::Error>(error)));
                            }
                            phase = advance(n, Call::Step(i), Err(error));
                        },
                    }
                },
                Call::StateInvariant(i) => {
                    let outcome = runner.state_invariant(&actual, &self.states[i].value);
                    proof {
                        lemma_log_push(nn, log, Call::StateInvariant(i), outcome);
                        log = log.push((Call::StateInvariant(i), outcome));
                    }
                    phase = advance(n, Call::StateInvariant(i), outcome);
                },
                _ => {},
            }
        }
        let r = match phase {
            Phase::Failed(e) => Err(e),
            _ => Ok(()),
        };
        proof {
            lemma_log_end(nn, log, phase, r);
        }
        r
    }
}

} // verus!
