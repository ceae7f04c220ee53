//! The command-expansion loop and its mathematical model.
//!
//! `run` drains a LIFO queue of commands, threading one exclusively owned
//! state value through every execution. Its contract states that the
//! returned outcome is exactly what the fuel-indexed interpreter
//! `run_model` computes on the views of the initial state and command.

use vstd::prelude::*;

verus! {

/// The views of the elements of a sequence of viewable values.
pub open spec fn views<T: View>(s: Seq<T>) -> Seq<T::V> {
    Seq::new(s.len(), |i: int| s[i]@)
}

/// An error that aborts a run. The message carries the original cause.
#[derive(Debug)]
pub enum EngineError {
    /// A command's token round trip failed: the tokens were malformed or
    /// incomplete, so the command could not be reconstructed.
    Serialization(String),
    /// A command's execute step reported failure.
    Execution(String),
}

impl EngineError {
    /// The message attached when the error was raised.
    pub fn message(&self) -> &String {
        match self {
            EngineError::Serialization(m) => m,
            EngineError::Execution(m) => m,
        }
    }
}

/// What the engine model has produced after a bounded number of steps.
pub enum RunOutcome<S> {
    /// The fuel ran out before the queue drained or a failure occurred.
    Pending,
    /// The queue drained; the run succeeds with this state.
    Done(S),
    /// A command failed its serialization round trip.
    SerFailed,
    /// A command's execute step failed.
    ExecFailed,
}

/// A command that acts on a state of type `S`: executing it consumes the
/// state and returns the updated state together with the ordered
/// follow-up commands to run before the command counts as complete.
pub trait Process<S: View>: View + Sized {
    /// What executing a command with view `v` does to a state with view
    /// `s`: `None` when the step fails, otherwise the new state view and
    /// the views of the emitted follow-ups, in order.
    spec fn step(v: Self::V, s: S::V) -> Option<(S::V, Seq<Self::V>)>;

    /// Execute this command against `s`.
    fn process(self, s: S) -> (r: Result<(S, Vec<Self>), EngineError>)
        ensures
            match r {
                Ok(p) => Self::step(self@, s@) == Some((p.0@, views(p.1@))),
                Err(e) => Self::step(self@, s@) is None && e is Execution,
            },
    ;
}

/// A command that serializes to and parses from a sequence of string
/// tokens.
pub trait Arguable: View + Sized {
    /// The tokens that a command with view `v` serializes to.
    spec fn ser(v: Self::V) -> Seq<Seq<char>>;

    /// The command view, if any, that a token sequence parses to.
    spec fn parse(args: Seq<Seq<char>>) -> Option<Self::V>;

    /// Serialize this command into tokens.
    fn to_args(self) -> (r: Vec<String>)
        ensures
            views(r@) == Self::ser(self@),
    ;

    /// Parse a command back from tokens, failing on malformed or
    /// incomplete input.
    fn from_args(args: Vec<String>) -> (r: Result<Self, EngineError>)
        ensures
            match r {
                Ok(c) => Self::parse(views(args@)) == Some(c@),
                Err(e) => Self::parse(views(args@)) is None && e is Serialization,
            },
    ;
}

/// The engine, run for at most `fuel` iterations on a state view and a
/// stack of pending command views. Each iteration pops the most recently
/// pushed command, round-trips it through its serialization, executes the
/// round-tripped command, and pushes the emitted follow-ups in reverse
/// order, so that they run to completion, depth first, before any command
/// queued earlier.
pub open spec fn run_model<S: View, C: Process<S> + Arguable>(
    state: S::V,
    stack: Seq<C::V>,
    fuel: nat,
) -> RunOutcome<S::V>
    decreases fuel,
{
    if fuel == 0 {
        RunOutcome::Pending
    } else if stack.len() == 0 {
        RunOutcome::Done(state)
    } else {
        match <C as Arguable>::parse(<C as Arguable>::ser(stack.last())) {
            None => RunOutcome::SerFailed,
            Some(v) => match <C as Process<S>>::step(v, state) {
                None => RunOutcome::ExecFailed,
                Some(p) => run_model::<S, C>(
                    p.0,
                    stack.drop_last() + p.1.reverse(),
                    (fuel - 1) as nat,
                ),
            },
        }
    }
}

/// The model outcome that a result of `run` stands for.
pub open spec fn outcome_of<S: View>(r: Result<S, EngineError>) -> RunOutcome<S::V> {
    match r {
        Ok(s) => RunOutcome::Done(s@),
        Err(EngineError::Serialization(_)) => RunOutcome::SerFailed,
        Err(EngineError::Execution(_)) => RunOutcome::ExecFailed,
    }
}

/// Holds when the engine model reaches a final outcome within `fuel`
/// steps: the queue drains or a failure aborts the run. Avoiding
/// unbounded expansion is the caller's responsibility, so `run` asks for
/// this of its initial state and command.
pub open spec fn resolves_within<S: View, C: Process<S> + Arguable>(
    state: S::V,
    stack: Seq<C::V>,
    fuel: nat,
) -> bool {
    run_model::<S, C>(state, stack, fuel) != RunOutcome::<S::V>::Pending
}

/// Once the model resolves, any larger fuel yields the same outcome.
pub proof fn lemma_run_model_stable<S: View, C: Process<S> + Arguable>(
    state: S::V,
    stack: Seq<C::V>,
    f1: nat,
    f2: nat,
)
    requires
        run_model::<S, C>(state, stack, f1) != RunOutcome::<S::V>::Pending,
        f1 <= f2,
    ensures
        run_model::<S, C>(state, stack, f2) == run_model::<S, C>(state, stack, f1),
    decreases f1,
{
    assert(f1 > 0);
    if stack.len() != 0 {
        match <C as Arguable>::parse(<C as Arguable>::ser(stack.last())) {
            None => {},
            Some(v) => match <C as Process<S>>::step(v, state) {
                None => {},
                Some(p) => {
                    lemma_run_model_stable::<S, C>(
                        p.0,
                        stack.drop_last() + p.1.reverse(),
                        (f1 - 1) as nat,
                        (f2 - 1) as nat,
                    );
                },
            },
        }
    }
}

/// Two fuels at which the model resolves agree on the outcome: the model
/// assigns a run at most one final result.
pub proof fn lemma_run_model_agrees<S: View, C: Process<S> + Arguable>(
    state: S::V,
    stack: Seq<C::V>,
    f1: nat,
    f2: nat,
)
    requires
        run_model::<S, C>(state, stack, f1) != RunOutcome::<S::V>::Pending,
        run_model::<S, C>(state, stack, f2) != RunOutcome::<S::V>::Pending,
    ensures
        run_model::<S, C>(state, stack, f1) == run_model::<S, C>(state, stack, f2),
{
    if f1 <= f2 {
        lemma_run_model_stable::<S, C>(state, stack, f1, f2);
    } else {
        lemma_run_model_stable::<S, C>(state, stack, f2, f1);
    }
}

/// A command that emits no follow-ups ends the run right after its own
/// execution, with exactly the state that execution produced.
pub proof fn lemma_leaf_ends_run<S: View, C: Process<S> + Arguable>(s0: S::V, v: C::V, s1: S::V)
    requires
        <C as Arguable>::parse(<C as Arguable>::ser(v)) == Some(v),
        <C as Process<S>>::step(v, s0) == Some((s1, Seq::<C::V>::empty())),
    ensures
        forall|fuel: nat| #[trigger] run_model::<S, C>(s0, seq![v], fuel) == (if fuel >= 2 {
            RunOutcome::<S::V>::Done(s1)
        } else {
            RunOutcome::<S::V>::Pending
        }),
{
    assert forall|fuel: nat| #[trigger] run_model::<S, C>(s0, seq![v], fuel) == (if fuel >= 2 {
        RunOutcome::<S::V>::Done(s1)
    } else {
        RunOutcome::<S::V>::Pending
    }) by {
        if fuel >= 1 {
            assert(seq![v].last() == v);
            assert(seq![v].drop_last() + Seq::<C::V>::empty().reverse() =~= Seq::<C::V>::empty());
            assert(run_model::<S, C>(s0, seq![v], fuel) == run_model::<S, C>(
                s1,
                Seq::<C::V>::empty(),
                (fuel - 1) as nat,
            ));
            assert(run_model::<S, C>(s1, Seq::<C::V>::empty(), (fuel - 1) as nat) == (if fuel
                >= 2 {
                RunOutcome::<S::V>::Done(s1)
            } else {
                RunOutcome::<S::V>::Pending
            }));
        }
    }
}

/// An idempotent no-op: a command whose execution returns the input state
/// unchanged and emits no follow-ups. Run from any state, the only
/// outcome the model resolves to is exactly that state.
pub proof fn lemma_noop_returns_state<S: View, C: Process<S> + Arguable>(s0: S::V, v: C::V)
    requires
        <C as Arguable>::parse(<C as Arguable>::ser(v)) == Some(v),
        <C as Process<S>>::step(v, s0) == Some((s0, Seq::<C::V>::empty())),
    ensures
        forall|fuel: nat| #[trigger] run_model::<S, C>(s0, seq![v], fuel)
            == RunOutcome::<S::V>::Pending
            || run_model::<S, C>(s0, seq![v], fuel) == RunOutcome::<S::V>::Done(s0),
{
    lemma_leaf_ends_run::<S, C>(s0, v, s0);
}

/// Depth-first ordering: executing the command on top of the queue
/// leaves its follow-ups stacked so that the first follow-up is popped
/// next — it, and everything it in turn emits, runs to completion before
/// the later follow-ups, which in turn precede every command that was
/// queued earlier.
pub proof fn lemma_follow_ups_depth_first<S: View, C: Process<S> + Arguable>(
    s: S::V,
    stack: Seq<C::V>,
    v: C::V,
    s1: S::V,
    ks: Seq<C::V>,
    fuel: nat,
)
    requires
        <C as Arguable>::parse(<C as Arguable>::ser(v)) == Some(v),
        <C as Process<S>>::step(v, s) == Some((s1, ks)),
        fuel > 0,
    ensures
        run_model::<S, C>(s, stack.push(v), fuel) == run_model::<S, C>(
            s1,
            stack + ks.reverse(),
            (fuel - 1) as nat,
        ),
        ks.len() > 0 ==> (stack + ks.reverse()).last() == ks.first(),
        forall|x: int| 0 <= x < stack.len() ==> (stack + ks.reverse())[x] == stack[x],
{
    assert(stack.push(v).last() == v);
    assert(stack.push(v).drop_last() =~= stack);
    if ks.len() > 0 {
        assert((stack + ks.reverse()).last() == ks.reverse()[ks.len() - 1]);
        assert(ks.reverse()[ks.len() - 1] == ks.first());
    }
}

/// Run `cmd` against `state`, draining the work queue depth first.
///
/// The returned outcome is exactly what `run_model` computes on the views
/// of the arguments: the queue drained (`Ok` with the final state), a
/// round trip failed, or an execution failed, each fatal on first
/// occurrence. By `lemma_run_model_agrees`, the fuel in the postcondition
/// pins the result down. The precondition asks only that the expansion
/// not go on without bound, which is the caller's responsibility.
#[verifier::loop_isolation(false)]
#[verifier::rlimit(50)]
pub fn run<S: View, C: Process<S> + Arguable>(state: S, cmd: C) -> (r: Result<S, EngineError>)
    requires
        exists|fuel: nat| resolves_within::<S, C>(state@, seq![cmd@], fuel),
    ensures
        exists|fuel: nat|
            run_model::<S, C>(state@, seq![cmd@], fuel) == outcome_of::<S>(r),
{
    let ghost gs0: S::V = state@;
    let ghost v0: C::V = cmd@;
    let ghost f0: nat = choose|f: nat| resolves_within::<S, C>(state@, seq![cmd@], f);
    let mut cur = state;
    let mut cmds: Vec<C> = Vec::new();
    cmds.push(cmd);
    let ghost mut rem: nat = f0;
    proof {
        assert(views(cmds@) =~= seq![v0]);
    }
    while cmds.len() != 0
        invariant
            run_model::<S, C>(gs0, seq![v0], f0) != RunOutcome::<S::V>::Pending,
            run_model::<S, C>(gs0, seq![v0], f0) == run_model::<S, C>(cur@, views(cmds@), rem),
        decreases rem,
    {
        proof {
            assert(rem > 0);
        }
        let ghost prev_state: S::V = cur@;
        let ghost prev_stack: Seq<C::V> = views(cmds@);
        let top = cmds.pop().unwrap();
        proof {
            assert(views(cmds@) =~= prev_stack.drop_last());
            assert(top@ == prev_stack.last());
        }
        let args = top.to_args();
        let top = match <C as Arguable>::from_args(args) {
            Ok(c) => c,
            Err(e) => {
                proof {
                    assert(run_model::<S, C>(prev_state, prev_stack, rem)
                        == RunOutcome::<S::V>::SerFailed);
                }
                return Err(e);
            },
        };
        let (next, mut kids) = match top.process(cur) {
            Ok(p) => p,
            Err(e) => {
                proof {
                    assert(run_model::<S, C>(prev_state, prev_stack, rem)
                        == RunOutcome::<S::V>::ExecFailed);
                }
                return Err(e);
            },
        };
        cur = next;
        let ghost kids0: Seq<C::V> = views(kids@);
        proof {
            assert(kids0.subrange(kids@.len() as int, kids0.len() as int).reverse()
                =~= Seq::<C::V>::empty());
            assert(views(cmds@) + Seq::<C::V>::empty() =~= views(cmds@));
            assert(views(kids@) =~= kids0.subrange(0, kids@.len() as int));
        }
        while kids.len() != 0
            invariant
                kids@.len() <= kids0.len(),
                views(kids@) == kids0.subrange(0, kids@.len() as int),
                views(cmds@) == prev_stack.drop_last() + kids0.subrange(
                    kids@.len() as int,
                    kids0.len() as int,
                ).reverse(),
            decreases kids.len(),
        {
            let ghost n = kids@.len() as int;
            let ghost cmds_before = cmds@;
            let k = kids.pop().unwrap();
            cmds.push(k);
            proof {
                assert(k@ == kids0[n - 1]);
                assert(views(kids@) =~= kids0.subrange(0, n - 1));
                assert(views(cmds@) =~= views(cmds_before).push(k@));
                assert(kids0.subrange(n - 1, kids0.len() as int).reverse() =~= kids0.subrange(
                    n,
                    kids0.len() as int,
                ).reverse().push(kids0[n - 1]));
                assert(views(cmds@) =~= prev_stack.drop_last() + kids0.subrange(
                    n - 1,
                    kids0.len() as int,
                ).reverse());
            }
        }
        proof {
            assert(kids0.subrange(0, kids0.len() as int) =~= kids0);
            assert(views(cmds@) == prev_stack.drop_last() + kids0.reverse());
            assert(run_model::<S, C>(prev_state, prev_stack, rem) == run_model::<S, C>(
                cur@,
                views(cmds@),
                (rem - 1) as nat,
            ));
            rem = (rem - 1) as nat;
        }
    }
    proof {
        assert(views(cmds@) =~= Seq::<C::V>::empty());
        assert(run_model::<S, C>(cur@, views(cmds@), rem) == RunOutcome::<S::V>::Done(cur@));
    }
    Ok(cur)
}

} // verus!
