//! What is set up around an evaluator of the configuration language, and
//! what is left of an evaluation when it is over. The evaluator itself, the
//! profiler, the debugger and the listener are values of the caller's types,
//! which are carried and handed back, never looked into.

use vstd::prelude::*;

verus! {

/// What is evaluated, by its name.
pub struct StarlarkEvalKind(pub String);

/// What an evaluator is set up from: the profiler `P`, the debugger `D`
/// where one is attached, the listener `L` where somebody wants the
/// profiles, and the limit on the depth of calls where the configuration
/// sets one.
pub struct StarlarkEvaluatorProvider<P, D, L> {
    pub profiler_data: P,
    pub eval_kind: StarlarkEvalKind,
    pub debugger: Option<D>,
    pub profile_listener: Option<L>,
    pub starlark_max_callstack_size: Option<usize>,
}

/// What is left of an evaluation that is over: the profiler with what it
/// collected, and who wants to hear of it.
pub struct FinishedStarlarkEvaluation<P, L> {
    pub profiler_data: P,
    pub eval_kind: StarlarkEvalKind,
    pub listener: Option<L>,
}

/// An evaluation cannot be finished.
#[derive(Clone, Copy, Debug, PartialEq, Eq, Structural)]
pub enum EvaluationError {
    /// The evaluator belongs to somebody else, who finishes it.
    WrappedCannotBeFinished,
}

impl EvaluationError {
    pub fn message(&self) -> (text: String)
        ensures
            text@ == "Wrapped evaluator cannot be finished"@,
    {
        String::from_str("Wrapped evaluator cannot be finished")
    }
}

/// An evaluator that is entered more than once. It is the provider's own,
/// set up with all that the provider has, or one of somebody else that is
/// only borrowed.
pub enum ReentrantStarlarkEvaluator<'x, E, P, D, L> {
    Normal { eval: E, provider: StarlarkEvaluatorProvider<P, D, L>, is_profiling_enabled: bool },
    Wrapped { eval: &'x mut E, is_debugging_enabled: bool },
}

impl<P, D, L> StarlarkEvaluatorProvider<P, D, L> {
    /// A provider that sets up nothing but the evaluator.
    pub fn passthrough(eval_kind: StarlarkEvalKind, profiler_data: P) -> (provider: Self)
        ensures
            provider == (StarlarkEvaluatorProvider {
                profiler_data,
                eval_kind,
                debugger: None::<D>,
                profile_listener: None::<L>,
                starlark_max_callstack_size: None,
            }),
    {
        StarlarkEvaluatorProvider {
            profiler_data,
            eval_kind,
            debugger: None,
            starlark_max_callstack_size: None,
            profile_listener: None,
        }
    }

    /// The evaluator of the provider, once `eval` was set up from it;
    /// `is_profiling_enabled` is what the profiler said when it was set up.
    pub fn make_reentrant_evaluator<'x, E>(self, eval: E, is_profiling_enabled: bool) -> (evaluator:
        ReentrantStarlarkEvaluator<'x, E, P, D, L>)
        ensures
            evaluator == (ReentrantStarlarkEvaluator::Normal {
                eval,
                provider: self,
                is_profiling_enabled,
            }),
    {
        ReentrantStarlarkEvaluator::Normal { eval, provider: self, is_profiling_enabled }
    }
}

impl<'x, E, P, D, L> ReentrantStarlarkEvaluator<'x, E, P, D, L> {
    pub open spec fn debugging(&self) -> bool {
        match *self {
            ReentrantStarlarkEvaluator::Normal { provider, .. } => provider.debugger is Some,
            ReentrantStarlarkEvaluator::Wrapped { is_debugging_enabled, .. } => is_debugging_enabled,
        }
    }

    pub open spec fn profiling(&self) -> bool {
        match *self {
            ReentrantStarlarkEvaluator::Normal { is_profiling_enabled, .. } => is_profiling_enabled,
            ReentrantStarlarkEvaluator::Wrapped { .. } => false,
        }
    }

    /// Borrows the evaluator of somebody else. It is never profiled;
    /// `is_debugging_enabled` says whether a debugger is attached.
    pub fn wrap_evaluator_without_profiling(is_debugging_enabled: bool, eval: &'x mut E) -> (evaluator:
        Self)
        ensures
            evaluator.debugging() == is_debugging_enabled,
            !evaluator.profiling(),
            evaluator is Wrapped,
    {
        ReentrantStarlarkEvaluator::Wrapped { eval, is_debugging_enabled }
    }

    /// Whether a debugger is attached: then the evaluation must not run on a
    /// thread that the debugger itself needs.
    pub fn is_debugging_enabled(&self) -> (b: bool)
        ensures
            b == self.debugging(),
    {
        match self {
            ReentrantStarlarkEvaluator::Normal { provider, .. } => provider.debugger.is_some(),
            ReentrantStarlarkEvaluator::Wrapped { is_debugging_enabled, .. } => *is_debugging_enabled,
        }
    }

    pub fn is_profiling_enabled(&self) -> (b: bool)
        ensures
            b == self.profiling(),
    {
        match self {
            ReentrantStarlarkEvaluator::Normal { is_profiling_enabled, .. } => *is_profiling_enabled,
            ReentrantStarlarkEvaluator::Wrapped { .. } => false,
        }
    }

    /// Ends the evaluation. The provider's own evaluator is handed back, for
    /// the profiler to take what it collected from it, with what is left of
    /// the evaluation. A borrowed evaluator cannot be finished.
    pub fn finish_evaluation(self) -> (result: Result<
        (E, FinishedStarlarkEvaluation<P, L>),
        EvaluationError,
    >)
        ensures
            match self {
                ReentrantStarlarkEvaluator::Normal { eval, provider, .. } => result == Ok::<
                    (E, FinishedStarlarkEvaluation<P, L>),
                    EvaluationError,
                >(
                    (
                        eval,
                        FinishedStarlarkEvaluation {
                            profiler_data: provider.profiler_data,
                            eval_kind: provider.eval_kind,
                            listener: provider.profile_listener,
                        },
                    ),
                ),
                ReentrantStarlarkEvaluator::Wrapped { .. } => result == Err::<
                    (E, FinishedStarlarkEvaluation<P, L>),
                    EvaluationError,
                >(EvaluationError::WrappedCannotBeFinished),
            },
    {
        match self {
            ReentrantStarlarkEvaluator::Normal { eval, provider, .. } => Ok(
                (
                    eval,
                    FinishedStarlarkEvaluation {
                        profiler_data: provider.profiler_data,
                        eval_kind: provider.eval_kind,
                        listener: provider.profile_listener,
                    },
                ),
            ),
            ReentrantStarlarkEvaluator::Wrapped { .. } => Err(
                EvaluationError::WrappedCannotBeFinished,
            ),
        }
    }
}

impl<P, L> FinishedStarlarkEvaluation<P, L> {
    /// Who is told of what the profiler collected: the listener, if there is
    /// one and the profiler collected something.
    pub fn to_notify<R, X>(&self, collected: &Result<Option<R>, X>) -> (listener: Option<&L>)
        ensures
            match listener {
                Some(who) => self.listener == Some(*who) && collected matches Ok(Some(_)),
                None => self.listener is None || !(collected matches Ok(Some(_))),
            },
    {
        match collected {
            Ok(Some(_)) => self.listener.as_ref(),
            _ => None,
        }
    }
}

} // verus!
