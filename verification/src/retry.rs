//! The decisions of a bounded retry loop.
//!
//! The loop itself runs elsewhere: it makes an attempt under the time limit
//! that [`RetryLoop::next_timeout`] gives, hands what came of it and the time
//! to [`RetryLoop::record`], and then returns the result or sleeps and tries
//! again. Times are counts of nanoseconds since an origin of the caller's
//! choice.

use vstd::prelude::*;

verus! {

/// What came of one attempt.
#[derive(Debug)]
pub enum Attempt<T, E> {
    /// The operation returned this value.
    Succeeded(T),
    /// The operation returned this error.
    Failed(E),
    /// The operation did not return within its time limit.
    TimedOut,
}

/// Why a retry loop gave up.
#[derive(Debug, PartialEq, Eq)]
pub enum RetryTimeoutError<E> {
    /// Time ran out; the last attempt that returned at all returned this error.
    NeverSucceeded(E),
    /// Time ran out and no attempt ever returned.
    NeverCompleted,
}

impl<E> RetryTimeoutError<E> {
    /// A sentence that says how the loop gave up.
    pub fn message(&self) -> (text: &'static str)
        ensures
            text@ == (if *self is NeverCompleted {
                "Timed out without ever completing an attempt"@
            } else {
                "Timed out waiting for a successful attempt"@
            }),
    {
        match self {
            RetryTimeoutError::NeverSucceeded(_) => "Timed out waiting for a successful attempt",
            RetryTimeoutError::NeverCompleted => "Timed out without ever completing an attempt",
        }
    }
}

/// The state of a retry loop between two attempts.
pub struct RetryLoop<E> {
    deadline: u128,
    single_call_timeout: u128,
    wait_time: u128,
    last_error: Option<E>,
}

/// The mathematical content of a [`RetryLoop`].
pub struct RetryLoopView<E> {
    pub deadline: u128,
    pub single_call_timeout: u128,
    pub wait_time: u128,
    pub last_error: Option<E>,
}

impl<E> View for RetryLoop<E> {
    type V = RetryLoopView<E>;

    closed spec fn view(&self) -> RetryLoopView<E> {
        RetryLoopView {
            deadline: self.deadline,
            single_call_timeout: self.single_call_timeout,
            wait_time: self.wait_time,
            last_error: self.last_error,
        }
    }
}

/// What the loop does after an attempt.
pub enum Step<T, E> {
    /// Return this result.
    Finished(Result<T, RetryTimeoutError<E>>),
    /// Sleep for `delay`, then make the next attempt from `state`.
    Wait { state: RetryLoop<E>, delay: u128 },
}

/// The mathematical content of a [`Step`].
pub enum StepView<T, E> {
    Finished(Result<T, RetryTimeoutError<E>>),
    Wait { state: RetryLoopView<E>, delay: u128 },
}

impl<T, E> View for Step<T, E> {
    type V = StepView<T, E>;

    open spec fn view(&self) -> StepView<T, E> {
        match *self {
            Step::Finished(result) => StepView::Finished(result),
            Step::Wait { state, delay } => StepView::Wait { state: state@, delay },
        }
    }
}

/// The time left until `deadline`, which is nothing once it has passed.
pub open spec fn remaining(deadline: u128, now: u128) -> u128 {
    if now >= deadline {
        0
    } else {
        (deadline - now) as u128
    }
}

/// The time limit of an attempt that starts at `now`: the time left, but no
/// more than the limit for a single attempt.
pub open spec fn attempt_timeout<E>(state: RetryLoopView<E>, now: u128) -> u128 {
    if remaining(state.deadline, now) <= state.single_call_timeout {
        remaining(state.deadline, now)
    } else {
        state.single_call_timeout
    }
}

/// The error to remember after an attempt: the one it returned, else the one
/// remembered before.
pub open spec fn last_error_after<T, E>(before: Option<E>, outcome: Attempt<T, E>) -> Option<E> {
    match outcome {
        Attempt::Failed(e) => Some(e),
        _ => before,
    }
}

/// The decision after an attempt that ended at `now`. A success is returned
/// at once. Otherwise, if less time is left than the loop waits between two
/// attempts, the loop gives up, with the last error if there is one;
/// else it waits and tries again.
pub open spec fn after_attempt<T, E>(
    state: RetryLoopView<E>,
    outcome: Attempt<T, E>,
    now: u128,
) -> StepView<T, E> {
    match outcome {
        Attempt::Succeeded(value) => StepView::Finished(Ok(value)),
        _ => {
            let last_error = last_error_after(state.last_error, outcome);
            if state.wait_time > remaining(state.deadline, now) {
                StepView::Finished(
                    Err(
                        match last_error {
                            Some(e) => RetryTimeoutError::NeverSucceeded(e),
                            None => RetryTimeoutError::NeverCompleted,
                        },
                    ),
                )
            } else {
                StepView::Wait {
                    state: RetryLoopView {
                        deadline: state.deadline,
                        single_call_timeout: state.single_call_timeout,
                        wait_time: state.wait_time,
                        last_error,
                    },
                    delay: state.wait_time,
                }
            }
        },
    }
}

/// The result of a loop that sees the given attempts, each with the time at
/// which it ended, or `None` if the loop is still running after the last.
pub open spec fn outcome_of_run<T, E>(
    state: RetryLoopView<E>,
    attempts: Seq<(Attempt<T, E>, u128)>,
) -> Option<Result<T, RetryTimeoutError<E>>>
    decreases attempts.len(),
{
    if attempts.len() == 0 {
        None
    } else {
        match after_attempt(state, attempts[0].0, attempts[0].1) {
            StepView::Finished(result) => Some(result),
            StepView::Wait { state: next, delay } => outcome_of_run(next, attempts.drop_first()),
        }
    }
}

impl<E> RetryLoop<E> {
    /// The state of a loop that starts at `now` and may run for
    /// `total_timeout`.
    pub fn start(now: u128, total_timeout: u128, single_call_timeout: u128, wait_time: u128) -> (state:
        RetryLoop<E>)
        requires
            now + total_timeout <= u128::MAX,
        ensures
            state@ == (RetryLoopView::<E> {
                deadline: (now + total_timeout) as u128,
                single_call_timeout,
                wait_time,
                last_error: None,
            }),
    {
        RetryLoop { deadline: now + total_timeout, single_call_timeout, wait_time, last_error: None }
    }

    /// Like [`RetryLoop::start`], for any `now` and `total_timeout`: `None`
    /// where the deadline would lie beyond the largest time.
    pub fn start_checked(
        now: u128,
        total_timeout: u128,
        single_call_timeout: u128,
        wait_time: u128,
    ) -> (state: Option<RetryLoop<E>>)
        ensures
            match state {
                Some(s) => now + total_timeout <= u128::MAX && s@ == (RetryLoopView::<E> {
                    deadline: (now + total_timeout) as u128,
                    single_call_timeout,
                    wait_time,
                    last_error: None,
                }),
                None => now + total_timeout > u128::MAX,
            },
    {
        if now <= u128::MAX - total_timeout {
            Some(RetryLoop::start(now, total_timeout, single_call_timeout, wait_time))
        } else {
            None
        }
    }

    /// The time at which the loop gives up.
    pub fn deadline(&self) -> (deadline: u128)
        ensures
            deadline == self@.deadline,
    {
        self.deadline
    }

    /// The time limit for an attempt that starts at `now`.
    pub fn next_timeout(&self, now: u128) -> (limit: u128)
        ensures
            limit == attempt_timeout(self@, now),
    {
        let left = if now >= self.deadline {
            0
        } else {
            self.deadline - now
        };
        if left <= self.single_call_timeout {
            left
        } else {
            self.single_call_timeout
        }
    }

    /// Takes in what came of an attempt that ended at `now` and decides how
    /// the loop goes on.
    pub fn record<T>(self, outcome: Attempt<T, E>, now: u128) -> (step: Step<T, E>)
        ensures
            step@ == after_attempt(self@, outcome, now),
    {
        let RetryLoop { deadline, single_call_timeout, wait_time, last_error } = self;
        let last_error = match outcome {
            Attempt::Succeeded(value) => {
                return Step::Finished(Ok(value));
            },
            Attempt::Failed(e) => Some(e),
            Attempt::TimedOut => last_error,
        };
        let left = if now >= deadline {
            0
        } else {
            deadline - now
        };
        if wait_time > left {
            match last_error {
                Some(e) => Step::Finished(Err(RetryTimeoutError::NeverSucceeded(e))),
                None => Step::Finished(Err(RetryTimeoutError::NeverCompleted)),
            }
        } else {
            Step::Wait {
                state: RetryLoop { deadline, single_call_timeout, wait_time, last_error },
                delay: wait_time,
            }
        }
    }
}

/// All of the attempts timed out.
pub open spec fn all_timed_out<T, E>(attempts: Seq<(Attempt<T, E>, u128)>) -> bool {
    forall|i: int| 0 <= i < attempts.len() ==> (#[trigger] attempts[i]).0 is TimedOut
}

/// All of the attempts returned an error.
pub open spec fn all_failed<T, E>(attempts: Seq<(Attempt<T, E>, u128)>) -> bool {
    forall|i: int| 0 <= i < attempts.len() ==> (#[trigger] attempts[i]).0 is Failed
}

/// None of the attempts succeeded, and after each of them there was time
/// left for the wait before the next.
pub open spec fn all_retried<T, E>(state: RetryLoopView<E>, attempts: Seq<(Attempt<T, E>, u128)>) -> bool {
    forall|i: int|
        0 <= i < attempts.len() ==> !((#[trigger] attempts[i]).0 is Succeeded) && state.wait_time
            <= remaining(state.deadline, attempts[i].1)
}

/// The loop gave up after attempt `i`, which returned an error, and `result`
/// carries that error.
pub open spec fn gave_up_after_failure<T, E>(
    state: RetryLoopView<E>,
    attempts: Seq<(Attempt<T, E>, u128)>,
    i: int,
    result: Result<T, RetryTimeoutError<E>>,
) -> bool {
    &&& 0 <= i < attempts.len()
    &&& attempts[i].0 is Failed
    &&& result == Err::<T, RetryTimeoutError<E>>(
        RetryTimeoutError::NeverSucceeded(attempts[i].0->Failed_0),
    )
    &&& state.wait_time > remaining(state.deadline, attempts[i].1)
}

/// A loop that has seen no error and whose attempts all time out ends, if it
/// ends, with `NeverCompleted`.
pub proof fn lemma_timeouts_never_complete<T, E>(
    state: RetryLoopView<E>,
    attempts: Seq<(Attempt<T, E>, u128)>,
)
    requires
        state.last_error is None,
        all_timed_out(attempts),
    ensures
        outcome_of_run(state, attempts) matches Some(result) ==> result == Err::<
            T,
            RetryTimeoutError<E>,
        >(RetryTimeoutError::NeverCompleted),
    decreases attempts.len(),
{
    if attempts.len() > 0 {
        match after_attempt(state, attempts[0].0, attempts[0].1) {
            StepView::Finished(result) => {},
            StepView::Wait { state: next, delay } => {
                let rest = attempts.drop_first();
                lemma_timeouts_never_complete(next, rest);
            },
        }
    }
}

/// A loop whose attempts all return an error ends, if it ends, with
/// `NeverSucceeded` and the error of the attempt after which it gave up.
pub proof fn lemma_failures_never_succeed<T, E>(
    state: RetryLoopView<E>,
    attempts: Seq<(Attempt<T, E>, u128)>,
)
    requires
        all_failed(attempts),
    ensures
        outcome_of_run(state, attempts) matches Some(result) ==> exists|i: int|
            gave_up_after_failure(state, attempts, i, result),
    decreases attempts.len(),
{
    if attempts.len() > 0 {
        match after_attempt(state, attempts[0].0, attempts[0].1) {
            StepView::Finished(result) => {
                assert(gave_up_after_failure(state, attempts, 0, result));
            },
            StepView::Wait { state: next, delay } => {
                let rest = attempts.drop_first();
                lemma_failures_never_succeed(next, rest);
                if outcome_of_run(next, rest) is Some {
                    let result = outcome_of_run(next, rest)->Some_0;
                    let i = choose|i: int| gave_up_after_failure(next, rest, i, result);
                    assert(gave_up_after_failure(state, attempts, i + 1, result));
                }
            },
        }
    }
}

/// A success that comes after any number of attempts that were retried is
/// what the loop returns.
pub proof fn lemma_success_after_retries<T, E>(
    state: RetryLoopView<E>,
    retried: Seq<(Attempt<T, E>, u128)>,
    value: T,
    now: u128,
)
    requires
        all_retried(state, retried),
    ensures
        outcome_of_run(state, retried.push((Attempt::Succeeded(value), now))) == Some(
            Ok::<T, RetryTimeoutError<E>>(value),
        ),
    decreases retried.len(),
{
    let attempts = retried.push((Attempt::<T, E>::Succeeded(value), now));
    if retried.len() > 0 {
        match after_attempt(state, attempts[0].0, attempts[0].1) {
            StepView::Finished(result) => {},
            StepView::Wait { state: next, delay } => {
                let rest = retried.drop_first();
                lemma_success_after_retries(next, rest, value, now);
                assert(attempts.drop_first() =~= rest.push((Attempt::<T, E>::Succeeded(value), now)));
            },
        }
    }
}

/// An attempt that ends when less time is left than the loop waits between
/// attempts is the last one.
pub proof fn lemma_loop_ends_at_deadline<T, E>(
    state: RetryLoopView<E>,
    outcome: Attempt<T, E>,
    now: u128,
)
    requires
        state.wait_time > remaining(state.deadline, now),
    ensures
        after_attempt(state, outcome, now) is Finished,
{
}

} // verus!
