//! `try_until`: run alternative actions in order until one succeeds,
//! inside one overall deadline of which each attempt gets a short slice.
//! The caller performs each dispatched action and reports its outcome;
//! this state machine decides what happens next.

use vstd::prelude::*;
use crate::text::push_str;

verus! {

/// Budget of the whole run when the caller gives none, in milliseconds.
pub const DEFAULT_TIMEOUT_MS: u64 = 5000;

/// Longest slice one attempt may take, in milliseconds.
pub const STEP_SLICE_MS: u64 = 2000;

/// The action an alternative asks for.
#[derive(Clone, Debug)]
pub enum AltKind {
    Click,
    Type,
    Expect,
    /// Any other request kind, by name; it cannot run as an alternative.
    Other(String),
}

/// One alternative: its action and the window it targets, if it names one.
#[derive(Clone, Debug)]
pub struct Alternative {
    pub kind: AltKind,
    pub window: Option<u64>,
}

/// A failed attempt, in the order attempts were made.
#[derive(Clone, Debug)]
pub struct AltFailure {
    pub alternative: usize,
    pub action: String,
    pub error: String,
}

/// How a run ended.
#[derive(Clone, Debug)]
pub enum TryOutcome {
    /// Alternative `alternative` (an action named `action`) succeeded.
    Succeeded { alternative: usize, action: String },
    /// Every alternative was attempted and failed.
    AllFailed,
    /// The deadline passed before an untried alternative could run.
    DeadlineReached,
}

/// What the caller does next.
#[derive(Clone, Debug)]
pub enum TryStep {
    /// Perform alternative `index` on `window`, allowing `timeout_ms`.
    Dispatch { index: usize, window: Option<u64>, timeout_ms: u64 },
    /// The run is over.
    Finished(TryOutcome),
}

/// The state of one run.
pub struct TryUntil {
    pub alternatives: Vec<Alternative>,
    /// The window alternatives target when they name none.
    pub window: Option<u64>,
    /// Index of the next untried alternative.
    pub next: usize,
    /// The alternative being attempted, if any.
    pub in_flight: Option<usize>,
    pub failures: Vec<AltFailure>,
    /// Absolute deadline, on the caller's millisecond clock.
    pub deadline_ms: u64,
}

/// A failure as plain values.
pub struct FailureView {
    pub alternative: nat,
    pub action: Seq<char>,
    pub error: Seq<char>,
}

impl View for AltFailure {
    type V = FailureView;

    open spec fn view(&self) -> FailureView {
        FailureView { alternative: self.alternative as nat, action: self.action@, error: self.error@ }
    }
}

/// The name of an action.
pub open spec fn kind_name(k: AltKind) -> Seq<char> {
    match k {
        AltKind::Click => "click"@,
        AltKind::Type => "type"@,
        AltKind::Expect => "expect"@,
        AltKind::Other(name) => name@,
    }
}

/// Whether an action can run as an alternative.
pub open spec fn runnable(k: AltKind) -> bool {
    !(k is Other)
}

/// The error recorded for an alternative whose action cannot run.
pub open spec fn cannot_run_message(k: AltKind) -> Seq<char> {
    "try_until cannot run "@ + kind_name(k)
}

/// The slice of the remaining budget one attempt gets: at most
/// `STEP_SLICE_MS`, at least one millisecond.
pub open spec fn step_slice(deadline: u64, now: u64) -> u64 {
    let remaining = if now < deadline {
        (deadline - now) as u64
    } else {
        0
    };
    if remaining > STEP_SLICE_MS {
        STEP_SLICE_MS
    } else if remaining < 1 {
        1
    } else {
        remaining
    }
}

/// The index of the first runnable alternative at or after `i`, or the
/// number of alternatives when there is none.
pub open spec fn next_runnable(alts: Seq<Alternative>, i: int) -> int
    decreases alts.len() - i,
{
    if i < 0 || i >= alts.len() {
        alts.len() as int
    } else if runnable(alts[i].kind) {
        i
    } else {
        next_runnable(alts, i + 1)
    }
}

/// The failures recorded while passing over the alternatives
/// `from..to` that cannot run (the caller passes `to` as the first
/// runnable index).
pub open spec fn skipped_failures(alts: Seq<Alternative>, from: int, to: int) -> Seq<FailureView>
    decreases to - from,
{
    if from >= to {
        Seq::empty()
    } else {
        seq![
            FailureView {
                alternative: from as nat,
                action: kind_name(alts[from].kind),
                error: cannot_run_message(alts[from].kind),
            },
        ] + skipped_failures(alts, from + 1, to)
    }
}

impl TryUntil {
    /// The state is consistent: `next` is a position in the list, only the
    /// alternative just before `next` can be in flight, and failures are
    /// recorded for earlier alternatives only, in increasing order.
    pub open spec fn wf(&self) -> bool {
        &&& self.next <= self.alternatives@.len()
        &&& self.in_flight matches Some(i) ==> i + 1 == self.next && forall|k: int|
            0 <= k < self.failures@.len() ==> (#[trigger] self.failures@[k]).alternative < i
        &&& forall|k: int|
            0 <= k < self.failures@.len() ==> (#[trigger] self.failures@[k]).alternative < self.next
        &&& forall|j: int, k: int|
            0 <= j < k < self.failures@.len() ==> self.failures@[j].alternative
                < self.failures@[k].alternative
    }

    /// Decides the next move at time `now_ms`: take the next untried
    /// alternative; if there is none the run failed; if the deadline has
    /// passed the run is over; an alternative whose action cannot run is
    /// recorded as failed and passed over; otherwise it is dispatched with
    /// its slice of the remaining budget.
    pub fn step(&mut self, now_ms: u64) -> (r: TryStep)
        requires
            old(self).wf(),
            old(self).in_flight.is_none(),
        ensures
            final(self).wf(),
            final(self).alternatives@ == old(self).alternatives@,
            final(self).window == old(self).window,
            final(self).deadline_ms == old(self).deadline_ms,
            ({
                let alts = old(self).alternatives@;
                let first = old(self).next as int;
                let deadline = old(self).deadline_ms;
                if first >= alts.len() {
                    &&& r matches TryStep::Finished(TryOutcome::AllFailed)
                    &&& final(self).next == first
                    &&& final(self).in_flight.is_none()
                    &&& final(self).failures@ == old(self).failures@
                } else if now_ms >= deadline {
                    &&& r matches TryStep::Finished(TryOutcome::DeadlineReached)
                    &&& final(self).next == first + 1
                    &&& final(self).in_flight.is_none()
                    &&& final(self).failures@ == old(self).failures@
                } else {
                    let k = next_runnable(alts, first);
                    &&& first <= k <= alts.len()
                    &&& final(self).failures@.map_values(|f: AltFailure| f@) == old(
                        self,
                    ).failures@.map_values(|f: AltFailure| f@) + skipped_failures(alts, first, k)
                    &&& if k < alts.len() {
                        &&& r matches TryStep::Dispatch { index, window, timeout_ms }
                        &&& index == k
                        &&& window == match alts[k].window {
                            Some(w) => Some(w),
                            None => old(self).window,
                        }
                        &&& timeout_ms == step_slice(deadline, now_ms)
                        &&& final(self).next == k + 1
                        &&& final(self).in_flight == Some(k as usize)
                    } else {
                        &&& r matches TryStep::Finished(TryOutcome::AllFailed)
                        &&& final(self).next == k
                        &&& final(self).in_flight.is_none()
                    }
                }
            }),
    {
        let ghost first = self.next as int;
        let ghost old_failures = self.failures@.map_values(|f: AltFailure| f@);
        proof {
            lemma_next_runnable_bounds(self.alternatives@, first);
        }
        if self.next >= self.alternatives.len() {
            return TryStep::Finished(TryOutcome::AllFailed);
        }
        if now_ms >= self.deadline_ms {
            self.next = self.next + 1;
            return TryStep::Finished(TryOutcome::DeadlineReached);
        }
        let timeout = {
            let remaining = self.deadline_ms - now_ms;
            if remaining > STEP_SLICE_MS {
                STEP_SLICE_MS
            } else if remaining < 1 {
                1
            } else {
                remaining
            }
        };
        loop
            invariant
                self.wf(),
                self.in_flight.is_none(),
                first <= self.next <= self.alternatives@.len(),
                self.alternatives@ == old(self).alternatives@,
                self.window == old(self).window,
                self.deadline_ms == old(self).deadline_ms,
                next_runnable(self.alternatives@, first) == next_runnable(
                    self.alternatives@,
                    self.next as int,
                ),
                old_failures == old(self).failures@.map_values(|f: AltFailure| f@),
                self.failures@.map_values(|f: AltFailure| f@) == old_failures + skipped_failures(
                    self.alternatives@,
                    first,
                    self.next as int,
                ),
                forall|k: int|
                    0 <= k < self.failures@.len() ==> (#[trigger] self.failures@[k]).alternative
                        < self.next,
                first < self.alternatives@.len(),
                first == old(self).next,
                old(self).in_flight.is_none(),
                now_ms < self.deadline_ms,
                timeout == step_slice(self.deadline_ms, now_ms),
            decreases self.alternatives@.len() - self.next,
        {
            let i = self.next;
            if i >= self.alternatives.len() {
                return TryStep::Finished(TryOutcome::AllFailed);
            }
            let kind = &self.alternatives[i].kind;
            match kind {
                AltKind::Other(name) => {
                    let mut error = String::new();
                    push_str(&mut error, "try_until cannot run ");
                    push_str(&mut error, name.as_str());
                    let action = name.clone();
                    let ghost before = self.failures@.map_values(|f: AltFailure| f@);
                    let failure = AltFailure { alternative: i, action, error };
                    let ghost fv = failure@;
                    self.failures.push(failure);
                    self.next = i + 1;
                    proof {
                        lemma_skipped_push(self.alternatives@, first, i as int);
                        assert(self.failures@.map_values(|f: AltFailure| f@) =~= before.push(fv));
                    }
                },
                _ => {
                    let window = match self.alternatives[i].window {
                        Some(w) => Some(w),
                        None => self.window,
                    };
                    self.next = i + 1;
                    self.in_flight = Some(i);
                    return TryStep::Dispatch { index: i, window, timeout_ms: timeout };
                },
            }
        }
    }

    /// Records the outcome of the attempt in flight: a success ends the
    /// run; a failure is recorded with its message, and the caller steps
    /// again.
    pub fn finish_attempt(&mut self, outcome: Result<(), String>) -> (r: Option<TryOutcome>)
        requires
            old(self).wf(),
            old(self).in_flight.is_some(),
        ensures
            final(self).wf(),
            final(self).in_flight.is_none(),
            final(self).next == old(self).next,
            final(self).alternatives@ == old(self).alternatives@,
            final(self).window == old(self).window,
            final(self).deadline_ms == old(self).deadline_ms,
            ({
                let i = old(self).in_flight.unwrap();
                let name = kind_name(old(self).alternatives@[i as int].kind);
                match outcome {
                    Ok(()) => {
                        &&& r matches Some(TryOutcome::Succeeded { alternative, action })
                        &&& alternative == i
                        &&& action@ == name
                        &&& final(self).failures@ == old(self).failures@
                    },
                    Err(message) => {
                        &&& r.is_none()
                        &&& final(self).failures@.map_values(|f: AltFailure| f@) == old(
                            self,
                        ).failures@.map_values(|f: AltFailure| f@).push(
                            FailureView { alternative: i as nat, action: name, error: message@ },
                        )
                    },
                }
            }),
    {
        let i = match self.in_flight {
            Some(i) => i,
            None => 0,
        };
        self.in_flight = None;
        let action = kind_name_exec(&self.alternatives[i].kind);
        match outcome {
            Ok(()) => Some(TryOutcome::Succeeded { alternative: i, action }),
            Err(message) => {
                let ghost before = self.failures@.map_values(|f: AltFailure| f@);
                let failure = AltFailure { alternative: i, action, error: message };
                let ghost fv = failure@;
                self.failures.push(failure);
                assert(self.failures@.map_values(|f: AltFailure| f@) =~= before.push(fv));
                None
            },
        }
    }
}

/// The deadline `budget` milliseconds after `now`, or the clock's last
/// millisecond when that lies beyond it.
pub open spec fn deadline_after(now: u64, budget: u64) -> u64 {
    if now + budget > u64::MAX {
        u64::MAX
    } else {
        (now + budget) as u64
    }
}

/// A run over `alternatives` targeting `window` by default, with a
/// budget of `timeout_ms` (five seconds by default, at least one
/// millisecond) from `now_ms`, the deadline saturating at the clock's last
/// millisecond.
pub fn try_until(
    alternatives: Vec<Alternative>,
    window: Option<u64>,
    timeout_ms: Option<u64>,
    now_ms: u64,
) -> (s: TryUntil)
    ensures
        s.wf(),
        s.alternatives@ == alternatives@,
        s.window == window,
        s.next == 0,
        s.in_flight.is_none(),
        s.failures@.len() == 0,
        s.deadline_ms == deadline_after(
            now_ms,
            match timeout_ms {
                Some(t) => if t < 1 {
                    1
                } else {
                    t
                },
                None => DEFAULT_TIMEOUT_MS,
            },
        ),
{
    let budget = match timeout_ms {
        Some(t) => if t < 1 {
            1
        } else {
            t
        },
        None => DEFAULT_TIMEOUT_MS,
    };
    TryUntil {
        alternatives,
        window,
        next: 0,
        in_flight: None,
        failures: Vec::new(),
        deadline_ms: now_ms.saturating_add(budget),
    }
}

proof fn lemma_next_runnable_bounds(alts: Seq<Alternative>, i: int)
    requires
        0 <= i <= alts.len(),
    ensures
        i <= next_runnable(alts, i) <= alts.len(),
        next_runnable(alts, i) < alts.len() ==> runnable(alts[next_runnable(alts, i)].kind),
    decreases alts.len() - i,
{
    if i < alts.len() && !runnable(alts[i].kind) {
        lemma_next_runnable_bounds(alts, i + 1);
    }
}

proof fn lemma_skipped_push(alts: Seq<Alternative>, from: int, i: int)
    requires
        from <= i < alts.len(),
    ensures
        skipped_failures(alts, from, i + 1) == skipped_failures(alts, from, i) + seq![
            FailureView {
                alternative: i as nat,
                action: kind_name(alts[i].kind),
                error: cannot_run_message(alts[i].kind),
            },
        ],
    decreases i - from,
{
    if from < i {
        lemma_skipped_push(alts, from + 1, i);
        assert(skipped_failures(alts, from, i + 1) =~= seq![
            FailureView {
                alternative: from as nat,
                action: kind_name(alts[from].kind),
                error: cannot_run_message(alts[from].kind),
            },
        ] + skipped_failures(alts, from + 1, i + 1));
    } else {
        assert(skipped_failures(alts, i + 1, i + 1) =~= Seq::<FailureView>::empty());
    }
}

/// The name of an action.
pub fn kind_name_exec(k: &AltKind) -> (s: String)
    ensures
        s@ == kind_name(*k),
{
    match k {
        AltKind::Click => {
            let mut s = String::new();
            push_str(&mut s, "click");
            s
        },
        AltKind::Type => {
            let mut s = String::new();
            push_str(&mut s, "type");
            s
        },
        AltKind::Expect => {
            let mut s = String::new();
            push_str(&mut s, "expect");
            s
        },
        AltKind::Other(name) => name.clone(),
    }
}

impl TryOutcome {
    /// The message a failed run is answered with.
    pub open spec fn failure_message(self) -> Option<Seq<char>> {
        match self {
            TryOutcome::Succeeded { .. } => None,
            TryOutcome::AllFailed => Some("all alternatives failed"@),
            TryOutcome::DeadlineReached => Some("try_until deadline reached"@),
        }
    }

    /// The message a failed run is answered with; none for a success.
    pub fn message(&self) -> (m: Option<String>)
        ensures
            match m {
                Some(s) => self.failure_message() == Some(s@),
                None => self.failure_message().is_none(),
            },
    {
        match self {
            TryOutcome::Succeeded { .. } => None,
            TryOutcome::AllFailed => {
                let mut s = String::new();
                push_str(&mut s, "all alternatives failed");
                Some(s)
            },
            TryOutcome::DeadlineReached => {
                let mut s = String::new();
                push_str(&mut s, "try_until deadline reached");
                Some(s)
            },
        }
    }
}

/// One attempt never gets more than its slice nor less than a
/// millisecond, and while time remains never more than what remains: a
/// hung alternative cannot use up the budget of the ones after it.
pub proof fn lemma_step_slice_bounds(deadline: u64, now: u64)
    ensures
        1 <= step_slice(deadline, now) <= STEP_SLICE_MS,
        now < deadline ==> step_slice(deadline, now) <= deadline - now,
        now < deadline && deadline - now <= 2000 ==> step_slice(deadline, now) == deadline - now,
        now < deadline && deadline - now > 2000 ==> step_slice(deadline, now) == 2000,
        now >= deadline ==> step_slice(deadline, now) == 1,
{
}

} // verus!
