//! The rule that decides which smoothed readings are reported: at least one
//! report per time floor, and at once when the reading has moved far enough.

use vstd::prelude::*;
use crate::clock::secs_between;
use crate::clock::MonotonicTime;
use crate::rounding::as_int;
use crate::rounding::MILLIS_PER_TENTH;

verus! {

/// Longest silence between two reports, in seconds.
pub const REPORT_FLOOR_SECS: u64 = 300;

/// What the policy remembers of a sensor between evaluations.
pub struct ReportState {
    /// The reading reported last, in tenths of a degree; zero before the
    /// first report.
    pub last_reported_value: int,
    /// The clock reading, in nanoseconds, at which the last report was
    /// decided; the time of construction before the first report.
    pub last_report_time: nat,
}

/// The state of a policy made at `created`, before its first report.
pub open spec fn initial_state(created: nat) -> ReportState {
    ReportState { last_reported_value: 0, last_report_time: created }
}

/// Distance between two readings, in tenths of a degree.
pub open spec fn distance(a: int, b: int) -> nat {
    if a >= b {
        (a - b) as nat
    } else {
        (b - a) as nat
    }
}

/// The time floor has passed between the clock readings `last` and `now`.
pub open spec fn floor_elapsed(last: nat, now: nat) -> bool {
    secs_between(last, now) >= REPORT_FLOOR_SECS
}

/// The reading has moved by at least `threshold` millidegrees since the last
/// report.
pub open spec fn change_reached(threshold: nat, last: int, smoothed: int) -> bool {
    distance(last, smoothed) * MILLIS_PER_TENTH >= threshold
}

/// A report of `smoothed` is due at `now`: the time floor has passed or the
/// reading has moved far enough, both counted from the last report.
pub open spec fn report_due(threshold: nat, state: ReportState, smoothed: int, now: nat) -> bool {
    floor_elapsed(state.last_report_time, now) || change_reached(
        threshold,
        state.last_reported_value,
        smoothed,
    )
}

/// What an evaluation hands out: the smoothed reading where a report is due,
/// and nothing otherwise.
pub open spec fn decision(threshold: nat, state: ReportState, smoothed: Option<int>, now: nat)
    -> Option<int> {
    match smoothed {
        Some(value) if report_due(threshold, state, value, now) => Some(value),
        _ => None,
    }
}

/// The state after an evaluation. A report records its value and its time;
/// anything else leaves the state as it was. The recorded time never moves
/// back: a clock reading older than the last report leaves the time alone.
pub open spec fn next_state(threshold: nat, state: ReportState, smoothed: Option<int>, now: nat)
    -> ReportState {
    match decision(threshold, state, smoothed, now) {
        Some(value) => ReportState {
            last_reported_value: value,
            last_report_time: if now >= state.last_report_time {
                now
            } else {
                state.last_report_time
            },
        },
        None => state,
    }
}

/// One evaluation: a smoothed reading, if there is one, and the clock reading
/// that goes with it.
pub struct Evaluation {
    pub smoothed: Option<int>,
    pub now: nat,
}

/// The state after the evaluations `steps`, in order, starting from `state`.
pub open spec fn state_after(threshold: nat, state: ReportState, steps: Seq<Evaluation>)
    -> ReportState
    decreases steps.len(),
{
    if steps.len() == 0 {
        state
    } else {
        let before = state_after(threshold, state, steps.drop_last());
        next_state(threshold, before, steps.last().smoothed, steps.last().now)
    }
}

/// What evaluation number `index` of `steps` hands out, the run starting
/// from `state`.
pub open spec fn decision_at(
    threshold: nat,
    state: ReportState,
    steps: Seq<Evaluation>,
    index: int,
) -> Option<int> {
    decision(
        threshold,
        state_after(threshold, state, steps.take(index)),
        steps[index].smoothed,
        steps[index].now,
    )
}

/// The floor counted from a clock reading holds all the more from an
/// earlier one.
pub proof fn lemma_floor_from_earlier(earlier: nat, last: nat, now: nat)
    requires
        earlier <= last,
        floor_elapsed(last, now),
    ensures
        floor_elapsed(earlier, now),
{
    let gap = now - last;
    let wider = now - earlier;
    assert(gap / 1_000_000_000 <= wider / 1_000_000_000) by (nonlinear_arith)
        requires
            0 <= gap <= wider,
    ;
}

/// While nothing is handed out the state stays as it was: if none of the
/// evaluations from `from` up to `to` reports, the state before `to` is the
/// state before `from`.
pub proof fn lemma_silence_keeps_state(
    threshold: nat,
    state: ReportState,
    steps: Seq<Evaluation>,
    from: int,
    to: int,
)
    requires
        0 <= from <= to <= steps.len(),
        forall|k: int| from <= k < to ==> decision_at(threshold, state, steps, k) is None,
    ensures
        state_after(threshold, state, steps.take(to)) == state_after(
            threshold,
            state,
            steps.take(from),
        ),
    decreases to - from,
{
    if from < to {
        lemma_silence_keeps_state(threshold, state, steps, from, to - 1);
        assert(steps.take(to).drop_last() =~= steps.take(to - 1));
        assert(decision_at(threshold, state, steps, to - 1) is None);
    }
}

/// The time of the last report never moves back, and the state changes only
/// when a report is handed out.
pub proof fn law_report_time_never_moves_back(
    threshold: nat,
    state: ReportState,
    smoothed: Option<int>,
    now: nat,
)
    ensures
        next_state(threshold, state, smoothed, now).last_report_time >= state.last_report_time,
        decision(threshold, state, smoothed, now) is None ==> next_state(
            threshold,
            state,
            smoothed,
            now,
        ) == state,
{
}

/// Over a whole run the time of the last report never moves back.
pub proof fn law_report_time_is_monotonic(
    threshold: nat,
    state: ReportState,
    steps: Seq<Evaluation>,
)
    ensures
        state_after(threshold, state, steps).last_report_time >= state.last_report_time,
    decreases steps.len(),
{
    if steps.len() > 0 {
        law_report_time_is_monotonic(threshold, state, steps.drop_last());
    }
}

/// Two reports in a row are never closer than the policy allows: if
/// evaluation `first` hands out `a`, evaluation `second` hands out `b`, and
/// none in between hands out anything, then the time floor lies between the
/// two or `b` differs from `a` by at least the threshold.
pub proof fn law_reports_are_spaced(
    threshold: nat,
    state: ReportState,
    steps: Seq<Evaluation>,
    first: int,
    second: int,
)
    requires
        0 <= first < second < steps.len(),
        decision_at(threshold, state, steps, first) is Some,
        decision_at(threshold, state, steps, second) is Some,
        forall|k: int| first < k < second ==> decision_at(threshold, state, steps, k) is None,
    ensures
        ({
            let a = decision_at(threshold, state, steps, first)->0;
            let b = decision_at(threshold, state, steps, second)->0;
            floor_elapsed(steps[first].now, steps[second].now) || change_reached(threshold, a, b)
        }),
{
    let a = decision_at(threshold, state, steps, first)->0;
    let b = decision_at(threshold, state, steps, second)->0;
    let after_first = state_after(threshold, state, steps.take(first + 1));
    assert(steps.take(first + 1).drop_last() =~= steps.take(first));
    assert(after_first.last_reported_value == a);
    assert(after_first.last_report_time >= steps[first].now);
    lemma_silence_keeps_state(threshold, state, steps, first + 1, second);
    let before_second = state_after(threshold, state, steps.take(second));
    assert(before_second == after_first);
    assert(report_due(threshold, before_second, b, steps[second].now));
    if !change_reached(threshold, a, b) {
        lemma_floor_from_earlier(
            steps[first].now,
            after_first.last_report_time,
            steps[second].now,
        );
    }
}

/// The first evaluation of a policy reports when the time floor has passed
/// since its construction, or when the reading is at least the threshold
/// away from zero, the value that a new policy starts from.
pub proof fn law_first_evaluation_reports(threshold: nat, created: nat, smoothed: int, now: nat)
    requires
        floor_elapsed(created, now) || change_reached(threshold, 0, smoothed),
    ensures
        decision(threshold, initial_state(created), Some(smoothed), now) == Some(smoothed),
{
}

/// Evaluating again what was reported last hands out nothing and changes
/// nothing, as long as the time floor has not passed and the threshold is
/// not zero.
pub proof fn law_unchanged_value_is_silent(threshold: nat, state: ReportState, now: nat)
    requires
        threshold > 0,
        !floor_elapsed(state.last_report_time, now),
    ensures
        decision(threshold, state, Some(state.last_reported_value), now) is None,
        next_state(threshold, state, Some(state.last_reported_value), now) == state,
{
}

/// The report policy of one sensor.
pub struct ReportPolicy {
    threshold: u64,
    last_reading: i64,
    last_report: MonotonicTime,
}

impl ReportPolicy {
    /// Smallest change that forces a report, in millidegrees.
    pub closed spec fn threshold(&self) -> nat {
        self.threshold as nat
    }

    /// The last report, as the policy remembers it.
    pub closed spec fn state(&self) -> ReportState {
        ReportState {
            last_reported_value: self.last_reading as int,
            last_report_time: self.last_report@,
        }
    }

    /// A policy with the given threshold in millidegrees, made at `now`: no
    /// value reported yet, the time floor counted from `now`.
    pub fn new(threshold: u64, now: MonotonicTime) -> (p: ReportPolicy)
        ensures
            p.threshold() == threshold,
            p.state() == initial_state(now@),
    {
        ReportPolicy { threshold, last_reading: 0, last_report: now }
    }

    /// Smallest change that forces a report, in millidegrees.
    pub fn threshold_millis(&self) -> (t: u64)
        ensures
            t == self.threshold(),
    {
        self.threshold
    }

    /// The reading reported last, in tenths of a degree.
    pub fn last_reported_value(&self) -> (value: i64)
        ensures
            value == self.state().last_reported_value,
    {
        self.last_reading
    }

    /// When the last report was decided.
    pub fn last_report_time(&self) -> (time: MonotonicTime)
        ensures
            time@ == self.state().last_report_time,
    {
        self.last_report
    }

    /// Decides whether `smoothed` is reported at `now`, and records the
    /// report if it is.
    pub fn evaluate(&mut self, smoothed: Option<i64>, now: MonotonicTime) -> (out: Option<i64>)
        ensures
            final(self).threshold() == old(self).threshold(),
            as_int(out) == decision(old(self).threshold(), old(self).state(), as_int(smoothed), now@),
            final(self).state() == next_state(
                old(self).threshold(),
                old(self).state(),
                as_int(smoothed),
                now@,
            ),
    {
        let value = match smoothed {
            Some(value) => value,
            None => {
                return None;
            },
        };
        let last = self.last_reading;
        let moved: u128 = if last >= value {
            (last as i128 - value as i128) as u128
        } else {
            (value as i128 - last as i128) as u128
        };
        if now.whole_secs_since(self.last_report) >= REPORT_FLOOR_SECS as u128 || moved
            * MILLIS_PER_TENTH as u128 >= self.threshold as u128 {
            self.last_reading = value;
            self.last_report = now.latest(self.last_report);
            Some(value)
        } else {
            None
        }
    }
}

} // verus!
