//! The moving average over the most recent readings of one sensor.

use std::collections::VecDeque;
use vstd::prelude::*;
use crate::rounding::as_int;
use crate::rounding::lemma_round_of_multiple;
use crate::rounding::lemma_round_within;
use crate::rounding::round_div;
use crate::rounding::round_half_away;
use crate::rounding::tenths_of;
use crate::rounding::to_tenths;

verus! {

/// Sum of the readings in a window.
pub open spec fn sum(window: Seq<int>) -> int
    decreases window.len(),
{
    if window.len() == 0 {
        0
    } else {
        sum(window.drop_last()) + window.last()
    }
}

/// Arithmetic mean of a window of readings in tenths of a degree, rounded to
/// a tenth. Meant for a window that is not empty.
pub open spec fn mean(window: Seq<int>) -> int {
    round_half_away(sum(window), window.len() as int)
}

/// The last `size` items of `history`, or all of it where it has fewer.
pub open spec fn most_recent(size: nat, history: Seq<int>) -> Seq<int> {
    if history.len() > size {
        history.subrange(history.len() - size, history.len() as int)
    } else {
        history
    }
}

/// The window after `reading` has come in: the reading is appended, and the
/// oldest entry leaves where the window would outgrow `size`.
pub open spec fn slide(size: nat, window: Seq<int>, reading: int) -> Seq<int> {
    most_recent(size, window.push(reading))
}

/// What the smoother hands out for a window: nothing until the window is
/// full, then its rounded mean.
pub open spec fn smoothed(size: nat, window: Seq<int>) -> Option<int> {
    if window.len() < size {
        None
    } else {
        Some(mean(window))
    }
}

/// Raw readings in millidegrees, each rounded to tenths of a degree.
pub open spec fn rounded(raws: Seq<int>) -> Seq<int> {
    Seq::new(raws.len(), |i: int| tenths_of(raws[i]))
}

/// The window after the raw readings `raws` have been pushed in order,
/// starting from `window`.
pub open spec fn feed(size: nat, window: Seq<int>, raws: Seq<int>) -> Seq<int>
    decreases raws.len(),
{
    if raws.len() == 0 {
        window
    } else {
        slide(size, feed(size, window, raws.drop_last()), tenths_of(raws.last()))
    }
}

/// The readings of a queue as mathematical integers.
pub open spec fn as_ints(readings: Seq<i64>) -> Seq<int> {
    Seq::new(readings.len(), |i: int| readings[i] as int)
}

/// A window never holds more than `size` readings once it has been fed, and
/// it holds the most recent ones: feeding equals appending all the rounded
/// readings and keeping the last `size`.
pub proof fn lemma_feed_keeps_most_recent(size: nat, window: Seq<int>, raws: Seq<int>)
    requires
        window.len() <= size,
    ensures
        feed(size, window, raws) == most_recent(size, window + rounded(raws)),
        feed(size, window, raws).len() <= size,
    decreases raws.len(),
{
    if raws.len() == 0 {
        assert(window + rounded(raws) =~= window);
    } else {
        let earlier = raws.drop_last();
        lemma_feed_keeps_most_recent(size, window, earlier);
        let before = window + rounded(earlier);
        let all = window + rounded(raws);
        assert(all =~= before.push(tenths_of(raws.last())));
        assert(feed(size, window, raws) =~= most_recent(size, all));
    }
}

/// The sum of a window in which every reading is `value`.
pub proof fn lemma_sum_of_constant(window: Seq<int>, value: int)
    requires
        forall|i: int| 0 <= i < window.len() ==> window[i] == value,
    ensures
        sum(window) == value * window.len(),
    decreases window.len(),
{
    if window.len() > 0 {
        lemma_sum_of_constant(window.drop_last(), value);
        assert(value * window.len() == value * (window.len() - 1) + value)
            by (nonlinear_arith);
    }
}

/// No premature averaging: while fewer readings have come in than the window
/// takes, a smoother that started empty hands out nothing, whatever the
/// readings are. `count` is the number of readings pushed so far, the last
/// one included.
pub proof fn law_short_history_is_silent(size: nat, raws: Seq<int>, count: int)
    requires
        raws.len() < size,
        0 <= count <= raws.len(),
    ensures
        smoothed(size, feed(size, Seq::empty(), raws.take(count))) is None,
{
    let pushed = raws.take(count);
    lemma_feed_keeps_most_recent(size, Seq::empty(), pushed);
    assert(Seq::<int>::empty() + rounded(pushed) =~= rounded(pushed));
}

/// A constant reading settles: once the raw reading `raw` has come in `size`
/// times or more in a row, the smoother hands out exactly `raw` rounded to a
/// tenth, whatever the window held before.
pub proof fn law_constant_input_settles(size: nat, window: Seq<int>, raw: int, times: nat)
    requires
        size >= 1,
        window.len() <= size,
        times >= size,
    ensures
        smoothed(size, feed(size, window, Seq::new(times, |i: int| raw))) == Some(
            tenths_of(raw),
        ),
{
    let raws = Seq::new(times, |i: int| raw);
    lemma_feed_keeps_most_recent(size, window, raws);
    let settled = feed(size, window, raws);
    let history = window + rounded(raws);
    assert(settled.len() == size);
    assert forall|i: int| 0 <= i < settled.len() implies settled[i] == tenths_of(raw) by {
        assert(settled[i] == history[history.len() - size + i]);
    }
    lemma_sum_of_constant(settled, tenths_of(raw));
    lemma_round_of_multiple(tenths_of(raw), size as int);
}

/// No smoothing requested: with a window of one, every push hands out the
/// raw reading rounded to a tenth.
pub proof fn law_window_of_one_passes_through(window: Seq<int>, raw: int)
    requires
        window.len() <= 1,
    ensures
        smoothed(1, slide(1, window, tenths_of(raw))) == Some(tenths_of(raw)),
{
    let after = slide(1, window, tenths_of(raw));
    assert(after =~= seq![tenths_of(raw)]);
    lemma_sum_of_constant(after, tenths_of(raw));
    lemma_round_of_multiple(tenths_of(raw), 1);
}

/// The moving-average window of one sensor.
pub struct Smoother {
    window_size: usize,
    readings: VecDeque<i64>,
}

impl Smoother {
    #[verifier::type_invariant]
    spec fn well_formed(self) -> bool {
        self.window_size >= 1 && self.readings@.len() <= self.window_size
    }

    /// Number of readings that the window takes.
    pub closed spec fn size(&self) -> nat {
        self.window_size as nat
    }

    /// The readings in the window, oldest first, in tenths of a degree.
    pub closed spec fn window(&self) -> Seq<int> {
        as_ints(self.readings@)
    }

    /// An empty window for `window_size` readings; a size of zero counts as
    /// one.
    pub fn new(window_size: usize) -> (s: Smoother)
        ensures
            s.size() == if window_size == 0 { 1 } else { window_size as nat },
            s.window() == Seq::<int>::empty(),
    {
        let s = Smoother {
            window_size: if window_size == 0 { 1 } else { window_size },
            readings: VecDeque::new(),
        };
        assert(s.window() =~= Seq::<int>::empty());
        s
    }

    /// Number of readings that the window takes.
    pub fn window_size(&self) -> (n: usize)
        ensures
            n == self.size(),
            n >= 1,
    {
        proof {
            use_type_invariant(self);
        }
        self.window_size
    }

    /// Number of readings in the window.
    pub fn len(&self) -> (n: usize)
        ensures
            n == self.window().len(),
            n <= self.size(),
    {
        proof {
            use_type_invariant(self);
        }
        self.readings.len()
    }

    /// Takes a raw reading in millidegrees: rounds it to a tenth of a degree,
    /// appends it to the window and drops the oldest reading where the window
    /// was full. Hands out the rounded mean of the window once it is full.
    pub fn push(&mut self, raw: i64) -> (out: Option<i64>)
        ensures
            final(self).size() == old(self).size(),
            final(self).window() == slide(
                old(self).size(),
                old(self).window(),
                tenths_of(raw as int),
            ),
            as_int(out) == smoothed(final(self).size(), final(self).window()),
    {
        proof {
            use_type_invariant(&*self);
        }
        let reading = to_tenths(raw);
        // The queue is worked on outside the smoother, which holds an empty
        // one meanwhile.
        let mut readings: VecDeque<i64> = VecDeque::new();
        core::mem::swap(&mut self.readings, &mut readings);
        if readings.len() == self.window_size {
            let _ = readings.pop_front();
        }
        readings.push_back(reading);
        core::mem::swap(&mut self.readings, &mut readings);
        assert(self.window() =~= slide(
            old(self).size(),
            old(self).window(),
            tenths_of(raw as int),
        ));
        if self.readings.len() < self.window_size {
            return None;
        }
        let ghost window = self.window();
        let count = self.readings.len();
        let mut total: i128 = 0;
        let mut i: usize = 0;
        while i < count
            invariant
                i <= count,
                count == self.readings@.len(),
                window == as_ints(self.readings@),
                total == sum(window.take(i as int)),
                i * i64::MIN <= total <= i * i64::MAX,
            decreases count - i,
        {
            let reading = self.readings[i];
            assert(window.take(i + 1).drop_last() =~= window.take(i as int));
            total = total + reading as i128;
            i = i + 1;
        }
        assert(window.take(count as int) =~= window);
        let average = round_div(total, count as u64);
        proof {
            lemma_round_within(total as int, count as int, i64::MIN as int, i64::MAX as int);
        }
        Some(average as i64)
    }
}

} // verus!
