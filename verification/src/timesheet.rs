use vstd::prelude::*;
use std::collections::VecDeque;
use crate::stamp::{Stamp, MAX_ABS_SECS, MAX_ABS_DAYS, spec_days_from_monday, days_from_monday};

verus! {

broadcast use vstd::std_specs::vecdeque::group_vec_dequeue_axioms;

/// Most actions a timesheet may hold; keeps every duration sum within `i64`.
pub const MAX_LEN: usize = 260_000;

/// One clock event: a clock-in or a clock-out at an instant.
#[derive(Clone, Copy, Debug, PartialEq, Eq, Structural)]
pub enum Action {
    In(Stamp),
    Out(Stamp),
}

impl Action {
    /// The instant the event was recorded at.
    pub open spec fn stamp(self) -> Stamp {
        match self {
            Action::In(t) => t,
            Action::Out(t) => t,
        }
    }
}

/// Aggregation window of a total-time query: the current calendar day, the
/// week begun on the most recent Monday, the current month, or the current
/// year.
#[derive(Clone, Copy, Debug)]
pub enum This {
    Day,
    Week,
    Month,
    Year,
}

/// The ordered log of clock actions.  Insertion order is the chronological
/// order of events; the log is append-only.
#[derive(Debug)]
pub struct Timesheet {
    pub clocks: VecDeque<Action>,
}

impl View for Timesheet {
    type V = Seq<Action>;

    open spec fn view(&self) -> Seq<Action> {
        self.clocks@
    }
}

impl Default for Timesheet {
    /// An empty timesheet.
    fn default() -> (r: Self)
        ensures
            r@ == Seq::<Action>::empty(),
    {
        Timesheet { clocks: VecDeque::new() }
    }
}

/// Bounds on a sequence of actions under which every duration sum fits `i64`.
pub open spec fn actions_wf(s: Seq<Action>) -> bool {
    &&& s.len() <= MAX_LEN
    &&& forall|i: int| 0 <= i < s.len() ==> (#[trigger] s[i]).stamp().wf()
}

/// State of the duration-pairing scan: the sum of all matched in/out pairs so
/// far, and the instant of the last still-unmatched clock-in, if any.
pub ghost struct Scan {
    pub total: int,
    pub pending: Option<int>,
}

/// One step of the pairing scan.  A clock-in becomes the pending one (an
/// earlier unmatched clock-in is silently discarded); a clock-out with a
/// pending clock-in contributes their difference and clears it; a clock-out
/// with none contributes nothing.
pub open spec fn scan_step(st: Scan, a: Action) -> Scan {
    match a {
        Action::In(t) => Scan { total: st.total, pending: Some(t.secs as int) },
        Action::Out(t) => match st.pending {
            Some(p) => Scan { total: st.total + t.secs - p, pending: None },
            None => st,
        },
    }
}

/// The pairing scan over a whole sequence of actions, in order.
pub open spec fn scan(s: Seq<Action>) -> Scan
    decreases s.len(),
{
    if s.len() == 0 {
        Scan { total: 0, pending: None }
    } else {
        scan_step(scan(s.drop_last()), s.last())
    }
}

/// The first day of the queried window: the current date itself, the most
/// recent Monday, the first of the current month, or the first of the current
/// year.
pub open spec fn window_start(worked: This, now: Stamp) -> int {
    match worked {
        This::Day => now.days as int,
        This::Week => now.days - spec_days_from_monday(now.days as int),
        This::Month => now.days - (now.day_of_month - 1),
        This::Year => now.days - (now.day_of_year - 1),
    }
}

/// Whether an action's local date falls inside the queried window.  The day
/// window is the current date alone; the others extend from their start
/// onward.
pub open spec fn in_window(a: Action, worked: This, now: Stamp) -> bool {
    match worked {
        This::Day => a.stamp().days == now.days,
        _ => a.stamp().days >= window_start(worked, now),
    }
}

/// The window filter as a function value, so that every contract names the
/// same predicate.
pub open spec fn win_pred(worked: This, now: Stamp) -> spec_fn(Action) -> bool {
    |a: Action| in_window(a, worked, now)
}

/// The filter that keeps actions whose local date lies in `lo ..= hi`.
pub open spec fn range_pred(lo: int, hi: int) -> spec_fn(Action) -> bool {
    |a: Action| lo <= a.stamp().days <= hi
}

/// Total worked time, in seconds, of the actions inside the window: the sum
/// of each clock-in paired with its immediately following clock-out.  A
/// trailing unmatched clock-in contributes nothing.
pub open spec fn total_time_spec(s: Seq<Action>, worked: This, now: Stamp) -> int {
    scan(s.filter(win_pred(worked, now))).total
}

/// Total worked time, in seconds, of the actions on one calendar day.
pub open spec fn day_total_spec(s: Seq<Action>, day: int) -> int {
    scan(s.filter(range_pred(day, day))).total
}

/// Worked time of the current day, in seconds, counting a still-open session
/// up to the present instant.
pub open spec fn running_time_spec(s: Seq<Action>, now: Stamp) -> int {
    let sc = scan(s.filter(win_pred(This::Day, now)));
    sc.total + match sc.pending {
        Some(p) => now.secs - p,
        None => 0,
    }
}

pub open spec fn opt_int(o: Option<i64>) -> Option<int> {
    match o {
        Some(v) => Some(v as int),
        None => None,
    }
}

/// Filtering cares only about a predicate's value on the sequence's own
/// elements.
proof fn lemma_filter_congruent(s: Seq<Action>, p: spec_fn(Action) -> bool, q: spec_fn(Action) -> bool)
    requires
        forall|i: int| 0 <= i < s.len() ==> p(#[trigger] s[i]) == q(s[i]),
    ensures
        s.filter(p) == s.filter(q),
    decreases s.len(),
{
    reveal(Seq::filter);
    if s.len() > 0 {
        assert(forall|i: int| 0 <= i < s.drop_last().len() ==> p(#[trigger] s.drop_last()[i]) == q(s.drop_last()[i]));
        lemma_filter_congruent(s.drop_last(), p, q);
        assert(p(s.last()) == q(s.last()));
    }
}

/// A timesheet of exactly one clock-in at `tin` followed by one clock-out at
/// `tout`, both inside the window, totals exactly their difference: eight
/// hours apart means eight hours worked.
pub proof fn lemma_single_pair_total(worked: This, now: Stamp, tin: Stamp, tout: Stamp)
    requires
        in_window(Action::In(tin), worked, now),
        in_window(Action::Out(tout), worked, now),
    ensures
        total_time_spec(seq![Action::In(tin), Action::Out(tout)], worked, now) == tout.secs
            - tin.secs,
{
    let s = seq![Action::In(tin), Action::Out(tout)];
    let p = win_pred(worked, now);
    reveal(Seq::filter);
    assert(s.drop_last() =~= seq![Action::In(tin)]);
    assert(seq![Action::In(tin)].drop_last() =~= Seq::<Action>::empty());
    assert(p(Action::In(tin)) && p(Action::Out(tout)));
    assert(s.filter(p) == seq![Action::In(tin)].filter(p).push(Action::Out(tout)));
    assert(seq![Action::In(tin)].filter(p) == Seq::<Action>::empty().filter(p).push(
        Action::In(tin),
    ));
    assert(s.filter(p) =~= s);
    assert(scan(Seq::<Action>::empty()) == (Scan { total: 0, pending: None }));
    assert(scan(seq![Action::In(tin)]) == scan_step(
        scan(seq![Action::In(tin)].drop_last()),
        Action::In(tin),
    ));
    assert(scan(seq![Action::In(tin)]) == (Scan { total: 0, pending: Some(tin.secs as int) }));
    assert(s.last() == Action::Out(tout));
    assert(scan(s) == scan_step(scan(s.drop_last()), Action::Out(tout)));
    assert(scan(s).total == tout.secs - tin.secs);
}

/// A timesheet holding a single unmatched clock-in from earlier today runs at
/// exactly the time elapsed from it to the present instant.
pub proof fn lemma_running_single_in(t: Stamp, now: Stamp)
    requires
        t.days == now.days,
    ensures
        running_time_spec(seq![Action::In(t)], now) == now.secs - t.secs,
{
    let s = seq![Action::In(t)];
    let p = win_pred(This::Day, now);
    reveal(Seq::filter);
    assert(s.drop_last() =~= Seq::<Action>::empty());
    assert(p(Action::In(t)));
    assert(s.filter(p) =~= s);
    assert(scan(Seq::<Action>::empty()) == (Scan { total: 0, pending: None }));
    assert(scan(s) == scan_step(scan(s.drop_last()), Action::In(t)));
    assert(scan(s) == (Scan { total: 0, pending: Some(t.secs as int) }));
}

/// With no actions recorded today, the running time is zero.
pub proof fn lemma_running_empty_day(s: Seq<Action>, now: Stamp)
    requires
        forall|i: int| 0 <= i < s.len() ==> (#[trigger] s[i]).stamp().days != now.days,
    ensures
        running_time_spec(s, now) == 0,
    decreases s.len(),
{
    let p = win_pred(This::Day, now);
    reveal(Seq::filter);
    if s.len() > 0 {
        assert(forall|i: int|
            0 <= i < s.drop_last().len() ==> (#[trigger] s.drop_last()[i]).stamp().days
                != now.days);
        lemma_running_empty_day(s.drop_last(), now);
        assert(!p(s.last()));
        assert(s.filter(p) == s.drop_last().filter(p));
    }
}

/// The pairing scan over the actions of `clocks` whose local date lies in
/// `lo ..= hi`, left to right: returns the paired total and the instant of a
/// trailing unmatched clock-in, if one is open.
fn scan_range(clocks: &VecDeque<Action>, lo: i64, hi: i64) -> (r: (i64, Option<i64>))
    requires
        actions_wf(clocks@),
    ensures
        ({
            let sc = scan(clocks@.filter(range_pred(lo as int, hi as int)));
            &&& r.0 as int == sc.total
            &&& opt_int(r.1) == sc.pending
            &&& -17_600_000_000_000 * clocks@.len() <= r.0 <= 17_600_000_000_000 * clocks@.len()
            &&& (r.1 matches Some(p) ==> -MAX_ABS_SECS <= p <= MAX_ABS_SECS)
        }),
{
    let ghost pred = range_pred(lo as int, hi as int);
    let mut total: i64 = 0;
    let mut pending: Option<i64> = None;
    let n = clocks.len();
    let mut i: usize = 0;
    while i < n
        invariant
            actions_wf(clocks@),
            n == clocks@.len(),
            0 <= i <= n,
            pred == range_pred(lo as int, hi as int),
            scan(clocks@.take(i as int).filter(pred)) == (Scan { total: total as int, pending: opt_int(pending) }),
            -17_600_000_000_000 * (i as int) <= total <= 17_600_000_000_000 * (i as int),
            pending matches Some(p) ==> -MAX_ABS_SECS <= p <= MAX_ABS_SECS,
        decreases n - i,
    {
        let a = clocks[i];
        proof {
            let s = clocks@;
            let prev = s.take(i as int).filter(pred);
            assert(s.take(i + 1).drop_last() =~= s.take(i as int));
            assert(s.take(i + 1).last() == s[i as int]);
            reveal(Seq::filter);
            if pred(s[i as int]) {
                assert(s.take(i + 1).filter(pred) == prev.push(s[i as int]));
                assert(prev.push(s[i as int]).drop_last() =~= prev);
                assert(scan(s.take(i + 1).filter(pred)) == scan_step(scan(prev), s[i as int]));
            } else {
                assert(s.take(i + 1).filter(pred) == prev);
            }
            assert(s[i as int].stamp().wf());
        }
        let day = match a {
            Action::In(t) => t.days,
            Action::Out(t) => t.days,
        };
        if lo <= day && day <= hi {
            match a {
                Action::In(t) => {
                    pending = Some(t.secs);
                }
                Action::Out(t) => {
                    match pending {
                        Some(p) => {
                            total = total + (t.secs - p);
                            pending = None;
                        }
                        None => {}
                    }
                }
            }
        }
        i = i + 1;
    }
    proof {
        assert(clocks@.take(n as int) =~= clocks@);
    }
    (total, pending)
}

impl Timesheet {
    /// See `actions_wf`.
    pub open spec fn wf(self) -> bool {
        actions_wf(self@)
    }

    /// The most recently appended action, if any.
    pub open spec fn last_action_spec(self) -> Option<Action> {
        if self@.len() == 0 {
            None
        } else {
            Some(self@.last())
        }
    }

    /// Total worked time, in seconds, inside the given window evaluated
    /// against the given current instant: each clock-in paired with its
    /// immediately following clock-out, a trailing open session excluded.
    pub fn total_time(&self, worked: &This, now: &Stamp) -> (r: i64)
        requires
            self.wf(),
            now.wf(),
        ensures
            r as int == total_time_spec(self@, *worked, *now),
            -17_600_000_000_000 * self@.len() <= r <= 17_600_000_000_000 * self@.len(),
    {
        let lo: i64 = match worked {
            This::Day => now.days,
            This::Week => now.days - days_from_monday(now.days),
            This::Month => now.days - (now.day_of_month - 1),
            This::Year => now.days - (now.day_of_year - 1),
        };
        let hi: i64 = match worked {
            This::Day => now.days,
            _ => MAX_ABS_DAYS,
        };
        proof {
            assert(forall|i: int| 0 <= i < self@.len() ==> #[trigger] win_pred(*worked, *now)(self@[i]) == range_pred(lo as int, hi as int)(self@[i])) by {
                assert(forall|i: int| 0 <= i < self@.len() ==> (#[trigger] self@[i]).stamp().wf());
            }
            lemma_filter_congruent(self@, win_pred(*worked, *now), range_pred(lo as int, hi as int));
        }
        let (total, _) = scan_range(&self.clocks, lo, hi);
        total
    }

    /// Appends a clock-in.  No validation happens at this layer.
    pub fn clock_in(&mut self, when: Stamp)
        ensures
            final(self)@ == old(self)@.push(Action::In(when)),
    {
        self.clocks.push_back(Action::In(when));
    }

    /// Appends a clock-out.  No validation happens at this layer.
    pub fn clock_out(&mut self, when: Stamp)
        ensures
            final(self)@ == old(self)@.push(Action::Out(when)),
    {
        self.clocks.push_back(Action::Out(when));
    }

    /// The most recently appended action, or none if the log is empty.
    pub fn last_action(&self) -> (r: Option<Action>)
        ensures
            r == self.last_action_spec(),
    {
        let n = self.clocks.len();
        if n == 0 {
            None
        } else {
            Some(self.clocks[n - 1])
        }
    }

    /// Worked time of the current day, in seconds: the paired total of
    /// today's actions, plus the still-open session (from its clock-in up to
    /// `now`) if one remains.  Always some duration, zero when the day is
    /// empty.
    pub fn running_time(&self, now: &Stamp) -> (r: Option<i64>)
        requires
            self.wf(),
            now.wf(),
        ensures
            r matches Some(v) && v as int == running_time_spec(self@, *now)
                && -17_600_000_000_000 * (self@.len() + 1) <= v <= 17_600_000_000_000 * (self@.len()
                + 1),
    {
        proof {
            assert(forall|i: int| 0 <= i < self@.len() ==> #[trigger] win_pred(This::Day, *now)(self@[i]) == range_pred(now.days as int, now.days as int)(self@[i]));
            lemma_filter_congruent(self@, win_pred(This::Day, *now), range_pred(now.days as int, now.days as int));
        }
        let (total, pending) = scan_range(&self.clocks, now.days, now.days);
        match pending {
            Some(p) => Some(total + (now.secs - p)),
            None => Some(total),
        }
    }

    /// The paired worked total, in seconds, of the actions on one calendar
    /// day.
    pub fn day_total(&self, day: i64) -> (r: i64)
        requires
            self.wf(),
        ensures
            r as int == day_total_spec(self@, day as int),
            -17_600_000_000_000 * self@.len() <= r <= 17_600_000_000_000 * self@.len(),
    {
        let (total, _) = scan_range(&self.clocks, day, day);
        total
    }
}

} // verus!

