//! The time-stepping reconciliation engine: given the last minute for
//! which every due job was dispatched (virtual time) and the minute the
//! loop woke at, classify the drift into one of five regimes and decide
//! which entries to dispatch for which minutes, without double-firing
//! and without silently dropping due jobs.

use crate::calendar::spec_time_fields;
use crate::calendar::time_fields_of_minute;
use crate::crontab::Crontab;
use crate::crontab::Entry;
use crate::schedule::spec_when_matches;
use crate::schedule::spec_wildcard_eligible;
use crate::schedule::when_matches;
use crate::schedule::wildcard_eligible;
use crate::schedule::Schedule;
use vstd::prelude::*;

verus! {

/// Catch-up of a late wake-up covers at most this many minutes; a
/// larger gap is a clock jump. A policy constant, not derived.
pub const SMALL_JUMP_LIMIT: u64 = 5;

/// A backward clock move smaller than three of these is ridden out
/// without touching virtual time. A policy constant, not derived.
pub const MINUTE_COUNT_PER_HOUR: u64 = 60;

/// A request to run one entry for one minute.
#[derive(Debug, Clone, Copy, PartialEq, Eq, Structural)]
pub struct Dispatch {
    pub entry: usize,
    pub minute: u64,
}

/// An entry is due at minute `t` under the given activation of the
/// wildcard-eligible and fixed-time classes. Startup-only entries are
/// never due on a tick.
pub open spec fn spec_entry_due(e: Entry, t: u64, do_wild: bool, do_fixed: bool) -> bool {
    match e.schedule {
        Schedule::Reboot => false,
        Schedule::When(w) => spec_when_matches(w, spec_time_fields(t as int)) && (
        if spec_wildcard_eligible(w) {
            do_wild
        } else {
            do_fixed
        }),
    }
}

/// The dispatches for minute `t`: one per due entry, in document order.
pub open spec fn spec_due_dispatches(
    entries: Seq<Entry>,
    t: u64,
    do_wild: bool,
    do_fixed: bool,
) -> Seq<Dispatch>
    decreases entries.len(),
{
    if entries.len() == 0 {
        Seq::empty()
    } else {
        spec_due_dispatches(entries.drop_last(), t, do_wild, do_fixed) + (if spec_entry_due(
            entries.last(),
            t,
            do_wild,
            do_fixed,
        ) {
            seq![Dispatch { entry: (entries.len() - 1) as usize, minute: t }]
        } else {
            Seq::empty()
        })
    }
}

/// The startup dispatches: one per `@reboot` entry, in document order,
/// stamped with the startup minute.
pub open spec fn spec_reboot_dispatches(entries: Seq<Entry>, t: u64) -> Seq<Dispatch>
    decreases entries.len(),
{
    if entries.len() == 0 {
        Seq::empty()
    } else {
        spec_reboot_dispatches(entries.drop_last(), t) + (if entries.last().schedule
            is Reboot {
            seq![Dispatch { entry: (entries.len() - 1) as usize, minute: t }]
        } else {
            Seq::empty()
        })
    }
}

/// Both classes dispatched for every minute of `[lo, hi]`, in minute
/// order.
pub open spec fn spec_catch_up_all(entries: Seq<Entry>, lo: int, hi: int) -> Seq<Dispatch>
    decreases hi + 1 - lo,
{
    if lo > hi {
        Seq::empty()
    } else {
        spec_due_dispatches(entries, lo as u64, true, true) + spec_catch_up_all(
            entries,
            lo + 1,
            hi,
        )
    }
}

/// Only fixed-time entries dispatched for every minute of `[lo, hi]`,
/// in minute order.
pub open spec fn spec_catch_up_fixed(entries: Seq<Entry>, lo: int, hi: int) -> Seq<Dispatch>
    decreases hi + 1 - lo,
{
    if lo > hi {
        Seq::empty()
    } else {
        spec_due_dispatches(entries, lo as u64, false, true) + spec_catch_up_fixed(
            entries,
            lo + 1,
            hi,
        )
    }
}

/// The reconciliation state: `virtual_time` is the last minute for
/// which all due jobs have been dispatched, `time_running` the minute
/// the loop last woke at.
#[derive(Debug, Clone, Copy, PartialEq, Eq, Structural)]
pub struct Scheduler {
    pub virtual_time: u64,
    pub time_running: u64,
}

/// One wake cycle at minute `now`: the five-way classification of
/// `now - virtual_time`, the new state, and the dispatches in order.
///
/// - exactly one minute on: dispatch everything due for `now`;
/// - woke up a few minutes late: dispatch everything due for each
///   missed minute in turn;
/// - a large forward jump: run wildcard-eligible entries once for
///   `now`, then catch fixed-time entries up minute by minute;
/// - a small or medium backward move: run wildcard-eligible entries
///   once for `now` and leave virtual time alone (fixed-time entries
///   already ran before the clock went back);
/// - a drastic backward jump: discard the unreachable history, set
///   virtual time to `now` and run everything due once.
pub open spec fn spec_wake(st: Scheduler, now: u64, entries: Seq<Entry>) -> (
    Scheduler,
    Seq<Dispatch>,
) {
    let diff = now as int - st.virtual_time as int;
    if diff == 1 {
        (
            Scheduler { virtual_time: now, time_running: now },
            spec_due_dispatches(entries, now, true, true),
        )
    } else if 0 < diff && diff <= SMALL_JUMP_LIMIT as int {
        (
            Scheduler { virtual_time: now, time_running: now },
            spec_catch_up_all(entries, st.virtual_time as int + 1, now as int),
        )
    } else if diff > SMALL_JUMP_LIMIT as int {
        (
            Scheduler { virtual_time: now, time_running: now },
            spec_due_dispatches(entries, now, true, false) + spec_catch_up_fixed(
                entries,
                st.virtual_time as int + 1,
                now as int,
            ),
        )
    } else if diff > -3 * (MINUTE_COUNT_PER_HOUR as int) {
        (
            Scheduler { virtual_time: st.virtual_time, time_running: now },
            spec_due_dispatches(entries, now, true, false),
        )
    } else {
        (
            Scheduler { virtual_time: now, time_running: now },
            spec_due_dispatches(entries, now, true, true),
        )
    }
}

/// How many dispatches in `ds` name entry `i`.
pub open spec fn count_entry(ds: Seq<Dispatch>, i: int) -> int
    decreases ds.len(),
{
    if ds.len() == 0 {
        0
    } else {
        count_entry(ds.drop_last(), i) + if ds.last().entry == i {
            1int
        } else {
            0int
        }
    }
}

pub proof fn lemma_count_entry_concat(a: Seq<Dispatch>, b: Seq<Dispatch>, i: int)
    ensures
        count_entry(a + b, i) == count_entry(a, i) + count_entry(b, i),
    decreases b.len(),
{
    if b.len() == 0 {
        assert(a + b =~= a);
    } else {
        assert((a + b).drop_last() =~= a + b.drop_last());
        lemma_count_entry_concat(a, b.drop_last(), i);
    }
}

/// The dispatches for one minute name each due entry exactly once, and
/// no other.
pub proof fn lemma_due_dispatches_count(
    entries: Seq<Entry>,
    t: u64,
    do_wild: bool,
    do_fixed: bool,
    i: int,
)
    requires
        entries.len() <= usize::MAX,
    ensures
        count_entry(spec_due_dispatches(entries, t, do_wild, do_fixed), i) == if 0 <= i
            < entries.len() && spec_entry_due(entries[i], t, do_wild, do_fixed) {
            1int
        } else {
            0int
        },
    decreases entries.len(),
{
    if entries.len() > 0 {
        let pre = spec_due_dispatches(entries.drop_last(), t, do_wild, do_fixed);
        lemma_due_dispatches_count(entries.drop_last(), t, do_wild, do_fixed, i);
        let tail: Seq<Dispatch> = if spec_entry_due(entries.last(), t, do_wild, do_fixed) {
            seq![Dispatch { entry: (entries.len() - 1) as usize, minute: t }]
        } else {
            Seq::empty()
        };
        lemma_count_entry_concat(pre, tail, i);
        if tail.len() == 1 {
            assert(tail.drop_last() =~= Seq::<Dispatch>::empty());
            assert(count_entry(tail, i) == if i == entries.len() - 1 {
                1int
            } else {
                0int
            }) by {
                reveal_with_fuel(count_entry, 3);
            }
        } else {
            assert(count_entry(tail, i) == 0);
        }
        if 0 <= i < entries.len() - 1 {
            assert(entries.drop_last()[i] == entries[i]);
        }
        assert(entries.last() == entries[entries.len() - 1]);
    }
}

/// The startup dispatches name each `@reboot` entry exactly once, and
/// no other.
pub proof fn lemma_reboot_dispatches_count(entries: Seq<Entry>, t: u64, i: int)
    requires
        entries.len() <= usize::MAX,
    ensures
        count_entry(spec_reboot_dispatches(entries, t), i) == if 0 <= i < entries.len()
            && entries[i].schedule is Reboot {
            1int
        } else {
            0int
        },
    decreases entries.len(),
{
    if entries.len() > 0 {
        let pre = spec_reboot_dispatches(entries.drop_last(), t);
        lemma_reboot_dispatches_count(entries.drop_last(), t, i);
        let tail: Seq<Dispatch> = if entries.last().schedule is Reboot {
            seq![Dispatch { entry: (entries.len() - 1) as usize, minute: t }]
        } else {
            Seq::empty()
        };
        lemma_count_entry_concat(pre, tail, i);
        if tail.len() == 1 {
            assert(tail.drop_last() =~= Seq::<Dispatch>::empty());
            assert(count_entry(tail, i) == if i == entries.len() - 1 {
                1int
            } else {
                0int
            }) by {
                reveal_with_fuel(count_entry, 3);
            }
        } else {
            assert(count_entry(tail, i) == 0);
        }
        if 0 <= i < entries.len() - 1 {
            assert(entries.drop_last()[i] == entries[i]);
        }
        assert(entries.last() == entries[entries.len() - 1]);
    }
}

proof fn lemma_catch_up_all_reboot_zero(entries: Seq<Entry>, lo: int, hi: int, i: int)
    requires
        entries.len() <= usize::MAX,
        0 <= i < entries.len(),
        entries[i].schedule is Reboot,
    ensures
        count_entry(spec_catch_up_all(entries, lo, hi), i) == 0,
    decreases hi + 1 - lo,
{
    if lo <= hi {
        lemma_due_dispatches_count(entries, lo as u64, true, true, i);
        lemma_catch_up_all_reboot_zero(entries, lo + 1, hi, i);
        lemma_count_entry_concat(
            spec_due_dispatches(entries, lo as u64, true, true),
            spec_catch_up_all(entries, lo + 1, hi),
            i,
        );
    }
}

proof fn lemma_catch_up_fixed_reboot_zero(entries: Seq<Entry>, lo: int, hi: int, i: int)
    requires
        entries.len() <= usize::MAX,
        0 <= i < entries.len(),
        entries[i].schedule is Reboot,
    ensures
        count_entry(spec_catch_up_fixed(entries, lo, hi), i) == 0,
    decreases hi + 1 - lo,
{
    if lo <= hi {
        lemma_due_dispatches_count(entries, lo as u64, false, true, i);
        lemma_catch_up_fixed_reboot_zero(entries, lo + 1, hi, i);
        lemma_count_entry_concat(
            spec_due_dispatches(entries, lo as u64, false, true),
            spec_catch_up_fixed(entries, lo + 1, hi),
            i,
        );
    }
}

/// How many times the exact request `d` occurs in `ds`.
pub open spec fn count_dispatch(ds: Seq<Dispatch>, d: Dispatch) -> int
    decreases ds.len(),
{
    if ds.len() == 0 {
        0
    } else {
        count_dispatch(ds.drop_last(), d) + if ds.last() == d {
            1int
        } else {
            0int
        }
    }
}

pub proof fn lemma_count_dispatch_concat(a: Seq<Dispatch>, b: Seq<Dispatch>, d: Dispatch)
    ensures
        count_dispatch(a + b, d) == count_dispatch(a, d) + count_dispatch(b, d),
    decreases b.len(),
{
    if b.len() == 0 {
        assert(a + b =~= a);
    } else {
        assert((a + b).drop_last() =~= a + b.drop_last());
        lemma_count_dispatch_concat(a, b.drop_last(), d);
    }
}

/// The dispatches for one minute carry that minute, and one request per
/// due entry.
pub proof fn lemma_due_dispatches_exact(
    entries: Seq<Entry>,
    t: u64,
    do_wild: bool,
    do_fixed: bool,
    d: Dispatch,
)
    requires
        entries.len() <= usize::MAX,
    ensures
        count_dispatch(spec_due_dispatches(entries, t, do_wild, do_fixed), d) == if d.minute == t
            && d.entry < entries.len() && spec_entry_due(
            entries[d.entry as int],
            t,
            do_wild,
            do_fixed,
        ) {
            1int
        } else {
            0int
        },
    decreases entries.len(),
{
    if entries.len() > 0 {
        let pre = spec_due_dispatches(entries.drop_last(), t, do_wild, do_fixed);
        lemma_due_dispatches_exact(entries.drop_last(), t, do_wild, do_fixed, d);
        let tail: Seq<Dispatch> = if spec_entry_due(entries.last(), t, do_wild, do_fixed) {
            seq![Dispatch { entry: (entries.len() - 1) as usize, minute: t }]
        } else {
            Seq::empty()
        };
        lemma_count_dispatch_concat(pre, tail, d);
        if tail.len() == 1 {
            assert(tail.drop_last() =~= Seq::<Dispatch>::empty());
            assert(count_dispatch(tail, d) == if d == (Dispatch {
                entry: (entries.len() - 1) as usize,
                minute: t,
            }) {
                1int
            } else {
                0int
            }) by {
                reveal_with_fuel(count_dispatch, 3);
            }
        } else {
            assert(count_dispatch(tail, d) == 0);
        }
        if d.entry < entries.len() - 1 {
            assert(entries.drop_last()[d.entry as int] == entries[d.entry as int]);
        }
        assert(entries.last() == entries[entries.len() - 1]);
    }
}

proof fn lemma_catch_up_all_exact(entries: Seq<Entry>, lo: int, hi: int, d: Dispatch)
    requires
        entries.len() <= usize::MAX,
        0 <= lo,
        hi <= u64::MAX,
    ensures
        count_dispatch(spec_catch_up_all(entries, lo, hi), d) == if lo <= d.minute <= hi
            && d.entry < entries.len() && spec_entry_due(
            entries[d.entry as int],
            d.minute,
            true,
            true,
        ) {
            1int
        } else {
            0int
        },
    decreases hi + 1 - lo,
{
    if lo <= hi {
        lemma_due_dispatches_exact(entries, lo as u64, true, true, d);
        lemma_catch_up_all_exact(entries, lo + 1, hi, d);
        lemma_count_dispatch_concat(
            spec_due_dispatches(entries, lo as u64, true, true),
            spec_catch_up_all(entries, lo + 1, hi),
            d,
        );
    }
}

/// No double-firing and no dropped minute on a late wake-up: when the
/// clock is ahead of virtual time by no more than the catch-up limit,
/// one wake dispatches each entry exactly once for each missed minute
/// its pattern matches, and nothing else.
pub proof fn lemma_catch_up_once_per_due_minute(
    st: Scheduler,
    now: u64,
    entries: Seq<Entry>,
    d: Dispatch,
)
    requires
        entries.len() <= usize::MAX,
        st.virtual_time < now <= st.virtual_time + SMALL_JUMP_LIMIT,
    ensures
        spec_wake(st, now, entries).0.virtual_time == now,
        count_dispatch(spec_wake(st, now, entries).1, d) == if st.virtual_time < d.minute <= now
            && d.entry < entries.len() && spec_entry_due(
            entries[d.entry as int],
            d.minute,
            true,
            true,
        ) {
            1int
        } else {
            0int
        },
{
    lemma_due_dispatches_exact(entries, now, true, true, d);
    lemma_catch_up_all_exact(entries, st.virtual_time as int + 1, now as int, d);
}

/// No wake cycle, whatever the drift regime, ever dispatches an
/// `@reboot` entry.
pub proof fn lemma_wake_never_dispatches_reboot(
    st: Scheduler,
    now: u64,
    entries: Seq<Entry>,
    i: int,
)
    requires
        entries.len() <= usize::MAX,
        0 <= i < entries.len(),
        entries[i].schedule is Reboot,
    ensures
        count_entry(spec_wake(st, now, entries).1, i) == 0,
{
    lemma_due_dispatches_count(entries, now, true, true, i);
    lemma_due_dispatches_count(entries, now, true, false, i);
    lemma_catch_up_all_reboot_zero(entries, st.virtual_time as int + 1, now as int, i);
    lemma_catch_up_fixed_reboot_zero(entries, st.virtual_time as int + 1, now as int, i);
    lemma_count_entry_concat(
        spec_due_dispatches(entries, now, true, false),
        spec_catch_up_fixed(entries, st.virtual_time as int + 1, now as int),
        i,
    );
}

/// Everything an arbitrary-length run of the loop dispatches after
/// startup: each wake's dispatches in turn, each from the state the
/// previous wake left.
pub open spec fn spec_run_wakes(st: Scheduler, nows: Seq<u64>, entries: Seq<Entry>) -> Seq<
    Dispatch,
>
    decreases nows.len(),
{
    if nows.len() == 0 {
        Seq::empty()
    } else {
        spec_wake(st, nows[0], entries).1 + spec_run_wakes(
            spec_wake(st, nows[0], entries).0,
            nows.drop_first(),
            entries,
        )
    }
}

/// A whole run of the daemon: the startup dispatches for the `@reboot`
/// class, then an arbitrary-length sequence of wake cycles.
pub open spec fn spec_run(entries: Seq<Entry>, start: u64, nows: Seq<u64>) -> Seq<Dispatch> {
    spec_reboot_dispatches(entries, start) + spec_run_wakes(
        Scheduler { virtual_time: start, time_running: start },
        nows,
        entries,
    )
}

proof fn lemma_run_wakes_never_reboot(st: Scheduler, nows: Seq<u64>, entries: Seq<Entry>, i: int)
    requires
        entries.len() <= usize::MAX,
        0 <= i < entries.len(),
        entries[i].schedule is Reboot,
    ensures
        count_entry(spec_run_wakes(st, nows, entries), i) == 0,
    decreases nows.len(),
{
    if nows.len() > 0 {
        lemma_wake_never_dispatches_reboot(st, nows[0], entries, i);
        lemma_run_wakes_never_reboot(spec_wake(st, nows[0], entries).0, nows.drop_first(), entries, i);
        lemma_count_entry_concat(
            spec_wake(st, nows[0], entries).1,
            spec_run_wakes(spec_wake(st, nows[0], entries).0, nows.drop_first(), entries),
            i,
        );
    }
}

/// An `@reboot` entry is dispatched exactly once across any run of the
/// loop, however long and however the clock moved: once at startup, and
/// never on a periodic tick.
pub proof fn lemma_reboot_fires_exactly_once(
    entries: Seq<Entry>,
    start: u64,
    nows: Seq<u64>,
    i: int,
)
    requires
        entries.len() <= usize::MAX,
        0 <= i < entries.len(),
        entries[i].schedule is Reboot,
    ensures
        count_entry(spec_run(entries, start, nows), i) == 1,
{
    lemma_reboot_dispatches_count(entries, start, i);
    lemma_run_wakes_never_reboot(
        Scheduler { virtual_time: start, time_running: start },
        nows,
        entries,
        i,
    );
    lemma_count_entry_concat(
        spec_reboot_dispatches(entries, start),
        spec_run_wakes(Scheduler { virtual_time: start, time_running: start }, nows, entries),
        i,
    );
}

/// The common tick: when the clock has moved exactly one minute past
/// virtual time, virtual time advances to it, and every entry whose
/// pattern matches that minute — wildcard-eligible or fixed-time — is
/// dispatched exactly once; nothing else is dispatched.
pub proof fn lemma_tick_dispatches_each_match_once(
    st: Scheduler,
    now: u64,
    entries: Seq<Entry>,
    i: int,
)
    requires
        entries.len() <= usize::MAX,
        now == st.virtual_time + 1,
        0 <= i < entries.len(),
    ensures
        spec_wake(st, now, entries).0.virtual_time == now,
        spec_wake(st, now, entries).0.time_running == now,
        count_entry(spec_wake(st, now, entries).1, i) == if spec_entry_due(
            entries[i],
            now,
            true,
            true,
        ) {
            1int
        } else {
            0int
        },
{
    lemma_due_dispatches_count(entries, now, true, true, i);
}

/// A small or medium backward clock move: virtual time stays where it
/// was, no fixed-time entry is replayed, and each matching
/// wildcard-eligible entry is dispatched exactly once for the minute
/// the clock reads now.
pub proof fn lemma_backward_jump_wildcards_only(
    st: Scheduler,
    now: u64,
    entries: Seq<Entry>,
    i: int,
)
    requires
        entries.len() <= usize::MAX,
        now <= st.virtual_time,
        st.virtual_time as int - (now as int) < 3 * (MINUTE_COUNT_PER_HOUR as int),
        0 <= i < entries.len(),
    ensures
        spec_wake(st, now, entries).0.virtual_time == st.virtual_time,
        spec_wake(st, now, entries).0.time_running == now,
        count_entry(spec_wake(st, now, entries).1, i) == if spec_entry_due(
            entries[i],
            now,
            true,
            false,
        ) {
            1int
        } else {
            0int
        },
{
    lemma_due_dispatches_count(entries, now, true, false, i);
}

/// The entries due at minute `t`, as dispatch requests in document
/// order.
pub fn find_jobs(tab: &Crontab, t: u64, do_wild: bool, do_fixed: bool) -> (ds: Vec<Dispatch>)
    ensures
        ds@ == spec_due_dispatches(tab.entries@, t, do_wild, do_fixed),
{
    let tf = time_fields_of_minute(t);
    let mut ds: Vec<Dispatch> = Vec::new();
    let n = tab.entries.len();
    let mut i: usize = 0;
    proof {
        assert(tab.entries@.take(0) =~= Seq::<Entry>::empty());
    }
    #[verifier::loop_isolation(false)]
    while i < n
        invariant
            i <= n,
            ds@ == spec_due_dispatches(tab.entries@.take(i as int), t, do_wild, do_fixed),
        decreases n - i,
    {
        proof {
            assert(tab.entries@.take(i as int + 1).drop_last() =~= tab.entries@.take(i as int));
            assert(tab.entries@.take(i as int + 1).last() == tab.entries@[i as int]);
        }
        let due = match &tab.entries[i].schedule {
            Schedule::Reboot => false,
            Schedule::When(w) => {
                if when_matches(w, &tf) {
                    if wildcard_eligible(w) {
                        do_wild
                    } else {
                        do_fixed
                    }
                } else {
                    false
                }
            },
        };
        if due {
            ds.push(Dispatch { entry: i, minute: t });
        }
        i = i + 1;
    }
    proof {
        assert(tab.entries@.take(n as int) =~= tab.entries@);
    }
    ds
}

impl Crontab {
    /// The dispatches owed once at daemon startup: every `@reboot`
    /// entry, exactly once, stamped with the startup minute. Never part
    /// of any periodic tick.
    pub fn run_reboot_jobs(&self, now: u64) -> (ds: Vec<Dispatch>)
        ensures
            ds@ == spec_reboot_dispatches(self.entries@, now),
    {
        let mut ds: Vec<Dispatch> = Vec::new();
        let n = self.entries.len();
        let mut i: usize = 0;
        proof {
            assert(self.entries@.take(0) =~= Seq::<Entry>::empty());
        }
        #[verifier::loop_isolation(false)]
        while i < n
            invariant
                i <= n,
                ds@ == spec_reboot_dispatches(self.entries@.take(i as int), now),
            decreases n - i,
        {
            proof {
                assert(self.entries@.take(i as int + 1).drop_last() =~= self.entries@.take(
                    i as int,
                ));
                assert(self.entries@.take(i as int + 1).last() == self.entries@[i as int]);
            }
            let is_reboot = match &self.entries[i].schedule {
                Schedule::Reboot => true,
                Schedule::When(_) => false,
            };
            if is_reboot {
                ds.push(Dispatch { entry: i, minute: now });
            }
            i = i + 1;
        }
        proof {
            assert(self.entries@.take(n as int) =~= self.entries@);
        }
        ds
    }
}

impl Scheduler {
    /// A fresh scheduler: all jobs for the current minute count as
    /// dispatched, and the loop woke just now.
    pub fn new(now: u64) -> (s: Scheduler)
        ensures
            s.virtual_time == now,
            s.time_running == now,
    {
        Scheduler { virtual_time: now, time_running: now }
    }

    /// One wake cycle: classifies the drift between the wall clock and
    /// virtual time and hands back the dispatch requests, in order.
    pub fn wake(&mut self, now: u64, tab: &Crontab) -> (ds: Vec<Dispatch>)
        ensures
            *final(self) == spec_wake(*old(self), now, tab.entries@).0,
            ds@ == spec_wake(*old(self), now, tab.entries@).1,
    {
        let vt = self.virtual_time;
        if now > vt {
            let diff = now - vt;
            if diff == 1 {
                self.virtual_time = now;
                self.time_running = now;
                find_jobs(tab, now, true, true)
            } else if diff <= SMALL_JUMP_LIMIT {
                self.virtual_time = now;
                self.time_running = now;
                let mut ds: Vec<Dispatch> = Vec::new();
                let mut m: u64 = vt;
                while m < now
                    invariant
                        vt <= m <= now,
                        ds@ + spec_catch_up_all(tab.entries@, m as int + 1, now as int)
                            == spec_catch_up_all(tab.entries@, vt as int + 1, now as int),
                    decreases now - m,
                {
                    m = m + 1;
                    let mut part = find_jobs(tab, m, true, true);
                    proof {
                        assert((ds@ + part@) + spec_catch_up_all(
                            tab.entries@,
                            m as int + 1,
                            now as int,
                        ) =~= ds@ + (part@ + spec_catch_up_all(
                            tab.entries@,
                            m as int + 1,
                            now as int,
                        )));
                    }
                    ds.append(&mut part);
                }
                proof {
                    assert(ds@ + spec_catch_up_all(tab.entries@, m as int + 1, now as int)
                        =~= ds@);
                }
                ds
            } else {
                self.virtual_time = now;
                self.time_running = now;
                let mut ds = find_jobs(tab, now, true, false);
                let ghost wild = ds@;
                let mut m: u64 = vt;
                while m < now
                    invariant
                        vt <= m <= now,
                        ds@ + spec_catch_up_fixed(tab.entries@, m as int + 1, now as int) == wild
                            + spec_catch_up_fixed(tab.entries@, vt as int + 1, now as int),
                    decreases now - m,
                {
                    m = m + 1;
                    let mut part = find_jobs(tab, m, false, true);
                    proof {
                        assert((ds@ + part@) + spec_catch_up_fixed(
                            tab.entries@,
                            m as int + 1,
                            now as int,
                        ) =~= ds@ + (part@ + spec_catch_up_fixed(
                            tab.entries@,
                            m as int + 1,
                            now as int,
                        )));
                    }
                    ds.append(&mut part);
                }
                proof {
                    assert(ds@ + spec_catch_up_fixed(tab.entries@, m as int + 1, now as int)
                        =~= ds@);
                }
                ds
            }
        } else {
            let back = vt - now;
            if back < 3 * MINUTE_COUNT_PER_HOUR {
                self.time_running = now;
                find_jobs(tab, now, true, false)
            } else {
                self.virtual_time = now;
                self.time_running = now;
                find_jobs(tab, now, true, true)
            }
        }
    }
}

} // verus!
