//! `smix runner supervise`: the decisions of the host-side XCTest
//! supervisor. It tails the runner log for interrupt banners and probes
//! `GET /health`; either can call for a cycle (down, then up on the same
//! device). A cycle is refused inside the cooldown after the last one,
//! and too many cycles inside the storm window end the supervisor so a
//! monitoring layer can escalate.
//!
//! The caller owns the clock, the sleeps, the file reads, the probe and
//! the cycle itself; it hands each result to [`Supervisor`] and does
//! what the verdict says. Times are milliseconds of a monotonic clock.

use vstd::prelude::*;
use crate::text::{
    chars_of, contains_chars, contains_seq, debug_quoted, debug_str, decimal, join, join_strings, lines, lines_of,
    owned, push_decimal, push_str, slice_chars, string_of, strs, trim, trim_chars, views,
};
use crate::runner::push_u64;

verus! {

broadcast use vstd::string::group_string_axioms;

/// No second cycle inside this long after the last one.
pub const COOLDOWN_MS: u64 = 60_000;

/// The window in which cycles are counted for a storm.
pub const STORM_WINDOW_MS: u64 = 600_000;

/// This many cycles inside the window and the supervisor gives up.
pub const STORM_THRESHOLD: usize = 5;

/// The health probe runs every this many polls.
pub const HEALTH_PROBE_EVERY: u64 = 20;

/// This many failed probes in a row call for a cycle.
pub const HEALTH_FAIL_THRESHOLD: u32 = 3;

/// Whether a log line carries an interrupt banner.
pub open spec fn is_interrupt(line: Seq<char>) -> bool {
    contains_seq(line, "** TEST INTERRUPTED **"@) || contains_seq(
        line,
        "SchemeActionResultOperation started unexpectedly"@,
    )
}

/// Whether `now` is inside the cooldown after the last cycle.
pub open spec fn in_cooldown(last: Option<u64>, now: u64) -> bool {
    match last {
        Some(p) => now < p + COOLDOWN_MS,
        None => false,
    }
}

/// The cycle times still inside the storm window at `now`, in order.
pub open spec fn recent(times: Seq<u64>, now: u64) -> Seq<u64>
    decreases times.len(),
{
    if times.len() == 0 {
        seq![]
    } else if now < times.last() + STORM_WINDOW_MS {
        recent(times.drop_last(), now).push(times.last())
    } else {
        recent(times.drop_last(), now)
    }
}

/// What a poll of the health probe, or a chunk of log, calls for.
#[derive(Debug, Clone, PartialEq, Eq)]
pub enum Trigger {
    /// Nothing to do.
    Quiet,
    /// A cycle was called for inside the cooldown, and is skipped.
    Cooldown,
    /// Too many cycles inside the window: stop, with how many there were.
    Storm { cycles: usize },
    /// Cycle the runner now.
    Cycle,
}

/// What a health probe result comes to: the count of failures in a row
/// it reached (zero when the runner answered), and what to do.
#[derive(Debug, Clone, PartialEq, Eq)]
pub struct HealthVerdict {
    pub fails: u32,
    pub trigger: Trigger,
}

/// What a chunk of log comes to: how many interrupt lines were skipped
/// for the cooldown, and either nothing, a storm, or a cycle for the
/// line that called for it.
#[derive(Debug, Clone, PartialEq, Eq)]
pub enum LogVerdict {
    Quiet { cooldown_skips: usize },
    Storm { cycles: usize },
    Cycle { line: String },
}

/// The supervisor's state between polls.
#[derive(Debug, Clone)]
pub struct Supervisor {
    /// How far into the log has been read.
    pub position: u64,
    /// A line the last read ended inside of, kept for the next read.
    pub carry: String,
    /// When the last cycle happened.
    pub last_cycle_at: Option<u64>,
    /// When the cycles still being counted happened, oldest first.
    pub cycle_times: Vec<u64>,
    /// Polls so far.
    pub loop_ticks: u64,
    /// Failed health probes in a row.
    pub health_fails: u32,
}

/// Cycle times are ordered, each at least a cooldown after the one
/// before, none after the last cycle.
pub open spec fn spaced(times: Seq<u64>) -> bool {
    forall|i: int, j: int| 0 <= i < j < times.len() ==> times[i] + COOLDOWN_MS <= times[j]
}

impl Supervisor {
    /// The invariant every state keeps.
    pub open spec fn wf(&self) -> bool {
        &&& spaced(self.cycle_times@)
        &&& (self.cycle_times@.len() > 0 ==> self.last_cycle_at is Some)
        &&& (self.last_cycle_at matches Some(p) ==> forall|i: int|
            0 <= i < self.cycle_times@.len() ==> self.cycle_times@[i] <= p)
        &&& self.health_fails < HEALTH_FAIL_THRESHOLD
    }

    /// Attach to a runner whose log is `position` bytes long.
    pub fn attach(position: u64) -> (s: Supervisor)
        ensures
            s.wf(),
            s.position == position,
            s.carry@ == Seq::<char>::empty(),
            s.last_cycle_at is None,
            s.cycle_times@ == Seq::<u64>::empty(),
            s.loop_ticks == 0,
            s.health_fails == 0,
    {
        Supervisor {
            position,
            carry: String::new(),
            last_cycle_at: None,
            cycle_times: Vec::new(),
            loop_ticks: 0,
            health_fails: 0,
        }
    }

    /// Count a poll; true when this poll probes `/health`.
    pub fn tick(&mut self) -> (probe: bool)
        requires
            old(self).loop_ticks < u64::MAX,
        ensures
            old(self).wf() ==> final(self).wf(),
            final(self).loop_ticks == old(self).loop_ticks + 1,
            probe == (final(self).loop_ticks % HEALTH_PROBE_EVERY == 0),
            final(self).position == old(self).position,
            final(self).carry == old(self).carry,
            final(self).last_cycle_at == old(self).last_cycle_at,
            final(self).cycle_times == old(self).cycle_times,
            final(self).health_fails == old(self).health_fails,
    {
        self.loop_ticks = self.loop_ticks + 1;
        self.loop_ticks % HEALTH_PROBE_EVERY == 0
    }

    /// Drop the cycle times that fell out of the storm window.
    fn prune(&mut self, now: u64)
        requires
            old(self).wf(),
        ensures
            final(self).wf(),
            final(self).cycle_times@ == recent(old(self).cycle_times@, now),
            final(self).position == old(self).position,
            final(self).carry == old(self).carry,
            final(self).last_cycle_at == old(self).last_cycle_at,
            final(self).loop_ticks == old(self).loop_ticks,
            final(self).health_fails == old(self).health_fails,
    {
        let ghost ts = self.cycle_times@;
        let mut kept: Vec<u64> = Vec::new();
        let mut i: usize = 0;
        assert(ts.take(0) =~= Seq::<u64>::empty());
        while i < self.cycle_times.len()
            invariant
                i <= ts.len(),
                ts == self.cycle_times@,
                kept@ == recent(ts.take(i as int), now),
            decreases ts.len() - i,
        {
            let t = self.cycle_times[i];
            assert(ts.take(i + 1).drop_last() =~= ts.take(i as int));
            assert(ts.take(i + 1).last() == t);
            if now < t || now - t < STORM_WINDOW_MS {
                kept.push(t);
            }
            i = i + 1;
        }
        assert(ts.take(i as int) =~= ts);
        proof {
            lemma_recent_within(ts, now);
            lemma_recent_spaced(ts, now);
        }
        self.cycle_times = kept;
    }

    /// Whether a cycle called for at `now` is inside the cooldown.
    fn cooling(&self, now: u64) -> (r: bool)
        ensures
            r == in_cooldown(self.last_cycle_at, now),
    {
        match self.last_cycle_at {
            Some(p) => now < p || now - p < COOLDOWN_MS,
            None => false,
        }
    }

    /// A cycle was called for at `now`: skip it in the cooldown; else
    /// count the recent cycles and stop on a storm, or cycle.
    fn call_for_cycle(&mut self, now: u64) -> (t: Trigger)
        requires
            old(self).wf(),
        ensures
            final(self).wf(),
            in_cooldown(old(self).last_cycle_at, now) ==> t == Trigger::Cooldown && final(self).cycle_times
                == old(self).cycle_times,
            !in_cooldown(old(self).last_cycle_at, now) ==> final(self).cycle_times@ == recent(
                old(self).cycle_times@,
                now,
            ) && t == (if recent(old(self).cycle_times@, now).len() >= STORM_THRESHOLD {
                Trigger::Storm { cycles: recent(old(self).cycle_times@, now).len() as usize }
            } else {
                Trigger::Cycle
            }),
            final(self).position == old(self).position,
            final(self).carry == old(self).carry,
            final(self).last_cycle_at == old(self).last_cycle_at,
            final(self).loop_ticks == old(self).loop_ticks,
            final(self).health_fails == old(self).health_fails,
    {
        if self.cooling(now) {
            return Trigger::Cooldown;
        }
        self.prune(now);
        if self.cycle_times.len() >= STORM_THRESHOLD {
            Trigger::Storm { cycles: self.cycle_times.len() }
        } else {
            Trigger::Cycle
        }
    }

    /// A `/health` probe answered (`alive`) or not, at `now`. The third
    /// failure in a row calls for a cycle and starts the count again.
    pub fn health(&mut self, alive: bool, now: u64) -> (v: HealthVerdict)
        requires
            old(self).wf(),
        ensures
            final(self).wf(),
            alive ==> v == (HealthVerdict { fails: 0, trigger: Trigger::Quiet }) && final(self).health_fails
                == 0 && final(self).cycle_times == old(self).cycle_times,
            !alive ==> v.fails as int == old(self).health_fails as int + 1,
            !alive && old(self).health_fails + 1 < HEALTH_FAIL_THRESHOLD ==> v.trigger == Trigger::Quiet
                && final(self).health_fails == v.fails && final(self).cycle_times == old(self).cycle_times,
            !alive && old(self).health_fails + 1 >= HEALTH_FAIL_THRESHOLD ==> final(self).health_fails == 0
                && if in_cooldown(old(self).last_cycle_at, now) {
                v.trigger == Trigger::Cooldown && final(self).cycle_times == old(self).cycle_times
            } else {
                final(self).cycle_times@ == recent(old(self).cycle_times@, now) && v.trigger == (if recent(
                    old(self).cycle_times@,
                    now,
                ).len() >= STORM_THRESHOLD {
                    Trigger::Storm { cycles: recent(old(self).cycle_times@, now).len() as usize }
                } else {
                    Trigger::Cycle
                })
            },
            final(self).position == old(self).position,
            final(self).carry == old(self).carry,
            final(self).last_cycle_at == old(self).last_cycle_at,
            final(self).loop_ticks == old(self).loop_ticks,
    {
        if alive {
            self.health_fails = 0;
            return HealthVerdict { fails: 0, trigger: Trigger::Quiet };
        }
        let fails: u32 = self.health_fails + 1;
        if fails < HEALTH_FAIL_THRESHOLD {
            self.health_fails = fails;
            return HealthVerdict { fails, trigger: Trigger::Quiet };
        }
        self.health_fails = 0;
        let trigger = self.call_for_cycle(now);
        HealthVerdict { fails, trigger }
    }

    /// The log is now `current_len` bytes. A shorter log was rotated:
    /// start again from its beginning. True when there are new bytes to
    /// read from `position`.
    pub fn log_grew(&mut self, current_len: u64) -> (read: bool)
        ensures
            old(self).wf() ==> final(self).wf(),
            current_len < old(self).position ==> final(self).position == 0 && final(self).carry@
                == Seq::<char>::empty(),
            current_len >= old(self).position ==> final(self).position == old(self).position
                && final(self).carry == old(self).carry,
            read == (current_len != final(self).position),
            final(self).last_cycle_at == old(self).last_cycle_at,
            final(self).cycle_times == old(self).cycle_times,
            final(self).loop_ticks == old(self).loop_ticks,
            final(self).health_fails == old(self).health_fails,
    {
        if current_len < self.position {
            self.position = 0;
            self.carry = String::new();
        }
        current_len != self.position
    }

    /// The new bytes could not be read as text: pass over them.
    pub fn skip_to(&mut self, current_len: u64)
        ensures
            old(self).wf() ==> final(self).wf(),
            final(self).position == current_len,
            final(self).carry == old(self).carry,
            final(self).last_cycle_at == old(self).last_cycle_at,
            final(self).cycle_times == old(self).cycle_times,
            final(self).loop_ticks == old(self).loop_ticks,
            final(self).health_fails == old(self).health_fails,
    {
        self.position = current_len;
    }

    /// A new chunk of log, read up to `current_len`, at `now`. Complete
    /// lines are looked at in order; a line the chunk ends inside of is
    /// kept for the next read. The first interrupt line outside the
    /// cooldown calls for a cycle (or stops on a storm); inside the
    /// cooldown every interrupt line is skipped.
    pub fn scan_chunk(&mut self, chunk: &str, current_len: u64, now: u64) -> (v: LogVerdict)
        requires
            old(self).wf(),
        ensures
            final(self).wf(),
            final(self).position == current_len,
            final(self).carry@ == partial_tail(old(self).carry@ + chunk@),
            final(self).last_cycle_at == old(self).last_cycle_at,
            final(self).loop_ticks == old(self).loop_ticks,
            final(self).health_fails == old(self).health_fails,
            ({
                let cl = complete_lines(old(self).carry@ + chunk@);
                let rec = recent(old(self).cycle_times@, now);
                match first_interrupt(cl) {
                    None => v == (LogVerdict::Quiet { cooldown_skips: 0 }) && final(self).cycle_times
                        == old(self).cycle_times,
                    Some(k) => if in_cooldown(old(self).last_cycle_at, now) {
                        v == (LogVerdict::Quiet { cooldown_skips: interrupt_count(cl) as usize })
                            && final(self).cycle_times == old(self).cycle_times
                    } else {
                        &&& final(self).cycle_times@ == rec
                        &&& rec.len() >= STORM_THRESHOLD ==> v == (LogVerdict::Storm {
                            cycles: rec.len() as usize,
                        })
                        &&& rec.len() < STORM_THRESHOLD ==> (v matches LogVerdict::Cycle { line } && line@
                            == cl[k as int])
                    },
                }
            }),
    {
        self.position = current_len;
        push_str(&mut self.carry, chunk);
        let buf = chars_of(self.carry.as_str());
        let ghost b = buf@;
        let ls = lines_of(buf.as_slice());
        let keep_last = !(buf.len() > 0 && buf[buf.len() - 1] == '\n');
        let n: usize = if keep_last && ls.len() > 0 {
            ls.len() - 1
        } else {
            ls.len()
        };
        let tail = if keep_last && ls.len() > 0 {
            string_of(ls[ls.len() - 1].as_slice())
        } else {
            String::new()
        };
        let ghost cl = complete_lines(b);
        assert(cl =~= views(ls@).take(n as int));
        self.carry = tail;
        if self.cooling(now) {
            let skips = count_interrupts(&ls, n);
            proof {
                lemma_no_interrupt_no_count(cl);
            }
            return LogVerdict::Quiet { cooldown_skips: skips };
        }
        match find_interrupt(&ls, n) {
            Some(i) => {
                let line = string_of(ls[i].as_slice());
                match self.call_for_cycle(now) {
                    Trigger::Storm { cycles } => LogVerdict::Storm { cycles },
                    _ => LogVerdict::Cycle { line },
                }
            },
            None => LogVerdict::Quiet { cooldown_skips: 0 },
        }
    }

    /// The cycle a verdict called for at `now` went through. After a
    /// health-triggered cycle the log is read again from its start; after
    /// a log-triggered one the partial line already kept stays.
    pub fn cycle_done(&mut self, now: u64, from_log: bool)
        requires
            old(self).wf(),
            !in_cooldown(old(self).last_cycle_at, now),
        ensures
            final(self).wf(),
            final(self).cycle_times@ == old(self).cycle_times@.push(now),
            final(self).last_cycle_at == Some(now),
            final(self).position == 0,
            from_log ==> final(self).carry == old(self).carry,
            !from_log ==> final(self).carry@ == Seq::<char>::empty(),
            final(self).loop_ticks == old(self).loop_ticks,
            final(self).health_fails == old(self).health_fails,
    {
        self.cycle_times.push(now);
        self.last_cycle_at = Some(now);
        self.position = 0;
        if !from_log {
            self.carry = String::new();
        }
    }
}

fn count_interrupts(ls: &Vec<Vec<char>>, n: usize) -> (skips: usize)
    requires
        n <= ls@.len(),
    ensures
        skips == interrupt_count(views(ls@).take(n as int)),
{
    let ghost cl = views(ls@).take(n as int);
    let mut skips: usize = 0;
    let mut i: usize = 0;
    while i < n
        invariant
            i <= n,
            n <= ls@.len(),
            cl == views(ls@).take(n as int),
            skips == interrupt_count(cl.take(i as int)),
            skips <= i,
        decreases n - i,
    {
        assert(cl.take(i + 1).drop_last() =~= cl.take(i as int));
        assert(cl.take(i + 1).last() == ls@[i as int]@);
        if is_interrupt_line(ls[i].as_slice()) {
            skips = skips + 1;
        }
        i = i + 1;
    }
    assert(cl.take(n as int) =~= cl);
    skips
}

fn find_interrupt(ls: &Vec<Vec<char>>, n: usize) -> (r: Option<usize>)
    requires
        n <= ls@.len(),
    ensures
        match r {
            Some(i) => i < n && first_interrupt(views(ls@).take(n as int)) == Some(i as nat),
            None => first_interrupt(views(ls@).take(n as int)) is None,
        },
{
    let ghost cl = views(ls@).take(n as int);
    let mut i: usize = 0;
    while i < n
        invariant
            i <= n,
            n <= ls@.len(),
            cl == views(ls@).take(n as int),
            forall|k: int| 0 <= k < i ==> !is_interrupt(#[trigger] cl[k]),
        decreases n - i,
    {
        assert(cl[i as int] == ls@[i as int]@);
        if is_interrupt_line(ls[i].as_slice()) {
            proof {
                lemma_first_interrupt_at(cl, i as nat);
            }
            return Some(i);
        }
        i = i + 1;
    }
    proof {
        lemma_first_interrupt_none(cl);
    }
    None
}

/// Whether the text ends inside a line.
pub open spec fn keeps_last(buf: Seq<char>) -> bool {
    !(buf.len() > 0 && buf.last() == '\n')
}

/// The lines of `buf` that are complete.
pub open spec fn complete_lines(buf: Seq<char>) -> Seq<Seq<char>> {
    if keeps_last(buf) && lines(buf).len() > 0 {
        lines(buf).drop_last()
    } else {
        lines(buf)
    }
}

/// The line `buf` ends inside of, if it does.
pub open spec fn partial_tail(buf: Seq<char>) -> Seq<char> {
    if keeps_last(buf) && lines(buf).len() > 0 {
        lines(buf).last()
    } else {
        seq![]
    }
}

/// Index of the first interrupt line.
pub open spec fn first_interrupt(ls: Seq<Seq<char>>) -> Option<nat>
    decreases ls.len(),
{
    if ls.len() == 0 {
        None
    } else if is_interrupt(ls[0]) {
        Some(0)
    } else {
        match first_interrupt(ls.drop_first()) {
            Some(k) => Some(k + 1),
            None => None,
        }
    }
}

/// How many lines are interrupt lines.
pub open spec fn interrupt_count(ls: Seq<Seq<char>>) -> nat
    decreases ls.len(),
{
    if ls.len() == 0 {
        0
    } else {
        interrupt_count(ls.drop_last()) + if is_interrupt(ls.last()) {
            1nat
        } else {
            0nat
        }
    }
}

proof fn lemma_first_interrupt_at(ls: Seq<Seq<char>>, i: nat)
    requires
        i < ls.len(),
        is_interrupt(ls[i as int]),
        forall|k: int| 0 <= k < i ==> !is_interrupt(#[trigger] ls[k]),
    ensures
        first_interrupt(ls) == Some(i),
    decreases i,
{
    if i > 0 {
        assert(!is_interrupt(ls[0]));
        assert forall|k: int| 0 <= k < i - 1 implies !is_interrupt(#[trigger] ls.drop_first()[k]) by {
            assert(ls.drop_first()[k] == ls[k + 1]);
        }
        lemma_first_interrupt_at(ls.drop_first(), (i - 1) as nat);
    }
}

proof fn lemma_first_interrupt_none(ls: Seq<Seq<char>>)
    requires
        forall|k: int| 0 <= k < ls.len() ==> !is_interrupt(#[trigger] ls[k]),
    ensures
        first_interrupt(ls) is None,
    decreases ls.len(),
{
    if ls.len() > 0 {
        assert(!is_interrupt(ls[0]));
        assert forall|k: int| 0 <= k < ls.len() - 1 implies !is_interrupt(#[trigger] ls.drop_first()[k]) by {
            assert(ls.drop_first()[k] == ls[k + 1]);
        }
        lemma_first_interrupt_none(ls.drop_first());
    }
}

/// With no interrupt line the count is zero, and a count of zero means
/// there was none.
proof fn lemma_no_interrupt_no_count(ls: Seq<Seq<char>>)
    ensures
        (first_interrupt(ls) is None) == (interrupt_count(ls) == 0),
    decreases ls.len(),
{
    if ls.len() > 0 {
        lemma_no_interrupt_no_count(ls.drop_last());
        lemma_first_interrupt_split(ls);
    }
}

proof fn lemma_first_interrupt_split(ls: Seq<Seq<char>>)
    requires
        ls.len() > 0,
    ensures
        (first_interrupt(ls) is None) == (first_interrupt(ls.drop_last()) is None && !is_interrupt(ls.last())),
    decreases ls.len(),
{
    let d = ls.drop_last();
    if ls.len() > 1 {
        assert(d[0] == ls[0]);
        if !is_interrupt(ls[0]) {
            lemma_first_interrupt_split(ls.drop_first());
            assert(ls.drop_first().drop_last() =~= d.drop_first());
            assert(ls.drop_first().last() == ls.last());
            assert((first_interrupt(d) is None) == (first_interrupt(d.drop_first()) is None));
            assert((first_interrupt(ls) is None) == (first_interrupt(ls.drop_first()) is None));
        } else {
            assert(first_interrupt(d) == Some(0nat));
        }
    } else {
        assert(d.len() == 0);
        assert(first_interrupt(d) is None);
        assert(ls[0] == ls.last());
        assert(ls.drop_first().len() == 0);
        assert(first_interrupt(ls.drop_first()) is None);
    }
}

fn is_interrupt_line(line: &[char]) -> (r: bool)
    ensures
        r == is_interrupt(line@),
{
    let a = chars_of("** TEST INTERRUPTED **");
    let b = chars_of("SchemeActionResultOperation started unexpectedly");
    contains_chars(line, a.as_slice()) || contains_chars(line, b.as_slice())
}

proof fn lemma_recent_members(ts: Seq<u64>, now: u64)
    ensures
        recent(ts, now).len() <= ts.len(),
        forall|k: int| 0 <= k < recent(ts, now).len() ==> ts.contains(#[trigger] recent(ts, now)[k]),
    decreases ts.len(),
{
    if ts.len() > 0 {
        lemma_recent_members(ts.drop_last(), now);
        let r = recent(ts.drop_last(), now);
        assert forall|k: int| 0 <= k < r.len() implies ts.contains(#[trigger] r[k]) by {
            let j = choose|j: int| 0 <= j < ts.drop_last().len() && ts.drop_last()[j] == r[k];
            assert(ts[j] == r[k]);
        }
        assert(ts[ts.len() - 1] == ts.last());
    }
}

proof fn lemma_recent_spaced(ts: Seq<u64>, now: u64)
    requires
        spaced(ts),
    ensures
        spaced(recent(ts, now)),
    decreases ts.len(),
{
    if ts.len() > 0 {
        let d = ts.drop_last();
        assert(spaced(d));
        lemma_recent_spaced(d, now);
        lemma_recent_members(d, now);
        let r = recent(d, now);
        if now < ts.last() + STORM_WINDOW_MS {
            assert forall|i: int| 0 <= i < r.len() implies #[trigger] r[i] + COOLDOWN_MS <= ts.last() by {
                assert(d.contains(r[i]));
                let j = choose|j: int| 0 <= j < d.len() && d[j] == r[i];
                assert(ts[j] == d[j]);
                assert(ts[ts.len() - 1] == ts.last());
            }
        }
    }
}

proof fn lemma_recent_within(ts: Seq<u64>, now: u64)
    ensures
        forall|k: int| 0 <= k < recent(ts, now).len() ==> ts.contains(#[trigger] recent(ts, now)[k]),
        recent(ts, now).len() > 0 ==> ts.len() > 0,
{
    lemma_recent_members(ts, now);
}

/// Every two cycles the supervisor has recorded are at least a
/// cooldown apart: at most one cycle per cooldown.
pub proof fn lemma_cycles_are_a_cooldown_apart(s: Supervisor, i: int, j: int)
    requires
        s.wf(),
        0 <= i < j < s.cycle_times@.len(),
    ensures
        s.cycle_times@[j] - s.cycle_times@[i] >= COOLDOWN_MS,
{
}

/// The lines around the first line containing `match_line` (trimmed):
/// up to `size` before and after it, clipped to the text.
pub open spec fn context_window(text: Seq<char>, match_line: Seq<char>, size: nat) -> Seq<Seq<char>> {
    let ls = lines(text);
    match first_containing(ls, trim(match_line)) {
        None => seq![],
        Some(k) => {
            let start: int = if k >= size { k - size } else { 0 };
            let end: int = if k + size + 1 <= ls.len() { (k + size + 1) as int } else { ls.len() as int };
            ls.subrange(start as int, end as int)
        },
    }
}

/// Index of the first line that contains `t`.
pub open spec fn first_containing(ls: Seq<Seq<char>>, t: Seq<char>) -> Option<nat>
    decreases ls.len(),
{
    if ls.len() == 0 {
        None
    } else if contains_seq(ls[0], t) {
        Some(0)
    } else {
        match first_containing(ls.drop_first(), t) {
            Some(k) => Some(k + 1),
            None => None,
        }
    }
}

proof fn lemma_first_containing(ls: Seq<Seq<char>>, t: Seq<char>, i: nat)
    requires
        i <= ls.len(),
        forall|k: int| 0 <= k < i ==> !contains_seq(#[trigger] ls[k], t),
    ensures
        i < ls.len() && contains_seq(ls[i as int], t) ==> first_containing(ls, t) == Some(i),
        i == ls.len() ==> first_containing(ls, t) is None,
    decreases i,
{
    if i > 0 {
        assert(!contains_seq(ls[0], t));
        assert forall|k: int| 0 <= k < i - 1 implies !contains_seq(#[trigger] ls.drop_first()[k], t) by {
            assert(ls.drop_first()[k] == ls[k + 1]);
        }
        lemma_first_containing(ls.drop_first(), t, (i - 1) as nat);
    }
}

/// The runner log around the line that called for a cycle, attached to
/// the cycle event so it can be classified without reading the log.
pub fn log_context(text: &str, match_line: &str, size: usize) -> (r: Vec<String>)
    ensures
        crate::text::strs(r@) == context_window(text@, match_line@, size as nat),
{
    let t = trim_chars(chars_of(match_line).as_slice());
    let ls = lines_of(chars_of(text).as_slice());
    let ghost lv = views(ls@);
    let mut i: usize = 0;
    while i < ls.len()
        invariant
            i <= ls@.len(),
            lv == views(ls@),
            forall|k: int| 0 <= k < i ==> !contains_seq(#[trigger] lv[k], t@),
        ensures
            i <= ls@.len(),
            forall|k: int| 0 <= k < i ==> !contains_seq(#[trigger] lv[k], t@),
            i == ls@.len() || contains_seq(lv[i as int], t@),
        decreases ls@.len() - i,
    {
        if contains_chars(ls[i].as_slice(), t.as_slice()) {
            assert(lv[i as int] == ls@[i as int]@);
            break;
        }
        assert(lv[i as int] == ls@[i as int]@);
        i = i + 1;
    }
    proof {
        lemma_first_containing(lv, t@, i as nat);
    }
    let mut r: Vec<String> = Vec::new();
    if i == ls.len() {
        assert(crate::text::strs(r@) =~= Seq::<Seq<char>>::empty());
        return r;
    }
    assert(lv[i as int] == ls@[i as int]@);
    let start = if i >= size {
        i - size
    } else {
        0
    };
    let end = if size < ls.len() - i {
        i + size + 1
    } else {
        ls.len()
    };
    let mut j: usize = start;
    while j < end
        invariant
            start <= j <= end,
            end <= ls@.len(),
            lv == views(ls@),
            crate::text::strs(r@) == lv.subrange(start as int, j as int),
        decreases end - j,
    {
        let ghost before = r@;
        r.push(string_of(ls[j].as_slice()));
        assert(crate::text::strs(r@) =~= crate::text::strs(before).push(lv[j as int]));
        assert(lv.subrange(start as int, j + 1) =~= lv.subrange(start as int, j as int).push(lv[j as int]));
        j = j + 1;
    }
    r
}


// ---- what the loop does next ----------------------------------------------

/// What the supervisor loop does after a probe or a chunk: say the notes and
/// poll on, say them and cycle the runner, or stop with the error.
#[derive(Debug, Clone, PartialEq, Eq)]
pub enum SuperviseStep {
    Go { notes: Vec<String> },
    Cycle { notes: Vec<String> },
    Stop { error: String },
}

/// The error a storm ends the supervisor with.
pub open spec fn storm_error_text(cycles: nat) -> Seq<char> {
    "supervise: "@ + decimal(cycles) + " cycles inside 600s — bailing so a monitoring layer can escalate"@
}

pub fn storm_error(cycles: usize) -> (s: String)
    ensures
        s@ == storm_error_text(cycles as nat),
{
    let mut s = owned("supervise: ");
    push_decimal(&mut s, cycles);
    s.append(" cycles inside 600s — bailing so a monitoring layer can escalate");
    s
}

/// The error a failed cycle ends the supervisor with.
pub fn cycle_failed(error: &str) -> (s: String)
    ensures
        s@ == "supervise: cycle failed: "@ + error@,
{
    let mut s = owned("supervise: cycle failed: ");
    s.append(error);
    s
}

/// The note for a failed probe: how many in a row, of how many allowed.
pub open spec fn unreachable_note(fails: nat) -> Seq<char> {
    "supervise: /health unreachable ("@ + decimal(fails) + "/3)"@
}

/// The note for a trigger skipped inside the cooldown.
pub open spec fn cooldown_note(from_health: bool) -> Seq<char> {
    if from_health {
        "supervise: health trigger within 60s of last cycle — skipping (cooldown)"@
    } else {
        "supervise: interrupt hit within 60s of last cycle — skipping (cooldown)"@
    }
}

fn cooldown_note_text(from_health: bool) -> (s: String)
    ensures
        s@ == cooldown_note(from_health),
{
    if from_health {
        owned("supervise: health trigger within 60s of last cycle — skipping (cooldown)")
    } else {
        owned("supervise: interrupt hit within 60s of last cycle — skipping (cooldown)")
    }
}

/// What a probe's verdict comes to: a failed probe is noted; a storm
/// stops the supervisor with its error; a cooldown is noted and the
/// loop goes on; a cycle is a cycle.
pub open spec fn health_step(v: HealthVerdict) -> (int, Seq<Seq<char>>, Option<Seq<char>>) {
    let notes = (if v.fails > 0 { seq![unreachable_note(v.fails as nat)] } else { seq![] }) + match v.trigger {
        Trigger::Cooldown => seq![cooldown_note(true)],
        _ => seq![],
    };
    match v.trigger {
        Trigger::Storm { cycles } => (2, seq![], Some(storm_error_text(cycles as nat))),
        Trigger::Cycle => (1, notes, None),
        _ => (0, notes, None),
    }
}

/// A step by its parts: 0 go on, 1 cycle, 2 stop; the notes; the error.
pub open spec fn step_view(s: SuperviseStep) -> (int, Seq<Seq<char>>, Option<Seq<char>>) {
    match s {
        SuperviseStep::Go { notes } => (0, strs(notes@), None),
        SuperviseStep::Cycle { notes } => (1, strs(notes@), None),
        SuperviseStep::Stop { error } => (2, seq![], Some(error@)),
    }
}

pub fn after_health(v: &HealthVerdict) -> (s: SuperviseStep)
    ensures
        step_view(s) == health_step(*v),
{
    match v.trigger {
        Trigger::Storm { cycles } => {
            return SuperviseStep::Stop { error: storm_error(cycles) };
        },
        _ => {},
    }
    let mut notes: Vec<String> = Vec::new();
    if v.fails > 0 {
        let mut n = owned("supervise: /health unreachable (");
        push_decimal(&mut n, v.fails as usize);
        n.append("/3)");
        notes.push(n);
    }
    let is_cooldown = match v.trigger {
        Trigger::Cooldown => true,
        _ => false,
    };
    if is_cooldown {
        notes.push(cooldown_note_text(true));
    }
    proof {
        assert(strs(notes@) =~= (if v.fails > 0 { seq![unreachable_note(v.fails as nat)] } else { seq![] }) + match v.trigger {
            Trigger::Cooldown => seq![cooldown_note(true)],
            _ => seq![],
        });
    }
    match v.trigger {
        Trigger::Cycle => SuperviseStep::Cycle { notes },
        _ => SuperviseStep::Go { notes },
    }
}

/// What a chunk's verdict comes to: each interrupt skipped for the
/// cooldown is noted; a storm stops the supervisor; a matched line is a
/// cycle.
pub open spec fn log_step(v: LogVerdict) -> (int, Seq<Seq<char>>, Option<Seq<char>>) {
    match v {
        LogVerdict::Quiet { cooldown_skips } => (0, Seq::new(cooldown_skips as nat, |i: int| cooldown_note(false)), None),
        LogVerdict::Storm { cycles } => (2, seq![], Some(storm_error_text(cycles as nat))),
        LogVerdict::Cycle { line } => (1, seq![], None),
    }
}

pub fn after_log(v: &LogVerdict) -> (s: SuperviseStep)
    ensures
        step_view(s) == log_step(*v),
{
    match v {
        LogVerdict::Quiet { cooldown_skips } => {
            let mut notes: Vec<String> = Vec::new();
            let mut k: usize = 0;
            while k < *cooldown_skips
                invariant
                    k <= *cooldown_skips,
                    strs(notes@) == Seq::new(k as nat, |i: int| cooldown_note(false)),
                decreases *cooldown_skips - k,
            {
                let ghost before = strs(notes@);
                let n = cooldown_note_text(false);
                notes.push(n);
                assert(strs(notes@) =~= before.push(n@));
                assert(strs(notes@) =~= Seq::new((k + 1) as nat, |i: int| cooldown_note(false)));
                k = k + 1;
            }
            SuperviseStep::Go { notes }
        },
        LogVerdict::Storm { cycles } => SuperviseStep::Stop { error: storm_error(*cycles) },
        LogVerdict::Cycle { line } => SuperviseStep::Cycle { notes: Vec::new() },
    }
}

/// The event a health-called cycle is announced with.
pub fn health_cycled_event(at_ms: u64) -> (s: String)
    ensures
        s@ == "{\"event\":\"RunnerCycled\",\"reasonMatched\":\"health-unreachable x3\",\"context\":[],\"atMs\":"@
            + decimal(at_ms as nat) + "}"@,
{
    let mut s = owned("{\"event\":\"RunnerCycled\",\"reasonMatched\":\"health-unreachable x3\",\"context\":[],\"atMs\":");
    push_u64(&mut s, at_ms);
    s.append("}");
    s
}

/// The event a log-called cycle is announced with: the matched line
/// (trimmed) and the log lines around it, each as `{:?}` writes it.
pub fn log_cycled_event(line: &str, context: &[String], at_ms: u64) -> (s: String)
    ensures
        s@ == "{\"event\":\"RunnerCycled\",\"reasonMatched\":"@ + debug_quoted(trim(line@)) + ",\"context\":["@ + join(
            strs(context@).map_values(|l: Seq<char>| debug_quoted(l)),
            ","@,
        ) + "],\"atMs\":"@ + decimal(at_ms as nat) + "}"@,
{
    let mut s = owned("{\"event\":\"RunnerCycled\",\"reasonMatched\":");
    let t = string_of(trim_chars(chars_of(line).as_slice()).as_slice());
    s.append(debug_str(t.as_str()).as_str());
    s.append(",\"context\":[");
    let mut quoted: Vec<String> = Vec::new();
    let mut i: usize = 0;
    while i < context.len()
        invariant
            i <= context@.len(),
            strs(quoted@) == strs(context@).take(i as int).map_values(|l: Seq<char>| debug_quoted(l)),
        decreases context@.len() - i,
    {
        let q = debug_str(context[i].as_str());
        let ghost before = strs(quoted@);
        quoted.push(q);
        assert(strs(quoted@) =~= before.push(q@));
        assert(strs(context@).take(i + 1).map_values(|l: Seq<char>| debug_quoted(l)) =~= strs(context@).take(
            i as int,
        ).map_values(|l: Seq<char>| debug_quoted(l)).push(debug_quoted(context@[i as int]@)));
        i = i + 1;
    }
    assert(strs(context@).take(i as int) =~= strs(context@));
    s.append(join_strings(quoted.as_slice(), ",").as_str());
    s.append("],\"atMs\":");
    push_u64(&mut s, at_ms);
    s.append("}");
    s
}

} // verus!
