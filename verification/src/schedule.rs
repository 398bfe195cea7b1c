//! Layered schedule resolution: which block plays at each minute of a local day,
//! and the collapse of that minute timeline into contiguous blocks.
use vstd::prelude::*;
use crate::calendar;
use crate::text::{self, two_digits};

verus! {

/// Minutes in one local day.
pub const MINUTES_PER_DAY: usize = 1440;

/// A schedule (a named layer of blocks).
pub struct Schedule {
    pub id: Option<i32>,
    pub name: String,
    pub description: Option<String>,
    /// "weekly" or "one_off"; any other value contributes no blocks.
    pub schedule_type: String,
    pub priority: i32,
    pub is_active: bool,
    pub dj_id: Option<i32>,
}

/// One block of a schedule. Dates are day numbers counted from January 1 of year 1
/// (day 1); times are seconds from midnight.
pub struct ScheduleBlock {
    pub id: Option<i32>,
    pub schedule_id: i32,
    pub content_id: Option<i32>,
    /// 0 = Monday ... 6 = Sunday (weekly schedules).
    pub day_of_week: Option<i32>,
    /// Day number (one-off schedules).
    pub specific_date: Option<i32>,
    pub start_time: u32,
    pub duration_minutes: i32,
    pub script_id: Option<i32>,
    pub dj_id: Option<i32>,
}

/// A schedule assigned to a node, with the node-level priority override.
pub struct AssignedSchedule {
    pub schedule: Schedule,
    pub priority_override: Option<i32>,
}

/// What occupies one minute of the timeline.
pub struct TimelineSlot {
    pub content_id: Option<i32>,
    pub script_id: Option<i32>,
    pub priority: i32,
    pub schedule_name: String,
    pub schedule_id: i32,
    pub block_id: i32,
}

/// A contiguous run of identical timeline minutes.
pub struct CollapsedBlock {
    /// "HH:MM:00" local start time.
    pub start_time: String,
    pub duration_minutes: i32,
    pub content_id: Option<i32>,
    pub script_id: Option<i32>,
    pub priority: i32,
    pub schedule_name: String,
    pub schedule_id: i32,
    pub dj_id: Option<i32>,
    pub dj_name: Option<String>,
}

/// The part of a slot that decides whether two minutes belong to the same block.
pub open spec fn slot_key(s: TimelineSlot) -> (Option<i32>, Option<i32>, i32) {
    (s.content_id, s.script_id, s.block_id)
}

impl TimelineSlot {
    /// Two slots are the same block when content, script and block agree.
    pub fn eq(&self, other: &Self) -> (r: bool)
        ensures
            r == (slot_key(*self) == slot_key(*other)),
    {
        let c = match (self.content_id, other.content_id) {
            (Some(a), Some(b)) => a == b,
            (None, None) => true,
            _ => false,
        };
        let s = match (self.script_id, other.script_id) {
            (Some(a), Some(b)) => a == b,
            (None, None) => true,
            _ => false,
        };
        c && s && self.block_id == other.block_id
    }

    pub fn clone_slot(&self) -> (r: Self)
        ensures
            r == *self,
    {
        TimelineSlot {
            content_id: self.content_id,
            script_id: self.script_id,
            priority: self.priority,
            schedule_name: self.schedule_name.clone(),
            schedule_id: self.schedule_id,
            block_id: self.block_id,
        }
    }
}

// ---------------------------------------------------------------------------
// Collapse
// ---------------------------------------------------------------------------

/// Minute `s` starts a run: it is occupied, and the minute before is free or holds a
/// different block.
pub open spec fn is_run_start(t: Seq<Option<TimelineSlot>>, s: int) -> bool {
    &&& 0 <= s < t.len()
    &&& t[s] is Some
    &&& (s == 0 || t[s - 1] is None || slot_key(t[s - 1]->0) != slot_key(t[s]->0))
}

/// The first minute at or after `e` that does not continue the run begun at `s`
/// (or `t.len()` when the run reaches the end).
pub open spec fn scan_end(t: Seq<Option<TimelineSlot>>, s: int, e: int) -> int
    decreases t.len() - e,
{
    if e >= t.len() || e < 0 {
        t.len() as int
    } else if t[e] is None || slot_key(t[e]->0) != slot_key(t[s]->0) {
        e
    } else {
        scan_end(t, s, e + 1)
    }
}

/// Length of the run begun at `s`; a run that reaches the end of the timeline
/// lasts until the end of the day.
pub open spec fn run_duration(t: Seq<Option<TimelineSlot>>, s: int) -> int {
    let e = scan_end(t, s, s + 1);
    if e < t.len() { e - s } else { MINUTES_PER_DAY - s }
}

/// Run starts among the first `n` minutes, in increasing order.
pub open spec fn run_starts(t: Seq<Option<TimelineSlot>>, n: int) -> Seq<int>
    decreases n,
{
    if n <= 0 {
        seq![]
    } else if is_run_start(t, n - 1) {
        run_starts(t, n - 1).push(n - 1)
    } else {
        run_starts(t, n - 1)
    }
}

/// "HH:MM:00" for a minute of the day.
pub open spec fn time_label(minute: int) -> Seq<char> {
    two_digits(minute / 60) + seq![':'] + two_digits(minute % 60) + seq![':', '0', '0']
}

/// The collapsed block describing a run of `duration` minutes starting at `start`.
pub open spec fn collapsed_view(start: int, duration: int, slot: TimelineSlot, b: CollapsedBlock) -> bool {
    &&& b.start_time@ == time_label(start)
    &&& b.duration_minutes == duration
    &&& b.content_id == slot.content_id
    &&& b.script_id == slot.script_id
    &&& b.priority == slot.priority
    &&& b.schedule_name == slot.schedule_name
    &&& b.schedule_id == slot.schedule_id
    &&& b.dj_id is None
    &&& b.dj_name is None
}

/// `out` describes exactly the runs of `t`, in order.
pub open spec fn collapses_to(t: Seq<Option<TimelineSlot>>, out: Seq<CollapsedBlock>) -> bool {
    let starts = run_starts(t, t.len() as int);
    &&& out.len() == starts.len()
    &&& forall|i: int| 0 <= i < out.len() ==>
            collapsed_view(starts[i], run_duration(t, starts[i]), t[starts[i]]->0, #[trigger] out[i])
}

/// Builds the collapsed block for a run (the run's first slot supplies the fields).
pub fn create_collapsed_block(start_min: usize, duration: i32, slot: &TimelineSlot) -> (b: CollapsedBlock)
    requires
        start_min < MINUTES_PER_DAY,
    ensures
        collapsed_view(start_min as int, duration as int, *slot, b),
{
    let hours = (start_min / 60) as u64;
    let minutes = (start_min % 60) as u64;
    let mut label: Vec<char> = Vec::new();
    label.push(text::digit(hours / 10));
    label.push(text::digit(hours % 10));
    label.push(':');
    label.push(text::digit(minutes / 10));
    label.push(text::digit(minutes % 10));
    label.push(':');
    label.push('0');
    label.push('0');
    assert(label@ =~= time_label(start_min as int));
    let start_time = text::string_from(label.as_slice());
    CollapsedBlock {
        start_time,
        duration_minutes: duration,
        content_id: slot.content_id,
        script_id: slot.script_id,
        priority: slot.priority,
        schedule_name: slot.schedule_name.clone(),
        schedule_id: slot.schedule_id,
        dj_id: None,
        dj_name: None,
    }
}

proof fn lemma_run_starts_bounds(t: Seq<Option<TimelineSlot>>, n: int)
    ensures
        forall|i: int| 0 <= i < run_starts(t, n).len() ==>
            is_run_start(t, #[trigger] run_starts(t, n)[i]) && run_starts(t, n)[i] < n,
        forall|i: int, j: int| 0 <= i < j < run_starts(t, n).len() ==>
            run_starts(t, n)[i] < run_starts(t, n)[j],
    decreases n,
{
    if n > 0 {
        lemma_run_starts_bounds(t, n - 1);
        let prev = run_starts(t, n - 1);
        let cur = run_starts(t, n);
        if is_run_start(t, n - 1) {
            assert(cur == prev.push(n - 1));
            assert forall|i: int| 0 <= i < cur.len() implies
                is_run_start(t, #[trigger] cur[i]) && cur[i] < n by {
                if i < prev.len() {
                    assert(cur[i] == prev[i]);
                }
            }
            assert forall|i: int, j: int| 0 <= i < j < cur.len() implies cur[i] < cur[j] by {
                assert(cur[i] == prev[i]);
                if j < prev.len() {
                    assert(cur[j] == prev[j]);
                }
            }
        }
    }
}

/// A run that continues through `e - 1` and breaks at `e` ends at `e`.
proof fn lemma_scan_end_at(t: Seq<Option<TimelineSlot>>, s: int, from: int, e: int)
    requires
        0 <= s < t.len(),
        s < from <= e <= t.len(),
        t[s] is Some,
        forall|k: int| from <= k < e ==> (#[trigger] t[k]) is Some && slot_key(t[k]->0) == slot_key(t[s]->0),
        e == t.len() || t[e] is None || slot_key(t[e]->0) != slot_key(t[s]->0),
    ensures
        scan_end(t, s, from) == e,
    decreases e - from,
{
    if from < e {
        lemma_scan_end_at(t, s, from + 1, e);
    }
}

/// Collapses a minute timeline into contiguous blocks of identical minutes.
pub fn collapse_timeline(timeline: Vec<Option<TimelineSlot>>) -> (out: Vec<CollapsedBlock>)
    requires
        timeline@.len() <= MINUTES_PER_DAY,
    ensures
        collapses_to(timeline@, out@),
{
    let ghost t = timeline@;
    let n = timeline.len();
    let mut collapsed: Vec<CollapsedBlock> = Vec::new();
    let mut current: Option<(usize, TimelineSlot)> = None;
    let mut minute: usize = 0;
    while minute < n
        invariant
            t == timeline@,
            n == t.len(),
            n <= MINUTES_PER_DAY,
            minute <= n,
            match current {
                Some((s, slot)) => {
                    &&& run_starts(t, minute as int).len() == collapsed@.len() + 1
                    &&& run_starts(t, minute as int).last() == s as int
                    &&& s < minute
                    &&& t[s as int] == Some(slot)
                    &&& forall|k: int| s <= k < minute ==> (#[trigger] t[k]) is Some
                            && slot_key(t[k]->0) == slot_key(slot)
                },
                None => {
                    &&& run_starts(t, minute as int).len() == collapsed@.len()
                    &&& (minute == 0 || t[minute - 1] is None)
                },
            },
            forall|i: int| 0 <= i < collapsed@.len() ==> {
                let s = #[trigger] run_starts(t, minute as int)[i];
                collapsed_view(s, run_duration(t, s), t[s]->0, collapsed@[i])
            },
        decreases n - minute,
    {
        proof {
            lemma_run_starts_bounds(t, minute as int);
            lemma_run_starts_bounds(t, minute as int + 1);
            assert forall|i: int| 0 <= i < run_starts(t, minute as int).len() implies
                run_starts(t, minute as int + 1)[i] == run_starts(t, minute as int)[i] by {}
        }
        let ghost prev = collapsed@;
        let ghost prev_current = current;
        match (&timeline[minute], &current) {
            (Some(slot), Some((start_min, current_slot))) => {
                if slot.eq(current_slot) {
                    assert(!is_run_start(t, minute as int));
                    assert(run_starts(t, minute as int + 1) == run_starts(t, minute as int));
                } else {
                    let s = *start_min;
                    let duration = minute - s;
                    proof {
                        lemma_scan_end_at(t, s as int, s as int + 1, minute as int);
                    }
                    let b = create_collapsed_block(s, duration as i32, current_slot);
                    collapsed.push(b);
                    let ns = slot.clone_slot();
                    assert(is_run_start(t, minute as int));
                    current = Some((minute, ns));
                }
            },
            (Some(slot), None) => {
                assert(is_run_start(t, minute as int));
                current = Some((minute, slot.clone_slot()));
            },
            (None, Some((start_min, current_slot))) => {
                let s = *start_min;
                let duration = minute - s;
                proof {
                    lemma_scan_end_at(t, s as int, s as int + 1, minute as int);
                }
                let b = create_collapsed_block(s, duration as i32, current_slot);
                collapsed.push(b);
                current = None;
                assert(!is_run_start(t, minute as int));
            },
            (None, None) => {
                assert(!is_run_start(t, minute as int));
            },
        }
        proof {
            let t1 = run_starts(t, minute as int + 1);
            assert forall|i: int| 0 <= i < collapsed@.len() implies {
                let s = #[trigger] t1[i];
                collapsed_view(s, run_duration(t, s), t[s]->0, collapsed@[i])
            } by {
                if i < prev.len() {
                    assert(collapsed@[i] == prev[i]);
                }
            }
        }
        minute = minute + 1;
    }
    if let Some((start_min, current_slot)) = current {
        let duration = MINUTES_PER_DAY - start_min;
        proof {
            lemma_run_starts_bounds(t, n as int);
            lemma_scan_end_at(t, start_min as int, start_min as int + 1, n as int);
        }
        let ghost prev = collapsed@;
        let b = create_collapsed_block(start_min, duration as i32, &current_slot);
        collapsed.push(b);
        proof {
            let st = run_starts(t, n as int);
            assert forall|i: int| 0 <= i < collapsed@.len() implies
                collapsed_view(st[i], run_duration(t, st[i]), t[st[i]]->0, #[trigger] collapsed@[i]) by {
                if i < prev.len() {
                    assert(collapsed@[i] == prev[i]);
                }
            }
        }
    }
    collapsed
}

} // verus!

verus! {

// ---------------------------------------------------------------------------
// Timeline
// ---------------------------------------------------------------------------

impl Clone for ScheduleBlock {
    fn clone(&self) -> (r: Self)
        ensures
            r == *self,
    {
        ScheduleBlock { ..*self }
    }
}

impl Copy for ScheduleBlock {}

/// The priority a schedule has on a node: the node-level override, else its own.
pub open spec fn effective_priority(a: AssignedSchedule) -> i32 {
    match a.priority_override {
        Some(p) => p,
        None => a.schedule.priority,
    }
}

pub fn get_effective_priority(a: &AssignedSchedule) -> (p: i32)
    ensures
        p == effective_priority(*a),
{
    match a.priority_override {
        Some(p) => p,
        None => a.schedule.priority,
    }
}

/// Whether `b` is one of `sched`'s blocks for the local day `date` (whose weekday,
/// when the calendar knows it, is `weekday`).
pub open spec fn block_applies(sched: Schedule, b: ScheduleBlock, date: i32, weekday: Option<u32>) -> bool {
    &&& sched.id == Some(b.schedule_id)
    &&& {
        ||| (sched.schedule_type@ == "weekly"@ && weekday is Some
                && b.day_of_week == Some(weekday->0 as i32))
        ||| (sched.schedule_type@ == "one_off"@ && b.specific_date == Some(date))
    }
}

/// The blocks of `sched` for the day, in the order given.
pub open spec fn blocks_for_date(sched: Schedule, blocks: Seq<ScheduleBlock>, date: i32, weekday: Option<u32>) -> Seq<ScheduleBlock> {
    blocks.filter(|b: ScheduleBlock| block_applies(sched, b, date, weekday))
}

/// Block `b` covers minute `m` of its day.
pub open spec fn covers(b: ScheduleBlock, m: int) -> bool {
    b.start_time <= m * 60 < b.start_time + b.duration_minutes * 60
}

/// Block `b` can be evaluated without overflow or a missing id.
pub open spec fn block_well_formed(b: ScheduleBlock) -> bool {
    &&& b.id is Some
    &&& 0 <= b.duration_minutes
    &&& b.start_time + b.duration_minutes * 60 <= u32::MAX
}

/// `j` is the first block of `s` covering minute `m`.
pub open spec fn is_first_cover(s: Seq<ScheduleBlock>, m: int, j: int) -> bool {
    &&& 0 <= j < s.len()
    &&& covers(s[j], m)
    &&& forall|k: int| 0 <= k < j ==> !covers(#[trigger] s[k], m)
}

pub open spec fn has_cover(s: Seq<ScheduleBlock>, m: int) -> bool {
    exists|j: int| 0 <= j < s.len() && covers(#[trigger] s[j], m)
}

/// Blocks of the `i`-th assigned schedule for the day.
pub open spec fn sched_blocks(a: Seq<AssignedSchedule>, blocks: Seq<ScheduleBlock>, date: i32, wd: Option<u32>, i: int) -> Seq<ScheduleBlock> {
    blocks_for_date(a[i].schedule, blocks, date, wd)
}

/// Schedule `i` wins minute `m`: it has a block there, and every other schedule with
/// a block there has a lower effective priority or equal priority and comes later.
pub open spec fn is_winner(a: Seq<AssignedSchedule>, blocks: Seq<ScheduleBlock>, date: i32, wd: Option<u32>, i: int, m: int) -> bool {
    &&& 0 <= i < a.len()
    &&& has_cover(sched_blocks(a, blocks, date, wd, i), m)
    &&& forall|k: int| 0 <= k < a.len() && #[trigger] has_cover(sched_blocks(a, blocks, date, wd, k), m) ==>
            effective_priority(a[k]) < effective_priority(a[i])
            || (effective_priority(a[k]) == effective_priority(a[i]) && i <= k)
}

/// The slot contributed by block `b` of assigned schedule `a`.
pub open spec fn slot_of(a: AssignedSchedule, b: ScheduleBlock) -> TimelineSlot {
    TimelineSlot {
        content_id: b.content_id,
        script_id: b.script_id,
        priority: effective_priority(a),
        schedule_name: a.schedule.name,
        schedule_id: a.schedule.id->0,
        block_id: b.id->0,
    }
}

/// What minute `m` of the timeline holds.
pub open spec fn minute_holds(a: Seq<AssignedSchedule>, blocks: Seq<ScheduleBlock>, date: i32, wd: Option<u32>, m: int, slot: Option<TimelineSlot>) -> bool {
    match slot {
        None => forall|i: int| 0 <= i < a.len() ==> !#[trigger] has_cover(sched_blocks(a, blocks, date, wd, i), m),
        Some(s) => exists|i: int, j: int| #[trigger] is_winner(a, blocks, date, wd, i, m)
            && #[trigger] is_first_cover(sched_blocks(a, blocks, date, wd, i), m, j)
            && s == slot_of(a[i], sched_blocks(a, blocks, date, wd, i)[j]),
    }
}

/// The inputs can be evaluated: every schedule has an id, and every block of the day
/// is well formed.
pub open spec fn timeline_inputs_ok(a: Seq<AssignedSchedule>, blocks: Seq<ScheduleBlock>, date: i32, wd: Option<u32>) -> bool {
    &&& forall|i: int| 0 <= i < a.len() ==> (#[trigger] a[i]).schedule.id is Some
    &&& forall|i: int, j: int| 0 <= i < a.len() && 0 <= j < sched_blocks(a, blocks, date, wd, i).len()
            ==> block_well_formed(#[trigger] sched_blocks(a, blocks, date, wd, i)[j])
}

/// The blocks of `schedule` for the local day `date`: weekly schedules by weekday
/// (0 = Monday), one-off schedules by date, any other kind none.
pub fn get_blocks_for_date(schedule: &Schedule, blocks: &[ScheduleBlock], date: i32, weekday: Option<u32>) -> (out: Vec<ScheduleBlock>)
    requires
        schedule.id is Some,
        weekday matches Some(w) ==> w < 7,
    ensures
        out@ == blocks_for_date(*schedule, blocks@, date, weekday),
{
    let sid = match schedule.id { Some(id) => id, None => 0 };
    let is_weekly = text::str_eq(schedule.schedule_type.as_str(), "weekly");
    let is_one_off = text::str_eq(schedule.schedule_type.as_str(), "one_off");
    let ghost pred = |b: ScheduleBlock| block_applies(*schedule, b, date, weekday);
    let mut out: Vec<ScheduleBlock> = Vec::new();
    let mut k: usize = 0;
    while k < blocks.len()
        invariant
            k <= blocks@.len(),
            schedule.id == Some(sid),
            is_weekly == (schedule.schedule_type@ == "weekly"@),
            is_one_off == (schedule.schedule_type@ == "one_off"@),
            weekday matches Some(w) ==> w < 7,
            out@ == blocks@.take(k as int).filter(pred),
            pred == (|b: ScheduleBlock| block_applies(*schedule, b, date, weekday)),
        decreases blocks@.len() - k,
    {
        let b = blocks[k];
        let day_ok = if is_weekly {
            match (weekday, b.day_of_week) {
                (Some(w), Some(d)) => d == w as i32,
                _ => false,
            }
        } else {
            false
        };
        let date_ok = if is_one_off {
            match b.specific_date {
                Some(d) => d == date,
                None => false,
            }
        } else {
            false
        };
        let applies = b.schedule_id == sid && (day_ok || date_ok);
        assert(b == blocks@[k as int]);
        assert(applies == block_applies(*schedule, b, date, weekday));
        proof {
            let s1 = blocks@.take(k as int + 1);
            assert(s1.drop_last() == blocks@.take(k as int));
            assert(s1.last() == b);
            assert(pred(b) == applies);
            reveal_with_fuel(Seq::<_>::filter, 1);
            assert(s1.filter(pred) == if pred(b) {
                blocks@.take(k as int).filter(pred).push(b)
            } else {
                blocks@.take(k as int).filter(pred)
            });
        }
        if applies {
            out.push(b);
        }
        k = k + 1;
    }
    assert(blocks@.take(blocks@.len() as int) == blocks@);
    out
}

/// First block of `s` covering minute `m`, if any.
fn first_cover(s: &[ScheduleBlock], m: u32) -> (r: Option<usize>)
    requires
        m < MINUTES_PER_DAY,
        forall|j: int| 0 <= j < s@.len() ==> block_well_formed(#[trigger] s@[j]),
    ensures
        r matches Some(j) ==> is_first_cover(s@, m as int, j as int),
        r is None ==> !has_cover(s@, m as int),
{
    let local_secs: u32 = m * 60;
    let mut j: usize = 0;
    while j < s.len()
        invariant
            j <= s@.len(),
            local_secs == m * 60,
            forall|k: int| 0 <= k < s@.len() ==> block_well_formed(#[trigger] s@[k]),
            forall|k: int| 0 <= k < j ==> !covers(#[trigger] s@[k], m as int),
        decreases s@.len() - j,
    {
        let b = s[j];
        assert(block_well_formed(s@[j as int]));
        let end_secs: u32 = b.start_time + (b.duration_minutes as u32) * 60;
        if local_secs >= b.start_time && local_secs < end_secs {
            return Some(j);
        }
        j = j + 1;
    }
    None
}

/// Paints the 1440 minutes of the local day: each minute gets the first block
/// covering it in the highest-priority schedule that has one (earlier schedules win
/// ties).
fn build_timeline(assigned: &[AssignedSchedule], blocks: &[ScheduleBlock], date: i32) -> (timeline: Vec<Option<TimelineSlot>>)
    requires
        timeline_inputs_ok(assigned@, blocks@, date, calendar::chrono_weekday(date)),
    ensures
        timeline@.len() == MINUTES_PER_DAY,
        forall|m: int| 0 <= m < MINUTES_PER_DAY ==>
            minute_holds(assigned@, blocks@, date, calendar::chrono_weekday(date), m, #[trigger] timeline@[m]),
{
    let weekday = calendar::weekday_from_monday(date);
    let ghost wd = weekday;
    let ghost a = assigned@;
    let n = assigned.len();
    // The day's blocks of each schedule.
    let mut per: Vec<Vec<ScheduleBlock>> = Vec::new();
    let mut i: usize = 0;
    while i < n
        invariant
            n == a.len(),
            a == assigned@,
            wd == weekday,
            wd == calendar::chrono_weekday(date),
            weekday matches Some(w) ==> w < 7,
            i <= n,
            per@.len() == i,
            forall|k: int| 0 <= k < i ==> (#[trigger] per@[k])@ == sched_blocks(a, blocks@, date, wd, k),
            timeline_inputs_ok(a, blocks@, date, wd),
        decreases n - i,
    {
        assert(a[i as int].schedule.id is Some);
        let bs = get_blocks_for_date(&assigned[i].schedule, blocks, date, weekday);
        per.push(bs);
        i = i + 1;
    }
    let mut timeline: Vec<Option<TimelineSlot>> = Vec::new();
    let mut m: u32 = 0;
    while m < MINUTES_PER_DAY as u32
        invariant
            n == a.len(),
            a == assigned@,
            wd == calendar::chrono_weekday(date),
            per@.len() == n,
            forall|k: int| 0 <= k < n ==> (#[trigger] per@[k])@ == sched_blocks(a, blocks@, date, wd, k),
            timeline_inputs_ok(a, blocks@, date, wd),
            m <= MINUTES_PER_DAY,
            timeline@.len() == m,
            forall|x: int| 0 <= x < m ==> minute_holds(a, blocks@, date, wd, x, #[trigger] timeline@[x]),
        decreases MINUTES_PER_DAY - m,
    {
        let mut best: Option<(usize, usize)> = None;
        let mut best_p: i32 = 0;
        let mut k: usize = 0;
        while k < n
            invariant
                n == a.len(),
                a == assigned@,
                per@.len() == n,
                forall|q: int| 0 <= q < n ==> (#[trigger] per@[q])@ == sched_blocks(a, blocks@, date, wd, q),
                timeline_inputs_ok(a, blocks@, date, wd),
                m < MINUTES_PER_DAY,
                k <= n,
                match best {
                    None => forall|q: int| 0 <= q < k ==> !#[trigger] has_cover(sched_blocks(a, blocks@, date, wd, q), m as int),
                    Some((bi, bj)) => {
                        &&& bi < k
                        &&& best_p == effective_priority(a[bi as int])
                        &&& is_first_cover(sched_blocks(a, blocks@, date, wd, bi as int), m as int, bj as int)
                        &&& forall|q: int| 0 <= q < k && #[trigger] has_cover(sched_blocks(a, blocks@, date, wd, q), m as int) ==>
                                effective_priority(a[q]) < best_p
                                || (effective_priority(a[q]) == best_p && bi <= q)
                    },
                },
            decreases n - k,
        {
            assert(per@[k as int]@ == sched_blocks(a, blocks@, date, wd, k as int));
            assert forall|j: int| 0 <= j < per@[k as int]@.len() implies block_well_formed(#[trigger] per@[k as int]@[j]) by {
                assert(block_well_formed(sched_blocks(a, blocks@, date, wd, k as int)[j]));
            }
            let found = first_cover(per[k].as_slice(), m);
            let p = get_effective_priority(&assigned[k]);
            match found {
                Some(j) => {
                    let take = match best {
                        None => true,
                        Some(_) => p > best_p,
                    };
                    if take {
                        best = Some((k, j));
                        best_p = p;
                    }
                },
                None => {},
            }
            k = k + 1;
        }
        let slot = match best {
            None => None,
            Some((bi, bj)) => {
                let b = per[bi][bj];
                let s = &assigned[bi].schedule;
                proof {
                    assert(per@[bi as int]@ == sched_blocks(a, blocks@, date, wd, bi as int));
                    assert(block_well_formed(sched_blocks(a, blocks@, date, wd, bi as int)[bj as int]));
                    assert(a[bi as int].schedule.id is Some);
                }
                let block_id = match b.id { Some(x) => x, None => 0 };
                let schedule_id = match s.id { Some(x) => x, None => 0 };
                Some(TimelineSlot {
                    content_id: b.content_id,
                    script_id: b.script_id,
                    priority: best_p,
                    schedule_name: s.name.clone(),
                    schedule_id,
                    block_id,
                })
            },
        };
        proof {
            match best {
                None => {},
                Some((bi, bj)) => {
                    assert(is_winner(a, blocks@, date, wd, bi as int, m as int));
                    assert(is_first_cover(sched_blocks(a, blocks@, date, wd, bi as int), m as int, bj as int));
                },
            }
        }
        timeline.push(slot);
        m = m + 1;
    }
    timeline
}

} // verus!

verus! {

impl Schedule {
    pub fn clone_schedule(&self) -> (r: Self)
        ensures
            r == *self,
    {
        let description = match &self.description {
            Some(d) => Some(d.clone()),
            None => None,
        };
        Schedule {
            id: self.id,
            name: self.name.clone(),
            description,
            schedule_type: self.schedule_type.clone(),
            priority: self.priority,
            is_active: self.is_active,
            dj_id: self.dj_id,
        }
    }
}

impl AssignedSchedule {
    pub fn clone_assigned(&self) -> (r: Self)
        ensures
            r == *self,
    {
        AssignedSchedule { schedule: self.schedule.clone_schedule(), priority_override: self.priority_override }
    }
}

/// The assigned schedules that are active, in the order given.
pub open spec fn active_schedules(a: Seq<AssignedSchedule>) -> Seq<AssignedSchedule> {
    a.filter(|x: AssignedSchedule| x.schedule.is_active)
}

/// The content of each minute is determined: at most one slot satisfies `minute_holds`.
pub proof fn lemma_minute_holds_unique(
    a: Seq<AssignedSchedule>,
    blocks: Seq<ScheduleBlock>,
    date: i32,
    wd: Option<u32>,
    m: int,
    s1: Option<TimelineSlot>,
    s2: Option<TimelineSlot>,
)
    requires
        minute_holds(a, blocks, date, wd, m, s1),
        minute_holds(a, blocks, date, wd, m, s2),
    ensures
        s1 == s2,
{
    match (s1, s2) {
        (Some(x), Some(y)) => {
            let (i1, j1) = choose|i: int, j: int| #[trigger] is_winner(a, blocks, date, wd, i, m)
                && #[trigger] is_first_cover(sched_blocks(a, blocks, date, wd, i), m, j)
                && x == slot_of(a[i], sched_blocks(a, blocks, date, wd, i)[j]);
            let (i2, j2) = choose|i: int, j: int| #[trigger] is_winner(a, blocks, date, wd, i, m)
                && #[trigger] is_first_cover(sched_blocks(a, blocks, date, wd, i), m, j)
                && y == slot_of(a[i], sched_blocks(a, blocks, date, wd, i)[j]);
            assert(has_cover(sched_blocks(a, blocks, date, wd, i1), m));
            assert(has_cover(sched_blocks(a, blocks, date, wd, i2), m));
            assert(i1 == i2);
            let s = sched_blocks(a, blocks, date, wd, i1);
            if j1 < j2 {
                assert(!covers(s[j1], m));
            } else if j2 < j1 {
                assert(!covers(s[j2], m));
            }
        },
        (Some(x), None) => {
            let (i1, j1) = choose|i: int, j: int| #[trigger] is_winner(a, blocks, date, wd, i, m)
                && #[trigger] is_first_cover(sched_blocks(a, blocks, date, wd, i), m, j)
                && x == slot_of(a[i], sched_blocks(a, blocks, date, wd, i)[j]);
            assert(has_cover(sched_blocks(a, blocks, date, wd, i1), m));
        },
        (None, Some(y)) => {
            let (i2, j2) = choose|i: int, j: int| #[trigger] is_winner(a, blocks, date, wd, i, m)
                && #[trigger] is_first_cover(sched_blocks(a, blocks, date, wd, i), m, j)
                && y == slot_of(a[i], sched_blocks(a, blocks, date, wd, i)[j]);
            assert(has_cover(sched_blocks(a, blocks, date, wd, i2), m));
        },
        (None, None) => {},
    }
}

/// The timeline of the local day `date` for the assigned schedules `a`.
pub open spec fn day_timeline(a: Seq<AssignedSchedule>, blocks: Seq<ScheduleBlock>, date: i32) -> Seq<Option<TimelineSlot>> {
    Seq::new(MINUTES_PER_DAY as nat, |m: int|
        choose|s: Option<TimelineSlot>| minute_holds(a, blocks, date, calendar::chrono_weekday(date), m, s))
}

/// The schedules of `assigned` that are active, in order.
fn active_of(assigned: &[AssignedSchedule]) -> (active: Vec<AssignedSchedule>)
    ensures
        active@ == active_schedules(assigned@),
{
    let ghost pred = |x: AssignedSchedule| x.schedule.is_active;
    let mut active: Vec<AssignedSchedule> = Vec::new();
    let mut k: usize = 0;
    while k < assigned.len()
        invariant
            k <= assigned@.len(),
            active@ == assigned@.take(k as int).filter(pred),
            pred == (|x: AssignedSchedule| x.schedule.is_active),
        decreases assigned@.len() - k,
    {
        proof {
            let s1 = assigned@.take(k as int + 1);
            assert(s1.drop_last() == assigned@.take(k as int));
            assert(s1.last() == assigned@[k as int]);
            reveal_with_fuel(Seq::<_>::filter, 1);
        }
        if assigned[k].schedule.is_active {
            active.push(assigned[k].clone_assigned());
        }
        k = k + 1;
    }
    assert(assigned@.take(assigned@.len() as int) == assigned@);
    active
}

/// Builds and collapses the timeline of schedules that are all to be layered.
fn collapse_layers(a: &[AssignedSchedule], blocks: &[ScheduleBlock], date: i32) -> (out: Vec<CollapsedBlock>)
    requires
        timeline_inputs_ok(a@, blocks@, date, calendar::chrono_weekday(date)),
    ensures
        collapses_to(day_timeline(a@, blocks@, date), out@),
{
    let timeline = build_timeline(a, blocks, date);
    proof {
        let wd = calendar::chrono_weekday(date);
        let expected = day_timeline(a@, blocks@, date);
        assert forall|m: int| 0 <= m < MINUTES_PER_DAY implies timeline@[m] == expected[m] by {
            assert(minute_holds(a@, blocks@, date, wd, m, timeline@[m]));
            let c = choose|s: Option<TimelineSlot>| minute_holds(a@, blocks@, date, wd, m, s);
            lemma_minute_holds_unique(a@, blocks@, date, wd, m, timeline@[m], c);
        }
        assert(timeline@ =~= expected);
    }
    collapse_timeline(timeline)
}

/// The collapsed schedule of a node for the local day `date`: the active schedules
/// assigned to it are layered by effective priority and the resulting minute timeline
/// is collapsed into blocks.
pub fn calculate_collapsed_schedule(assigned: &[AssignedSchedule], blocks: &[ScheduleBlock], date: i32) -> (out: Vec<CollapsedBlock>)
    requires
        timeline_inputs_ok(active_schedules(assigned@), blocks@, date, calendar::chrono_weekday(date)),
    ensures
        collapses_to(day_timeline(active_schedules(assigned@), blocks@, date), out@),
{
    let active = active_of(assigned);
    collapse_layers(active.as_slice(), blocks, date)
}

fn well_formed_block(b: &ScheduleBlock) -> (r: bool)
    ensures
        r == block_well_formed(*b),
{
    b.id.is_some() && b.duration_minutes >= 0 && (b.start_time as u64) + (b.duration_minutes as u64)
        * 60 <= u32::MAX as u64
}

/// Whether the schedules and the day's blocks can be layered: every schedule
/// has an id and every block of the day is well formed.
fn inputs_ok(a: &[AssignedSchedule], blocks: &[ScheduleBlock], date: i32, weekday: Option<u32>) -> (r: bool)
    requires
        weekday matches Some(w) ==> w < 7,
    ensures
        r == timeline_inputs_ok(a@, blocks@, date, weekday),
{
    let mut i: usize = 0;
    while i < a.len()
        invariant
            i <= a@.len(),
            weekday matches Some(w) ==> w < 7,
            forall|k: int| 0 <= k < i ==> (#[trigger] a@[k]).schedule.id is Some,
            forall|k: int, j: int| 0 <= k < i && 0 <= j < sched_blocks(a@, blocks@, date, weekday, k).len()
                ==> block_well_formed(#[trigger] sched_blocks(a@, blocks@, date, weekday, k)[j]),
        decreases a@.len() - i,
    {
        if a[i].schedule.id.is_none() {
            return false;
        }
        let bs = get_blocks_for_date(&a[i].schedule, blocks, date, weekday);
        let mut j: usize = 0;
        while j < bs.len()
            invariant
                j <= bs@.len(),
                i < a@.len(),
                bs@ == sched_blocks(a@, blocks@, date, weekday, i as int),
                forall|q: int| 0 <= q < j ==> block_well_formed(#[trigger] bs@[q]),
            decreases bs@.len() - j,
        {
            if !well_formed_block(&bs[j]) {
                assert(!block_well_formed(sched_blocks(a@, blocks@, date, weekday, i as int)[j as int]));
                return false;
            }
            j = j + 1;
        }
        i = i + 1;
    }
    true
}

/// The collapsed schedule of a node for the local day `date`, or `None` when a
/// schedule lacks an id or a block of the day has a negative length or ends
/// past what a day's seconds can count.
pub fn node_collapsed_schedule(assigned: &[AssignedSchedule], blocks: &[ScheduleBlock], date: i32) -> (r: Option<Vec<CollapsedBlock>>)
    ensures
        r is Some <==> timeline_inputs_ok(active_schedules(assigned@), blocks@, date, calendar::chrono_weekday(date)),
        r matches Some(out) ==> collapses_to(day_timeline(active_schedules(assigned@), blocks@, date), out@),
{
    let weekday = calendar::weekday_from_monday(date);
    let active = active_of(assigned);
    if !inputs_ok(active.as_slice(), blocks, date, weekday) {
        return None;
    }
    Some(calculate_collapsed_schedule(assigned, blocks, date))
}

} // verus!

verus! {

proof fn lemma_in_run_starts(t: Seq<Option<TimelineSlot>>, n: int, s: int)
    requires
        is_run_start(t, s),
        s < n,
    ensures
        exists|i: int| 0 <= i < run_starts(t, n).len() && #[trigger] run_starts(t, n)[i] == s,
    decreases n,
{
    if n - 1 == s {
        assert(is_run_start(t, n - 1));
        assert(run_starts(t, n) == run_starts(t, n - 1).push(s));
        let i = run_starts(t, n).len() - 1;
        assert(run_starts(t, n)[i] == s);
    } else {
        lemma_in_run_starts(t, n - 1, s);
        let i = choose|i: int| 0 <= i < run_starts(t, n - 1).len() && #[trigger] run_starts(t, n - 1)[i] == s;
        if is_run_start(t, n - 1) {
            assert(run_starts(t, n) == run_starts(t, n - 1).push(n - 1));
            assert(run_starts(t, n)[i] == run_starts(t, n - 1)[i]);
        } else {
            assert(run_starts(t, n) == run_starts(t, n - 1));
        }
        assert(run_starts(t, n)[i] == s);
    }
}

proof fn lemma_scan_end_ge(t: Seq<Option<TimelineSlot>>, s: int, e: int)
    requires
        0 <= e <= t.len(),
    ensures
        e <= scan_end(t, s, e) <= t.len(),
    decreases t.len() - e,
{
    if e < t.len() {
        lemma_scan_end_ge(t, s, e + 1);
    }
}

proof fn lemma_scan_end_beyond(t: Seq<Option<TimelineSlot>>, s: int, e: int, m: int)
    requires
        0 <= s < t.len(),
        0 <= e <= m < t.len(),
        forall|k: int| e <= k <= m ==> (#[trigger] t[k]) is Some && slot_key(t[k]->0) == slot_key(t[s]->0),
    ensures
        scan_end(t, s, e) > m,
    decreases m - e,
{
    if e < m {
        lemma_scan_end_beyond(t, s, e + 1, m);
    } else {
        lemma_scan_end_ge(t, s, e + 1);
    }
}

proof fn lemma_scan_end_within(t: Seq<Option<TimelineSlot>>, s: int, e: int, m: int)
    requires
        0 <= s < t.len(),
        0 <= e <= m < t.len(),
        t[m] is None || slot_key(t[m]->0) != slot_key(t[s]->0),
    ensures
        scan_end(t, s, e) <= m,
    decreases m - e,
{
    if e < m {
        lemma_scan_end_within(t, s, e + 1, m);
    }
}

proof fn lemma_run_start_of(t: Seq<Option<TimelineSlot>>, m: int) -> (s: int)
    requires
        0 <= m < t.len(),
        t[m] is Some,
    ensures
        is_run_start(t, s),
        s <= m,
        forall|k: int| s <= k <= m ==> (#[trigger] t[k]) is Some && slot_key(t[k]->0) == slot_key(t[s]->0),
    decreases m,
{
    if is_run_start(t, m) {
        m
    } else {
        let s = lemma_run_start_of(t, m - 1);
        s
    }
}

/// Minute `m` lies inside the `i`-th run of `t`.
pub open spec fn in_run(t: Seq<Option<TimelineSlot>>, i: int, m: int) -> bool {
    let starts = run_starts(t, t.len() as int);
    0 <= i < starts.len() && starts[i] <= m < starts[i] + run_duration(t, starts[i])
}

/// Collapsing loses nothing: a minute of the timeline is occupied exactly when it lies
/// inside one of the collapsed runs, and it then holds the same block as the run's
/// first minute.
pub proof fn lemma_collapse_lossless(t: Seq<Option<TimelineSlot>>, m: int)
    requires
        t.len() <= MINUTES_PER_DAY,
        0 <= m < t.len(),
    ensures
        t[m] is Some <==> exists|i: int| #[trigger] in_run(t, i, m),
        forall|i: int| #[trigger] in_run(t, i, m) ==>
            slot_key(t[m]->0) == slot_key(t[run_starts(t, t.len() as int)[i]]->0),
{
    let n = t.len() as int;
    let starts = run_starts(t, n);
    lemma_run_starts_bounds(t, n);
    if t[m] is Some {
        let s = lemma_run_start_of(t, m);
        lemma_in_run_starts(t, n, s);
        let i = choose|i: int| 0 <= i < starts.len() && #[trigger] starts[i] == s;
        if s < m {
            lemma_scan_end_beyond(t, s, s + 1, m);
        } else {
            lemma_scan_end_ge(t, s, s + 1);
        }
        assert(in_run(t, i, m));
    }
    assert forall|i: int| #[trigger] in_run(t, i, m) implies
        t[m] is Some && slot_key(t[m]->0) == slot_key(t[starts[i]]->0) by {
        let s = starts[i];
        assert(is_run_start(t, s));
        if s < m && (t[m] is None || slot_key(t[m]->0) != slot_key(t[s]->0)) {
            lemma_scan_end_within(t, s, s + 1, m);
        }
    }
}

/// Layering honours priority: an occupied minute carries the effective priority of
/// the schedule it comes from, no schedule with a block at that minute has a higher
/// one, and a minute is free exactly when no schedule has a block there.
pub proof fn lemma_timeline_priority(a: Seq<AssignedSchedule>, blocks: Seq<ScheduleBlock>, date: i32, wd: Option<u32>, m: int, slot: Option<TimelineSlot>)
    requires
        minute_holds(a, blocks, date, wd, m, slot),
    ensures
        slot is None <==> forall|k: int| 0 <= k < a.len() ==> !#[trigger] has_cover(sched_blocks(a, blocks, date, wd, k), m),
        slot matches Some(s) ==> forall|k: int| 0 <= k < a.len() && #[trigger] has_cover(sched_blocks(a, blocks, date, wd, k), m)
            ==> effective_priority(a[k]) <= s.priority,
        slot matches Some(s) ==> exists|k: int| 0 <= k < a.len() && #[trigger] has_cover(sched_blocks(a, blocks, date, wd, k), m)
            && effective_priority(a[k]) == s.priority && a[k].schedule.name == s.schedule_name,
{
    if let Some(s) = slot {
        let (i, j) = choose|i: int, j: int| #[trigger] is_winner(a, blocks, date, wd, i, m)
            && #[trigger] is_first_cover(sched_blocks(a, blocks, date, wd, i), m, j)
            && s == slot_of(a[i], sched_blocks(a, blocks, date, wd, i)[j]);
        let sb = sched_blocks(a, blocks, date, wd, i);
        assert(has_cover(sb, m));
    }
}


/// A collapsed block never spans two schedule blocks: every minute inside the
/// `i`-th collapsed block (from its start for its duration, within the day's
/// timeline) is occupied and holds the same block id, content and script as
/// the minute it starts at.
pub proof fn lemma_collapsed_block_is_one_block(t: Seq<Option<TimelineSlot>>, out: Seq<CollapsedBlock>, i: int, m: int)
    requires
        t.len() <= MINUTES_PER_DAY,
        collapses_to(t, out),
        0 <= i < out.len(),
        0 <= m < t.len(),
        run_starts(t, t.len() as int)[i] <= m < run_starts(t, t.len() as int)[i] + out[i].duration_minutes,
    ensures
        ({
            let s = run_starts(t, t.len() as int)[i];
            &&& out[i].start_time@ == time_label(s)
            &&& t[s] is Some && t[m] is Some
            &&& t[m]->0.block_id == t[s]->0.block_id
            &&& t[m]->0.content_id == t[s]->0.content_id
            &&& t[m]->0.script_id == t[s]->0.script_id
        }),
{
    let starts = run_starts(t, t.len() as int);
    lemma_run_starts_bounds(t, t.len() as int);
    assert(collapsed_view(starts[i], run_duration(t, starts[i]), t[starts[i]]->0, out[i]));
    assert(in_run(t, i, m));
    lemma_collapse_lossless(t, m);
}

/// Where the block changes from one minute to the next, a new collapsed block
/// starts: if minutes `m - 1` and `m` hold different block ids, some collapsed
/// block starts at `m`.
pub proof fn lemma_block_change_starts_collapsed_block(t: Seq<Option<TimelineSlot>>, out: Seq<CollapsedBlock>, m: int)
    requires
        t.len() <= MINUTES_PER_DAY,
        collapses_to(t, out),
        0 < m < t.len(),
        t[m] is Some,
        t[m - 1] is Some,
        t[m]->0.block_id != t[m - 1]->0.block_id,
    ensures
        exists|i: int| 0 <= i < out.len() && #[trigger] out[i].start_time@ == time_label(m),
{
    let n = t.len() as int;
    assert(is_run_start(t, m));
    lemma_in_run_starts(t, n, m);
    let i = choose|i: int| 0 <= i < run_starts(t, n).len() && #[trigger] run_starts(t, n)[i] == m;
    assert(collapsed_view(run_starts(t, n)[i], run_duration(t, run_starts(t, n)[i]), t[run_starts(t, n)[i]]->0, out[i]));
    assert(out[i].start_time@ == time_label(m));
}

} // verus!
