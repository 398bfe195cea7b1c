//! Which schedule block is on air right now: for a DJ's context scripts and for the
//! DJ scheduler. Dates are day numbers, times seconds from midnight.
use vstd::prelude::*;
use crate::calendar;
use crate::models::DjProfile;
use crate::schedule::{Schedule, ScheduleBlock};
use crate::text;
use crate::timing::{self, block_span_ok, time_match, remaining_minutes};
use crate::blocks::{ordered_by_priority, priority_order};

verus! {

/// A block joined with its schedule.
pub struct BlockWithSchedule {
    pub block: ScheduleBlock,
    pub schedule: Schedule,
}

/// The block is assigned to DJ `dj`: by the block itself, or, when the block names no
/// DJ, by its schedule.
pub open spec fn assigned_to_dj(p: BlockWithSchedule, dj: i32) -> bool {
    p.block.dj_id == Some(dj) || (p.block.dj_id is None && p.schedule.dj_id == Some(dj))
}

/// The weekday (0 = Monday) the calendar gives `d`, as the block fields store it.
pub open spec fn weekday_field(d: i32) -> Option<i32> {
    match calendar::chrono_weekday(d) {
        Some(w) => Some(w as i32),
        None => None,
    }
}

/// The day offset (0 = today, 1 = yesterday) at which block `p` is on air at `now`,
/// for a DJ context lookup on `date`.
pub open spec fn context_offset(p: BlockWithSchedule, date: i32, now: u32) -> Option<i32> {
    let today = weekday_field(date);
    let yesterday = weekday_field((date - 1) as i32);
    let b = p.block;
    if p.schedule.schedule_type@ == "weekly"@ {
        if today is Some && b.day_of_week == today {
            if time_match(b.start_time, b.duration_minutes, now, 0) { Some(0i32) } else { None }
        } else if yesterday is Some && b.day_of_week == yesterday {
            if time_match(b.start_time, b.duration_minutes, now, 1) { Some(1i32) } else { None }
        } else {
            None
        }
    } else if p.schedule.schedule_type@ == "one_off"@ {
        if b.specific_date == Some(date) {
            if time_match(b.start_time, b.duration_minutes, now, 0) { Some(0i32) } else { None }
        } else if b.specific_date == Some((date - 1) as i32) {
            if time_match(b.start_time, b.duration_minutes, now, 1) { Some(1i32) } else { None }
        } else {
            None
        }
    } else {
        None
    }
}

/// `p` is an on-air candidate for DJ `dj`: active schedule, the DJ's block, today's or
/// yesterday's, and on air now.
pub open spec fn context_active(p: BlockWithSchedule, dj: i32, date: i32, now: u32) -> bool {
    &&& p.schedule.is_active
    &&& assigned_to_dj(p, dj)
    &&& context_offset(p, date, now) is Some
}

/// Offset used for the minutes left: yesterday's when the block is yesterday's by
/// weekday or by date.
pub open spec fn remaining_offset(p: BlockWithSchedule, date: i32) -> i32 {
    let yesterday = weekday_field((date - 1) as i32);
    if (yesterday is Some && p.block.day_of_week == yesterday) || p.block.specific_date == Some((date - 1) as i32) { 1 } else { 0 }
}

/// Where the DJ's current block is found, and how many minutes it has left.
pub struct ContextBlock {
    pub index: usize,
    pub remaining_minutes: i32,
}

/// Every block of the DJ's active schedules can be evaluated without overflow.
pub open spec fn context_inputs_ok(pairs: Seq<BlockWithSchedule>, dj: i32) -> bool {
    forall|i: int| 0 <= i < pairs.len() && (#[trigger] pairs[i]).schedule.is_active && assigned_to_dj(pairs[i], dj)
        ==> block_span_ok(pairs[i].block.start_time, pairs[i].block.duration_minutes)
}

/// The first of the DJ's blocks (in the order given) on air at `now` on `date`, with
/// the whole minutes it has left.
pub fn find_context_block(pairs: &[BlockWithSchedule], dj: i32, date: i32, now: u32) -> (r: Option<ContextBlock>)
    requires
        date > i32::MIN,
        now < timing::SECS_PER_DAY,
        context_inputs_ok(pairs@, dj),
    ensures
        r is None ==> forall|i: int| 0 <= i < pairs@.len() ==> !context_active(#[trigger] pairs@[i], dj, date, now),
        r matches Some(c) ==> {
            &&& c.index < pairs@.len()
            &&& context_active(pairs@[c.index as int], dj, date, now)
            &&& forall|i: int| 0 <= i < c.index ==> !context_active(#[trigger] pairs@[i], dj, date, now)
            &&& c.remaining_minutes == remaining_minutes(pairs@[c.index as int].block.start_time,
                    pairs@[c.index as int].block.duration_minutes, now, remaining_offset(pairs@[c.index as int], date))
        },
{
    let yesterday_date: i32 = date - 1;
    let today_w = calendar::weekday_from_monday(date);
    let yesterday_w = calendar::weekday_from_monday(yesterday_date);
    let today = match today_w { Some(w) => Some(w as i32), None => None };
    let yesterday = match yesterday_w { Some(w) => Some(w as i32), None => None };
    assert(today == weekday_field(date));
    assert(yesterday == weekday_field(yesterday_date));
    let mut i: usize = 0;
    while i < pairs.len()
        invariant
            i <= pairs@.len(),
            yesterday_date == date - 1,
            now < timing::SECS_PER_DAY,
            today == weekday_field(date),
            yesterday == weekday_field(yesterday_date),
            context_inputs_ok(pairs@, dj),
            forall|q: int| 0 <= q < i ==> !context_active(#[trigger] pairs@[q], dj, date, now),
        decreases pairs@.len() - i,
    {
        let p = &pairs[i];
        let b = p.block;
        let dj_ok = match b.dj_id {
            Some(d) => d == dj,
            None => match p.schedule.dj_id {
                Some(d) => d == dj,
                None => false,
            },
        };
        if p.schedule.is_active && dj_ok {
            assert(block_span_ok(b.start_time, b.duration_minutes));
            let weekly = text::str_eq(p.schedule.schedule_type.as_str(), "weekly");
            let one_off = text::str_eq(p.schedule.schedule_type.as_str(), "one_off");
            let today_dow = match (today, b.day_of_week) { (Some(x), Some(y)) => x == y, _ => false };
            let yesterday_dow = match (yesterday, b.day_of_week) { (Some(x), Some(y)) => x == y, _ => false };
            let today_date = match b.specific_date { Some(d) => d == date, None => false };
            let yesterday_date_match = match b.specific_date { Some(d) => d == yesterday_date, None => false };
            let is_match = if weekly {
                if today_dow {
                    timing::is_time_match(b.start_time, b.duration_minutes, now, 0)
                } else if yesterday_dow {
                    timing::is_time_match(b.start_time, b.duration_minutes, now, 1)
                } else {
                    false
                }
            } else if one_off {
                if today_date {
                    timing::is_time_match(b.start_time, b.duration_minutes, now, 0)
                } else if yesterday_date_match {
                    timing::is_time_match(b.start_time, b.duration_minutes, now, 1)
                } else {
                    false
                }
            } else {
                false
            };
            assert(is_match == context_offset(pairs@[i as int], date, now) is Some);
            if is_match {
                let offset: i32 = if yesterday_dow || yesterday_date_match { 1 } else { 0 };
                let rem = timing::calculate_remaining_minutes(b.start_time, b.duration_minutes, now, offset);
                return Some(ContextBlock { index: i, remaining_minutes: rem });
            }
        }
        i = i + 1;
    }
    None
}

// ---------------------------------------------------------------------------
// The DJ scheduler's view: which schedule is on air now
// ---------------------------------------------------------------------------

/// The block is on air at `now` on `date` (whose weekday is `dow`): it is for this
/// date, or (without a date) for this weekday, and `now` lies in `[start, end)`.
pub open spec fn on_air(b: ScheduleBlock, date: i32, dow: Option<i32>, now: u32) -> bool {
    let day = match b.specific_date {
        Some(d) => d == date,
        None => match b.day_of_week {
            Some(w) => dow == Some(w),
            None => false,
        },
    };
    day && b.start_time <= now < b.start_time + b.duration_minutes * 60
}

/// Blocks of schedule `s` (by id), in the order given.
pub open spec fn blocks_of(s: Schedule, blocks: Seq<ScheduleBlock>) -> Seq<ScheduleBlock> {
    blocks.filter(|b: ScheduleBlock| s.id == Some(b.schedule_id))
}

pub open spec fn has_on_air(s: Schedule, blocks: Seq<ScheduleBlock>, date: i32, dow: Option<i32>, now: u32) -> bool {
    exists|j: int| 0 <= j < blocks.len() && s.id == Some(blocks[j].schedule_id) && on_air(#[trigger] blocks[j], date, dow, now)
}

/// The on-air schedule and block the DJ scheduler picks.
pub struct OnAir {
    /// Index of the schedule.
    pub schedule: usize,
    /// Index of the block (into all blocks).
    pub block: usize,
    /// Whole minutes until the block ends.
    pub remaining_minutes: i64,
}

/// Blocks with an id can be evaluated without overflow.
pub open spec fn on_air_inputs_ok(blocks: Seq<ScheduleBlock>) -> bool {
    forall|j: int| 0 <= j < blocks.len() ==> block_span_ok((#[trigger] blocks[j]).start_time, blocks[j].duration_minutes)
}

/// `o` is the pick: its block belongs to its schedule and is that schedule's first
/// block on air; no schedule with a block on air has a higher priority, and none
/// before it has the same; the minutes left are counted to the block's end.
pub open spec fn on_air_choice(schedules: Seq<Schedule>, blocks: Seq<ScheduleBlock>, date: i32, now: u32, o: OnAir) -> bool {
    let dow = weekday_field(date);
    &&& o.schedule < schedules.len()
    &&& o.block < blocks.len()
    &&& schedules[o.schedule as int].id == Some(blocks[o.block as int].schedule_id)
    &&& on_air(blocks[o.block as int], date, dow, now)
    &&& forall|j: int| 0 <= j < o.block && schedules[o.schedule as int].id == Some(blocks[j].schedule_id)
            ==> !on_air(#[trigger] blocks[j], date, dow, now)
    &&& forall|i: int| 0 <= i < schedules.len() && #[trigger] has_on_air(schedules[i], blocks, date, dow, now) ==>
            schedules[i].priority < schedules[o.schedule as int].priority
            || (schedules[i].priority == schedules[o.schedule as int].priority && o.schedule <= i)
    &&& o.remaining_minutes == (blocks[o.block as int].start_time + blocks[o.block as int].duration_minutes * 60 - now) / 60
}

/// Cascades through the active schedules by descending priority (earlier ones first
/// among equals) and picks the first schedule with a block on air now, and that
/// schedule's first such block.
pub fn find_on_air(schedules: &[Schedule], blocks: &[ScheduleBlock], date: i32, now: u32) -> (r: Option<OnAir>)
    requires
        on_air_inputs_ok(blocks@),
    ensures
        r is None ==> forall|i: int| 0 <= i < schedules@.len()
            ==> !has_on_air(#[trigger] schedules@[i], blocks@, date, weekday_field(date), now),
        r matches Some(o) ==> on_air_choice(schedules@, blocks@, date, now, o),
{
    let w = calendar::weekday_from_monday(date);
    let dow = match w { Some(x) => Some(x as i32), None => None };
    let ghost d = weekday_field(date);
    assert(dow == d);
    let mut prios: Vec<i64> = Vec::new();
    let mut k: usize = 0;
    while k < schedules.len()
        invariant
            k <= schedules@.len(),
            prios@.len() == k,
            forall|q: int| 0 <= q < k ==> #[trigger] prios@[q] == schedules@[q].priority,
        decreases schedules@.len() - k,
    {
        prios.push(schedules[k].priority as i64);
        k = k + 1;
    }
    let order = priority_order(prios.as_slice());
    let mut u: usize = 0;
    while u < order.len()
        invariant
            ordered_by_priority(prios@, order@),
            prios@.len() == schedules@.len(),
            forall|q: int| 0 <= q < schedules@.len() ==> #[trigger] prios@[q] == schedules@[q].priority,
            dow == d,
            d == weekday_field(date),
            on_air_inputs_ok(blocks@),
            u <= order@.len(),
            forall|v: int| 0 <= v < u ==> !has_on_air(#[trigger] schedules@[order@[v] as int], blocks@, date, d, now),
        decreases order@.len() - u,
    {
        let si = order[u];
        let sid = schedules[si].id;
        let mut j: usize = 0;
        while j < blocks.len()
            invariant
                j <= blocks@.len(),
                ordered_by_priority(prios@, order@),
                prios@.len() == schedules@.len(),
                forall|q: int| 0 <= q < schedules@.len() ==> #[trigger] prios@[q] == schedules@[q].priority,
                u < order@.len(),
                si == order@[u as int],
                forall|v: int| 0 <= v < u ==> !has_on_air(#[trigger] schedules@[order@[v] as int], blocks@, date, d, now),
                si < schedules@.len(),
                sid == schedules@[si as int].id,
                dow == d,
                d == weekday_field(date),
                on_air_inputs_ok(blocks@),
                forall|q: int| 0 <= q < j && sid == Some(blocks@[q].schedule_id) ==> !on_air(#[trigger] blocks@[q], date, d, now),
            decreases blocks@.len() - j,
        {
            let b = blocks[j];
            assert(b == blocks@[j as int]);
            let mine = match sid { Some(x) => x == b.schedule_id, None => false };
            if mine {
                let day = match b.specific_date {
                    Some(x) => x == date,
                    None => match (b.day_of_week, dow) {
                        (Some(x), Some(y)) => x == y,
                        _ => false,
                    },
                };
                assert(block_span_ok(b.start_time, b.duration_minutes));
                let end: u32 = b.start_time + (b.duration_minutes as u32) * 60;
                if day && now >= b.start_time && now < end {
                    proof {
                        assert forall|i: int| 0 <= i < schedules@.len() && #[trigger] has_on_air(schedules@[i], blocks@, date, d, now) implies
                            schedules@[i].priority < schedules@[si as int].priority
                            || (schedules@[i].priority == schedules@[si as int].priority && si <= i) by {
                            // `i` appears somewhere in the order; it is not before `u`.
                            assert(crate::blocks::lists(order@, i));
                            let v = choose|v: int| 0 <= v < order@.len() && #[trigger] order@[v] == i;
                            if v < u {
                                assert(!has_on_air(schedules@[order@[v] as int], blocks@, date, d, now));
                            } else if v > u {
                                assert(prios@[order@[u as int] as int] > prios@[order@[v] as int]
                                    || (prios@[order@[u as int] as int] == prios@[order@[v] as int] && order@[u as int] < order@[v]));
                            }
                        }
                    }
                    let rem: i64 = ((end - now) / 60) as i64;
                    let o = OnAir { schedule: si, block: j, remaining_minutes: rem };
                    assert(on_air_choice(schedules@, blocks@, date, now, o));
                    return Some(o);
                }
            }
            j = j + 1;
        }
        u = u + 1;
    }
    proof {
        assert forall|i: int| 0 <= i < schedules@.len() implies !has_on_air(#[trigger] schedules@[i], blocks@, date, d, now) by {
            assert(crate::blocks::lists(order@, i));
            let v = choose|v: int| 0 <= v < order@.len() && #[trigger] order@[v] == i;
            assert(!has_on_air(schedules@[order@[v] as int], blocks@, date, d, now));
        }
    }
    None
}

/// A block of an active schedule that starts later on `date` than `now`: a
/// weekly block on that weekday or a one-off block on that date.
pub open spec fn later_today(p: BlockWithSchedule, date: i32, now: u32) -> bool {
    &&& p.schedule.is_active
    &&& p.block.start_time > now
    &&& {
        ||| (p.schedule.schedule_type@ == "weekly"@ && weekday_field(date) is Some
            && p.block.day_of_week == weekday_field(date))
        ||| (p.schedule.schedule_type@ == "one_off"@ && p.block.specific_date == Some(date))
    }
}

/// The next blocks told to a DJ: up to five of all schedules' blocks later on
/// `date` than `now`, by start time (blocks starting together keep their
/// order).
pub fn upcoming_across(pairs: &[BlockWithSchedule], date: i32, now: u32) -> (r: Vec<usize>)
    ensures
        r@.len() <= 5,
        forall|u: int| 0 <= u < r@.len() ==> {
            let j = #[trigger] r@[u] as int;
            0 <= j < pairs@.len() && later_today(pairs@[j], date, now)
        },
        forall|u: int, v: int| 0 <= u < v < r@.len() ==>
            pairs@[r@[u] as int].block.start_time < pairs@[#[trigger] r@[v] as int].block.start_time
            || (pairs@[r@[u] as int].block.start_time == pairs@[r@[v] as int].block.start_time && #[trigger] r@[u] < r@[v]),
        // Nothing left out comes before the last one listed, and fewer than five
        // means none was left out.
        forall|j: int| 0 <= j < pairs@.len() && later_today(#[trigger] pairs@[j], date, now)
            && !r@.contains(j as usize) ==> r@.len() == 5
                && (pairs@[r@[4] as int].block.start_time < pairs@[j].block.start_time
                    || (pairs@[r@[4] as int].block.start_time == pairs@[j].block.start_time && r@[4] < j)),
{
    let w = calendar::weekday_from_monday(date);
    let dow = match w { Some(x) => Some(x as i32), None => None };
    assert(dow == weekday_field(date));
    let mut cand: Vec<usize> = Vec::new();
    let mut keys: Vec<i64> = Vec::new();
    let mut j: usize = 0;
    while j < pairs.len()
        invariant
            j <= pairs@.len(),
            dow == weekday_field(date),
            cand@.len() == keys@.len(),
            forall|u: int| 0 <= u < cand@.len() ==> {
                let q = #[trigger] cand@[u] as int;
                &&& 0 <= q < j
                &&& later_today(pairs@[q], date, now)
                &&& keys@[u] == -(pairs@[q].block.start_time as int)
            },
            forall|u: int, v: int| 0 <= u < v < cand@.len() ==> #[trigger] cand@[u] < #[trigger] cand@[v],
            forall|q: int| 0 <= q < j && later_today(#[trigger] pairs@[q], date, now) ==> cand@.contains(q as usize),
        decreases pairs@.len() - j,
    {
        let p = &pairs[j];
        let weekly = text::str_eq(p.schedule.schedule_type.as_str(), "weekly");
        let one_off = text::str_eq(p.schedule.schedule_type.as_str(), "one_off");
        let day = (weekly && dow.is_some() && p.block.day_of_week == dow) || (one_off && p.block.specific_date == Some(date));
        if p.schedule.is_active && p.block.start_time > now && day {
            let ghost c0 = cand@;
            cand.push(j);
            keys.push(-(p.block.start_time as i64));
            proof {
                assert forall|q: int| 0 <= q < j + 1 && later_today(#[trigger] pairs@[q], date, now)
                    implies cand@.contains(q as usize) by {
                    if q < j {
                        assert(c0.contains(q as usize));
                        let u = choose|u: int| 0 <= u < c0.len() && c0[u] == q as usize;
                        assert(cand@[u] == q as usize);
                    } else {
                        assert(cand@[cand@.len() - 1] == q as usize);
                    }
                }
            }
        }
        j = j + 1;
    }
    let order = priority_order(keys.as_slice());
    let mut r: Vec<usize> = Vec::new();
    let mut u: usize = 0;
    while u < order.len() && u < 5
        invariant
            ordered_by_priority(keys@, order@),
            cand@.len() == keys@.len(),
            u <= order@.len(),
            u <= 5,
            r@.len() == u,
            forall|x: int| 0 <= x < u ==> #[trigger] r@[x] == cand@[order@[x] as int],
        decreases order@.len() - u,
    {
        r.push(cand[order[u]]);
        u = u + 1;
    }
    proof {
        assert forall|x: int, y: int| 0 <= x < y < r@.len() implies
            pairs@[r@[x] as int].block.start_time < pairs@[#[trigger] r@[y] as int].block.start_time
            || (pairs@[r@[x] as int].block.start_time == pairs@[r@[y] as int].block.start_time && #[trigger] r@[x] < r@[y]) by {
            let ox = order@[x] as int;
            let oy = order@[y] as int;
            assert(keys@[ox] > keys@[oy] || (keys@[ox] == keys@[oy] && ox < oy));
            assert(r@[x] == cand@[ox] && r@[y] == cand@[oy]);
            if ox < oy {
                assert(cand@[ox] < cand@[oy]);
            }
        }
        assert forall|q: int| 0 <= q < pairs@.len() && later_today(#[trigger] pairs@[q], date, now)
            && !r@.contains(q as usize) implies r@.len() == 5
                && (pairs@[r@[4] as int].block.start_time < pairs@[q].block.start_time
                    || (pairs@[r@[4] as int].block.start_time == pairs@[q].block.start_time && r@[4] < q)) by {
            assert(cand@.contains(q as usize));
            let c = choose|c: int| 0 <= c < cand@.len() && cand@[c] == q as usize;
            assert(crate::blocks::lists(order@, c));
            let v = choose|v: int| 0 <= v < order@.len() && #[trigger] order@[v] == c;
            if v < u {
                assert(r@[v] == q as usize);
            }
            assert(u == 5);
            let o4 = order@[4] as int;
            assert(keys@[o4] > keys@[c] || (keys@[o4] == keys@[c] && o4 < c));
            assert(r@[4] == cand@[o4]);
            if o4 < c {
                assert(cand@[o4] < cand@[c]);
            }
        }
    }
    r
}

/// The DJ of a block: its own, else its schedule's.
pub open spec fn block_dj(p: BlockWithSchedule) -> Option<i32> {
    match p.block.dj_id {
        Some(d) => Some(d),
        None => p.schedule.dj_id,
    }
}

/// The name an upcoming block's DJ is told by: the name of the first profile
/// with the block's DJ id, none when the block has no DJ or it is not found.
pub fn upcoming_dj_name(p: &BlockWithSchedule, profiles: &[DjProfile]) -> (r: Option<String>)
    ensures
        match block_dj(*p) {
            Some(d) => match r {
                Some(n) => exists|i: int| 0 <= i < profiles@.len() && (#[trigger] profiles@[i]).id == Some(d)
                    && n@ == profiles@[i].name@ && forall|k: int| 0 <= k < i ==> profiles@[k].id != Some(d),
                None => forall|i: int| 0 <= i < profiles@.len() ==> (#[trigger] profiles@[i]).id != Some(d),
            },
            None => r is None,
        },
{
    let d = match p.block.dj_id {
        Some(d) => d,
        None => match p.schedule.dj_id {
            Some(d) => d,
            None => {
                return None;
            },
        },
    };
    let mut i: usize = 0;
    while i < profiles.len()
        invariant
            i <= profiles@.len(),
            block_dj(*p) == Some(d),
            forall|k: int| 0 <= k < i ==> (#[trigger] profiles@[k]).id != Some(d),
        decreases profiles@.len() - i,
    {
        if profiles[i].id == Some(d) {
            assert(profiles@[i as int].id == Some(d));
            return Some(text::owned(profiles[i].name.as_str()));
        }
        i = i + 1;
    }
    None
}

} // verus!

verus! {

/// The block is for `date` (by date, or by weekday when it has no date).
pub open spec fn same_day_block(b: ScheduleBlock, date: i32, dow: Option<i32>) -> bool {
    match b.specific_date {
        Some(d) => d == date,
        None => match b.day_of_week {
            Some(w) => dow == Some(w),
            None => false,
        },
    }
}

/// Up to three of the schedule's blocks later on the same day than `after`, by start
/// time (blocks starting together keep their order).
pub fn upcoming_blocks(schedule_id: i32, blocks: &[ScheduleBlock], date: i32, after: u32) -> (r: Vec<usize>)
    ensures
        r@.len() <= 3,
        forall|u: int| 0 <= u < r@.len() ==> {
            let j = #[trigger] r@[u] as int;
            &&& 0 <= j < blocks@.len()
            &&& blocks@[j].schedule_id == schedule_id
            &&& same_day_block(blocks@[j], date, weekday_field(date))
            &&& blocks@[j].start_time > after
        },
        forall|u: int, v: int| 0 <= u < v < r@.len() ==>
            blocks@[r@[u] as int].start_time < blocks@[#[trigger] r@[v] as int].start_time
            || (blocks@[r@[u] as int].start_time == blocks@[r@[v] as int].start_time && #[trigger] r@[u] < r@[v]),
        // Nothing left out comes before the last one listed, and fewer than three
        // means none was left out.
        forall|j: int| 0 <= j < blocks@.len() && blocks@[j].schedule_id == schedule_id
            && same_day_block(#[trigger] blocks@[j], date, weekday_field(date)) && blocks@[j].start_time > after
            && !r@.contains(j as usize) ==> r@.len() == 3
                && (blocks@[r@[2] as int].start_time < blocks@[j].start_time
                    || (blocks@[r@[2] as int].start_time == blocks@[j].start_time && r@[2] < j)),
{
    let w = calendar::weekday_from_monday(date);
    let dow = match w { Some(x) => Some(x as i32), None => None };
    assert(dow == weekday_field(date));
    // Candidates, in block order.
    let mut cand: Vec<usize> = Vec::new();
    let mut keys: Vec<i64> = Vec::new();
    let mut j: usize = 0;
    while j < blocks.len()
        invariant
            j <= blocks@.len(),
            dow == weekday_field(date),
            cand@.len() == keys@.len(),
            forall|u: int| 0 <= u < cand@.len() ==> {
                let q = #[trigger] cand@[u] as int;
                &&& 0 <= q < j
                &&& blocks@[q].schedule_id == schedule_id
                &&& same_day_block(blocks@[q], date, weekday_field(date))
                &&& blocks@[q].start_time > after
                &&& keys@[u] == -(blocks@[q].start_time as int)
            },
            forall|u: int, v: int| 0 <= u < v < cand@.len() ==> #[trigger] cand@[u] < #[trigger] cand@[v],
            forall|q: int| 0 <= q < j && blocks@[q].schedule_id == schedule_id
                && same_day_block(#[trigger] blocks@[q], date, weekday_field(date)) && blocks@[q].start_time > after
                ==> cand@.contains(q as usize),
        decreases blocks@.len() - j,
    {
        let b = blocks[j];
        let day = match b.specific_date {
            Some(x) => x == date,
            None => match (b.day_of_week, dow) {
                (Some(x), Some(y)) => x == y,
                _ => false,
            },
        };
        if b.schedule_id == schedule_id && day && b.start_time > after {
            let ghost c0 = cand@;
            cand.push(j);
            keys.push(-(b.start_time as i64));
            proof {
                assert forall|q: int| 0 <= q < j + 1 && blocks@[q].schedule_id == schedule_id
                    && same_day_block(#[trigger] blocks@[q], date, weekday_field(date)) && blocks@[q].start_time > after
                    implies cand@.contains(q as usize) by {
                    if q < j {
                        assert(c0.contains(q as usize));
                        let u = choose|u: int| 0 <= u < c0.len() && c0[u] == q as usize;
                        assert(cand@[u] == q as usize);
                    } else {
                        assert(cand@[cand@.len() - 1] == q as usize);
                    }
                }
            }
        }
        j = j + 1;
    }
    let order = priority_order(keys.as_slice());
    let mut r: Vec<usize> = Vec::new();
    let mut u: usize = 0;
    while u < order.len() && u < 3
        invariant
            ordered_by_priority(keys@, order@),
            cand@.len() == keys@.len(),
            u <= order@.len(),
            u <= 3,
            r@.len() == u,
            forall|x: int| 0 <= x < u ==> #[trigger] r@[x] == cand@[order@[x] as int],
        decreases order@.len() - u,
    {
        r.push(cand[order[u]]);
        u = u + 1;
    }
    proof {
        assert forall|x: int, y: int| 0 <= x < y < r@.len() implies
            blocks@[r@[x] as int].start_time < blocks@[#[trigger] r@[y] as int].start_time
            || (blocks@[r@[x] as int].start_time == blocks@[r@[y] as int].start_time && #[trigger] r@[x] < r@[y]) by {
            let ox = order@[x] as int;
            let oy = order@[y] as int;
            assert(keys@[ox] > keys@[oy] || (keys@[ox] == keys@[oy] && ox < oy));
            assert(r@[x] == cand@[ox] && r@[y] == cand@[oy]);
            if ox < oy {
                assert(cand@[ox] < cand@[oy]);
            }
        }
        assert forall|q: int| 0 <= q < blocks@.len() && blocks@[q].schedule_id == schedule_id
            && same_day_block(#[trigger] blocks@[q], date, weekday_field(date)) && blocks@[q].start_time > after
            && !r@.contains(q as usize) implies r@.len() == 3
                && (blocks@[r@[2] as int].start_time < blocks@[q].start_time
                    || (blocks@[r@[2] as int].start_time == blocks@[q].start_time && r@[2] < q)) by {
            assert(cand@.contains(q as usize));
            let c = choose|c: int| 0 <= c < cand@.len() && cand@[c] == q as usize;
            assert(crate::blocks::lists(order@, c));
            let v = choose|v: int| 0 <= v < order@.len() && #[trigger] order@[v] == c;
            if v < u {
                assert(r@[v] == q as usize);
            }
            assert(u == 3);
            let o2 = order@[2] as int;
            assert(keys@[o2] > keys@[c] || (keys@[o2] == keys@[c] && o2 < c));
            assert(r@[2] == cand@[o2]);
            if o2 < c {
                assert(cand@[o2] < cand@[c]);
            }
        }
    }
    r
}


/// A DJ's context block is on air: one of today starts at or before `now` and
/// ends after it; one of yesterday still runs past midnight at `now`. A block
/// that starts later today is never the context block.
pub proof fn lemma_context_block_on_air(p: BlockWithSchedule, dj: i32, date: i32, now: u32)
    requires
        context_active(p, dj, date, now),
    ensures
        context_offset(p, date, now) == Some(0i32) ==> p.block.start_time <= now && now < p.block.start_time
            + p.block.duration_minutes * 60,
        context_offset(p, date, now) == Some(1i32) ==> now + timing::SECS_PER_DAY < p.block.start_time
            + p.block.duration_minutes * 60,
        context_offset(p, date, now) is Some,
{
    timing::lemma_on_air_window(p.block.start_time, p.block.duration_minutes, now);
}

} // verus!
