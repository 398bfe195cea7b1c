//! Editing rules for schedule blocks and node schedule assignments.
use vstd::prelude::*;
use crate::schedule::{AssignedSchedule, ScheduleBlock, effective_priority, get_effective_priority, MINUTES_PER_DAY};

verus! {

/// A block placement to be checked: where it goes and which block (when editing) it
/// replaces.
pub struct BlockPlacement {
    pub schedule_id: i32,
    pub day_of_week: Option<i32>,
    pub specific_date: Option<i32>,
    /// Seconds from midnight.
    pub start_time: u32,
    pub duration_minutes: i32,
}

/// Outcome of checking a new or edited block.
#[derive(Debug, PartialEq, Eq, Structural)]
pub enum BlockCheck {
    /// The block may be stored.
    Accepted,
    /// Non-positive duration, or the block runs past midnight.
    BadRequest,
    /// The block overlaps another block of the same day.
    Conflict,
}

/// Blocks that share the placement's day: same schedule, and the same weekday when
/// one is given, else the same date when one is given, else any day.
pub open spec fn same_day(p: BlockPlacement, b: ScheduleBlock) -> bool {
    &&& b.schedule_id == p.schedule_id
    &&& match p.day_of_week {
        Some(d) => b.day_of_week == Some(d),
        None => match p.specific_date {
            Some(dt) => b.specific_date == Some(dt),
            None => true,
        },
    }
}

/// Start minute of a time of day given in seconds.
pub open spec fn start_minute(secs: u32) -> int {
    secs as int / 60
}

/// `b` overlaps the placement (as half-open minute intervals).
pub open spec fn overlaps(p: BlockPlacement, b: ScheduleBlock) -> bool {
    let ns = start_minute(p.start_time);
    let ne = ns + p.duration_minutes;
    let bs = start_minute(b.start_time);
    let be = bs + b.duration_minutes;
    ns < be && ne > bs
}

/// Some block of the same day, other than the excluded one, overlaps the placement.
pub open spec fn has_overlap(p: BlockPlacement, blocks: Seq<ScheduleBlock>, exclude: Option<i32>) -> bool {
    exists|k: int| 0 <= k < blocks.len()
        && same_day(p, #[trigger] blocks[k])
        && !(exclude is Some && blocks[k].id == exclude)
        && overlaps(p, blocks[k])
}

/// The minute arithmetic of the overlap check stays within `i32`.
pub open spec fn overlap_inputs_ok(p: BlockPlacement, blocks: Seq<ScheduleBlock>) -> bool {
    &&& p.start_time < 86400
    &&& start_minute(p.start_time) + p.duration_minutes <= i32::MAX
    &&& start_minute(p.start_time) + p.duration_minutes >= i32::MIN
    &&& forall|k: int| 0 <= k < blocks.len() ==> {
        &&& (#[trigger] blocks[k]).start_time < 86400
        &&& start_minute(blocks[k].start_time) + blocks[k].duration_minutes <= i32::MAX
        &&& start_minute(blocks[k].start_time) + blocks[k].duration_minutes >= i32::MIN
    }
}

/// Whether the placement overlaps a block of its day (the block being edited, given by
/// `exclude_block_id`, does not count).
pub fn check_overlap(placement: &BlockPlacement, blocks: &[ScheduleBlock], exclude_block_id: Option<i32>) -> (r: bool)
    requires
        overlap_inputs_ok(*placement, blocks@),
    ensures
        r == has_overlap(*placement, blocks@, exclude_block_id),
{
    let new_start: i32 = (placement.start_time / 60) as i32;
    let new_end: i32 = new_start + placement.duration_minutes;
    let mut k: usize = 0;
    while k < blocks.len()
        invariant
            k <= blocks@.len(),
            overlap_inputs_ok(*placement, blocks@),
            new_start == start_minute(placement.start_time),
            new_end == new_start + placement.duration_minutes,
            forall|q: int| 0 <= q < k ==> !(same_day(*placement, #[trigger] blocks@[q])
                && !(exclude_block_id is Some && blocks@[q].id == exclude_block_id)
                && overlaps(*placement, blocks@[q])),
        decreases blocks@.len() - k,
    {
        let b = blocks[k];
        assert(b == blocks@[k as int]);
        let day_ok = b.schedule_id == placement.schedule_id && match placement.day_of_week {
            Some(d) => match b.day_of_week {
                Some(x) => x == d,
                None => false,
            },
            None => match placement.specific_date {
                Some(dt) => match b.specific_date {
                    Some(x) => x == dt,
                    None => false,
                },
                None => true,
            },
        };
        let excluded = match exclude_block_id {
            Some(x) => match b.id {
                Some(y) => y == x,
                None => false,
            },
            None => false,
        };
        if day_ok && !excluded {
            let b_start: i32 = (b.start_time / 60) as i32;
            let b_end: i32 = b_start + b.duration_minutes;
            if new_start < b_end && new_end > b_start {
                return true;
            }
        }
        k = k + 1;
    }
    false
}

/// The outcome the block editor gives a placement.
pub open spec fn block_check(p: BlockPlacement, blocks: Seq<ScheduleBlock>, exclude: Option<i32>) -> BlockCheck {
    if p.duration_minutes <= 0 || start_minute(p.start_time) + p.duration_minutes > MINUTES_PER_DAY {
        BlockCheck::BadRequest
    } else if has_overlap(p, blocks, exclude) {
        BlockCheck::Conflict
    } else {
        BlockCheck::Accepted
    }
}

/// Checks a block to be created (`exclude_block_id` is `None`) or edited: it must have
/// a positive duration, end by midnight, and overlap no other block of its day.
pub fn check_block(placement: &BlockPlacement, blocks: &[ScheduleBlock], exclude_block_id: Option<i32>) -> (r: BlockCheck)
    requires
        overlap_inputs_ok(*placement, blocks@),
    ensures
        r == block_check(*placement, blocks@, exclude_block_id),
{
    if placement.duration_minutes <= 0 {
        return BlockCheck::BadRequest;
    }
    let start_mins: i32 = (placement.start_time / 60) as i32;
    if start_mins + placement.duration_minutes > MINUTES_PER_DAY as i32 {
        return BlockCheck::BadRequest;
    }
    if check_overlap(placement, blocks, exclude_block_id) {
        BlockCheck::Conflict
    } else {
        BlockCheck::Accepted
    }
}

/// Priorities given to a node's schedules in the order listed: the first gets the
/// highest (`count`), the last gets 1.
pub fn assignment_priorities(count: usize) -> (out: Vec<i32>)
    requires
        count <= i32::MAX,
    ensures
        out@.len() == count,
        forall|i: int| 0 <= i < count ==> #[trigger] out@[i] == count - i,
{
    let mut out: Vec<i32> = Vec::new();
    let mut i: usize = 0;
    while i < count
        invariant
            count <= i32::MAX,
            i <= count,
            out@.len() == i,
            forall|k: int| 0 <= k < i ==> #[trigger] out@[k] == count - k,
        decreases count - i,
    {
        out.push((count - i) as i32);
        i = i + 1;
    }
    out
}

/// `x` occurs in `order`.
pub open spec fn lists(order: Seq<usize>, x: int) -> bool {
    exists|u: int| 0 <= u < order.len() && #[trigger] order[u] == x
}

/// `order` lists the indices `0..p.len()` once each, by non-increasing priority, with
/// equal priorities in the order given.
pub open spec fn ordered_by_priority(p: Seq<i64>, order: Seq<usize>) -> bool {
    &&& order.len() == p.len()
    &&& forall|u: int| 0 <= u < order.len() ==> (#[trigger] order[u]) < p.len()
    &&& forall|x: int| 0 <= x < p.len() ==> #[trigger] lists(order, x)
    &&& forall|u: int, v: int| 0 <= u < v < order.len() ==>
            p[order[u] as int] > p[#[trigger] order[v] as int]
            || (p[order[u] as int] == p[order[v] as int] && #[trigger] order[u] < order[v])
}

/// Positions of `p` by non-increasing priority, ties in the order given (a stable
/// sort by descending priority).
pub fn priority_order(p: &[i64]) -> (order: Vec<usize>)
    ensures
        ordered_by_priority(p@, order@),
{
    let mut order: Vec<usize> = Vec::new();
    let mut i: usize = 0;
    while i < p.len()
        invariant
            i <= p@.len(),
            order@.len() == i,
            forall|u: int| 0 <= u < order@.len() ==> (#[trigger] order@[u]) < i,
            forall|x: int| 0 <= x < i ==> #[trigger] lists(order@, x),
            forall|u: int, v: int| 0 <= u < v < order@.len() ==>
                p@[order@[u] as int] > p@[#[trigger] order@[v] as int]
                || (p@[order@[u] as int] == p@[order@[v] as int] && #[trigger] order@[u] < order@[v]),
        decreases p@.len() - i,
    {
        let pi = p[i];
        // Position after every entry whose priority is at least `pi`.
        let mut pos: usize = 0;
        while pos < order.len() && p[order[pos]] >= pi
            invariant
                i < p@.len(),
                pi == p@[i as int],
                pos <= order@.len(),
                forall|u: int| 0 <= u < order@.len() ==> (#[trigger] order@[u]) < i,
                forall|u: int| 0 <= u < pos ==> p@[#[trigger] order@[u] as int] >= pi,
            decreases order@.len() - pos,
        {
            pos = pos + 1;
        }
        proof {
            // Everything after `pos` has lower priority than `pi`.
            assert forall|u: int| pos <= u < order@.len() implies p@[#[trigger] order@[u] as int] < pi by {
                assert(p@[order@[pos as int] as int] < pi);
                if u > pos {
                    assert(p@[order@[pos as int] as int] > p@[order@[u] as int]
                        || p@[order@[pos as int] as int] == p@[order@[u] as int]);
                }
            }
        }
        let ghost old_order = order@;
        order.insert(pos, i);
        proof {
            assert forall|x: int| 0 <= x < i + 1 implies #[trigger] lists(order@, x) by {
                if x == i {
                    assert(order@[pos as int] == x);
                } else {
                    assert(lists(old_order, x));
                    let u0 = choose|u: int| 0 <= u < old_order.len() && #[trigger] old_order[u] == x;
                    if u0 < pos {
                        assert(order@[u0] == x);
                    } else {
                        assert(order@[u0 + 1] == x);
                    }
                }
            }
            assert forall|u: int| 0 <= u < order@.len() implies (#[trigger] order@[u]) < i + 1 by {
                if u < pos {
                    assert(order@[u] == old_order[u]);
                } else if u > pos {
                    assert(order@[u] == old_order[u - 1]);
                }
            }
            assert forall|u: int, v: int| 0 <= u < v < order@.len() implies
                p@[order@[u] as int] > p@[#[trigger] order@[v] as int]
                || (p@[order@[u] as int] == p@[order@[v] as int] && #[trigger] order@[u] < order@[v]) by {
                if v < pos {
                    assert(order@[u] == old_order[u] && order@[v] == old_order[v]);
                } else if v == pos {
                    assert(order@[u] == old_order[u]);
                } else if u < pos {
                    assert(order@[u] == old_order[u] && order@[v] == old_order[v - 1]);
                } else if u == pos {
                    assert(order@[v] == old_order[v - 1]);
                } else {
                    assert(order@[u] == old_order[u - 1] && order@[v] == old_order[v - 1]);
                }
            }
        }
        i = i + 1;
    }
    order
}

/// Effective priorities of the assigned schedules, in order.
pub fn effective_priorities(a: &[AssignedSchedule]) -> (p: Vec<i32>)
    ensures
        p@.len() == a@.len(),
        forall|i: int| 0 <= i < a@.len() ==> #[trigger] p@[i] == effective_priority(a@[i]),
{
    let mut p: Vec<i32> = Vec::new();
    let mut i: usize = 0;
    while i < a.len()
        invariant
            i <= a@.len(),
            p@.len() == i,
            forall|k: int| 0 <= k < i ==> #[trigger] p@[k] == effective_priority(a@[k]),
        decreases a@.len() - i,
    {
        p.push(get_effective_priority(&a[i]));
        i = i + 1;
    }
    p
}


/// Minute `m` lies in the half-open interval `[start, end)`.
pub open spec fn minute_in(start: int, end: int, m: int) -> bool {
    start <= m < end
}

/// Overlap means sharing a minute: blocks that meet end to start, or are
/// apart, never overlap; and for positive durations a placement overlaps a
/// block exactly when some minute lies in both.
pub proof fn lemma_overlap_is_shared_minute(p: BlockPlacement, b: ScheduleBlock)
    ensures
        start_minute(p.start_time) + p.duration_minutes <= start_minute(b.start_time) ==> !overlaps(p, b),
        start_minute(b.start_time) + b.duration_minutes <= start_minute(p.start_time) ==> !overlaps(p, b),
        p.duration_minutes > 0 && b.duration_minutes > 0 ==> (overlaps(p, b) <==> exists|m: int|
            #[trigger] minute_in(start_minute(p.start_time), start_minute(p.start_time) + p.duration_minutes, m)
                && minute_in(start_minute(b.start_time), start_minute(b.start_time) + b.duration_minutes, m)),
{
    let ns = start_minute(p.start_time);
    let bs = start_minute(b.start_time);
    if p.duration_minutes > 0 && b.duration_minutes > 0 && overlaps(p, b) {
        let m = if ns < bs { bs } else { ns };
        assert(minute_in(ns, ns + p.duration_minutes, m));
    }
}

/// A placement that ends when a block of its day begins, or begins when it
/// ends, is not refused for overlapping it.
pub proof fn lemma_back_to_back_accepted(p: BlockPlacement, blocks: Seq<ScheduleBlock>)
    requires
        p.duration_minutes > 0,
        start_minute(p.start_time) + p.duration_minutes <= MINUTES_PER_DAY,
        forall|k: int| 0 <= k < blocks.len() && same_day(p, #[trigger] blocks[k]) ==> start_minute(p.start_time)
            + p.duration_minutes <= start_minute(blocks[k].start_time) || start_minute(blocks[k].start_time)
            + blocks[k].duration_minutes <= start_minute(p.start_time),
    ensures
        forall|exclude: Option<i32>| #[trigger] block_check(p, blocks, exclude) == BlockCheck::Accepted,
{
    assert forall|exclude: Option<i32>| #[trigger] block_check(p, blocks, exclude) == BlockCheck::Accepted by {
        if has_overlap(p, blocks, exclude) {
            let k = choose|k: int| 0 <= k < blocks.len() && same_day(p, #[trigger] blocks[k])
                && !(exclude is Some && blocks[k].id == exclude) && overlaps(p, blocks[k]);
            lemma_overlap_is_shared_minute(p, blocks[k]);
        }
    }
}

} // verus!
