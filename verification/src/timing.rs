//! Time-of-day arithmetic for schedule blocks (times in seconds from midnight).
use vstd::prelude::*;

verus! {

/// Seconds in a day.
pub const SECS_PER_DAY: u32 = 86400;

/// A block's length in seconds stays within `u32` when added to its start.
pub open spec fn block_span_ok(start: u32, duration_min: i32) -> bool {
    0 <= duration_min && start + duration_min * 60 <= u32::MAX
}

/// Whether `now` falls inside a block that started `day_offset` days ago (0 = today,
/// otherwise yesterday): today's part is `[start, start + duration)`, yesterday's
/// block only matches in the part that spills past midnight.
pub open spec fn time_match(start: u32, duration_min: i32, now: u32, day_offset: i32) -> bool {
    let end = start + duration_min * 60;
    if day_offset == 0 {
        start <= now < end
    } else {
        end > SECS_PER_DAY && now < end - SECS_PER_DAY
    }
}

pub fn is_time_match(start: u32, duration_min: i32, now: u32, day_offset: i32) -> (r: bool)
    requires
        block_span_ok(start, duration_min),
    ensures
        r == time_match(start, duration_min, now, day_offset),
{
    let duration_secs: u32 = (duration_min as u32) * 60;
    let end_secs: u32 = start + duration_secs;
    if day_offset == 0 {
        now >= start && now < end_secs
    } else {
        if end_secs > SECS_PER_DAY {
            let spill_secs = end_secs - SECS_PER_DAY;
            now < spill_secs
        } else {
            false
        }
    }
}

/// Whole minutes left in a block at `now` (0 once it has ended); for a block that
/// started yesterday (`day_offset == 1`) `now` is counted from yesterday's midnight.
pub open spec fn remaining_minutes(start: u32, duration_min: i32, now: u32, day_offset: i32) -> int {
    let end = start + duration_min * 60;
    let now_abs = if day_offset == 1 { now + SECS_PER_DAY } else { now as int };
    if now_abs < end { (end - now_abs) / 60 } else { 0 }
}

pub fn calculate_remaining_minutes(start: u32, duration_min: i32, now: u32, day_offset: i32) -> (r: i32)
    requires
        block_span_ok(start, duration_min),
        day_offset == 1 ==> now + SECS_PER_DAY <= u32::MAX,
    ensures
        r == remaining_minutes(start, duration_min, now, day_offset),
{
    let duration_secs: u32 = (duration_min as u32) * 60;
    let end_secs_absolute: u32 = start + duration_secs;
    let now_secs_absolute: u32 = if day_offset == 1 { now + SECS_PER_DAY } else { now };
    if now_secs_absolute < end_secs_absolute {
        ((end_secs_absolute - now_secs_absolute) / 60) as i32
    } else {
        0
    }
}

/// Seconds to wait before the next schedule poll: until the next multiple of
/// `interval` strictly after `now` (a Unix time in seconds).
pub open spec fn poll_wait(now: u64, interval: u64) -> int {
    (now / interval + 1) * interval - now
}

pub fn next_poll_wait_secs(now: u64, interval: u64) -> (r: u64)
    requires
        interval > 0,
        (now / interval + 1) * interval <= u64::MAX,
    ensures
        r == poll_wait(now, interval),
        0 < r <= interval,
{
    let q = now / interval;
    assert(q + 1 <= (q + 1) * interval) by (nonlinear_arith)
        requires interval > 0;
    let next_boundary = (q + 1) * interval;
    proof {
        assert(q * interval <= now < q * interval + interval) by (nonlinear_arith)
            requires q == now / interval, interval > 0;
        assert((q + 1) * interval == q * interval + interval) by (nonlinear_arith);
    }
    next_boundary - now
}

/// Reconnection delay after one more failed attempt: doubled, capped at 300 seconds.
pub open spec fn backoff_after(delay: u64) -> u64 {
    if delay * 2 < 300 { (delay * 2) as u64 } else { 300 }
}

pub fn next_backoff(delay_secs: u64) -> (r: u64)
    requires
        delay_secs <= 300,
    ensures
        r == backoff_after(delay_secs),
        r <= 300,
{
    let doubled = delay_secs * 2;
    if doubled < 300 { doubled } else { 300 }
}


/// The reconnection delay stays between five seconds and five minutes and
/// never shrinks: from any delay in that range, the next one is in it too.
pub proof fn lemma_backoff_bounded(delay: u64)
    requires
        5 <= delay <= 300,
    ensures
        5 <= backoff_after(delay) <= 300,
        delay <= backoff_after(delay),
{
}

/// How long a node may stay silent before it is marked offline, in seconds.
pub const HEARTBEAT_TIMEOUT_SECS: i64 = 30;

/// A node is stale when its last heartbeat is older than the timeout.
pub open spec fn stale(last_heartbeat: i64, now: i64) -> bool {
    last_heartbeat < now - HEARTBEAT_TIMEOUT_SECS
}

/// Whether a node that is online is marked offline at `now` (seconds).
pub fn heartbeat_stale(last_heartbeat: i64, now: i64) -> (b: bool)
    requires
        now >= i64::MIN + HEARTBEAT_TIMEOUT_SECS,
    ensures
        b == stale(last_heartbeat, now),
{
    last_heartbeat < now - HEARTBEAT_TIMEOUT_SECS
}

/// Once stale, a node stays stale as time passes without a heartbeat, and a
/// heartbeat at most thirty seconds old never is.
pub proof fn lemma_stale_monotone(last: i64, now: i64, later: i64)
    requires
        now <= later,
    ensures
        stale(last, now) ==> stale(last, later),
        now - last <= HEARTBEAT_TIMEOUT_SECS ==> !stale(last, now),
{
}


/// A block is on air today only once it has started and until it ends: for
/// today's part, `now` matches exactly when `start <= now < start + duration`;
/// yesterday's block matches only while its spill past midnight lasts, and a
/// block of yesterday that ends by midnight never matches.
pub proof fn lemma_on_air_window(start: u32, duration_min: i32, now: u32)
    ensures
        time_match(start, duration_min, now, 0) ==> start <= now,
        time_match(start, duration_min, now, 0) <==> (start <= now && now < start + duration_min * 60),
        time_match(start, duration_min, now, 1) ==> now + SECS_PER_DAY < start + duration_min * 60,
        start + duration_min * 60 <= SECS_PER_DAY ==> !time_match(start, duration_min, now, 1),
{
}

} // verus!
