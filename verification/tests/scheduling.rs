use slatron::blocks::{
    assignment_priorities, check_block, check_overlap, effective_priorities, priority_order, BlockCheck, BlockPlacement,
};
use slatron::calendar::weekday_from_monday;
use slatron::context::{find_context_block, find_on_air, upcoming_across, upcoming_blocks, upcoming_dj_name, BlockWithSchedule};
use slatron::models::{DjProfile, User};
use slatron::schedule::{
    get_blocks_for_date, get_effective_priority, node_collapsed_schedule, AssignedSchedule, Schedule, ScheduleBlock,
};
use slatron::timing::{
    calculate_remaining_minutes, heartbeat_stale, is_time_match, next_backoff, next_poll_wait_secs,
};

// 2024-01-01, a Monday, counted from January 1 of year 1 (day 1).
const MON_2024_01_01: i32 = 738_886;

fn sched(id: i32, name: &str, kind: &str, priority: i32, active: bool) -> Schedule {
    Schedule {
        id: Some(id),
        name: name.to_string(),
        description: None,
        schedule_type: kind.to_string(),
        priority,
        is_active: active,
        dj_id: None,
    }
}

fn blk(id: i32, schedule_id: i32, dow: Option<i32>, date: Option<i32>, start_min: u32, dur: i32) -> ScheduleBlock {
    ScheduleBlock {
        id: Some(id),
        schedule_id,
        content_id: Some(id * 10),
        day_of_week: dow,
        specific_date: date,
        start_time: start_min * 60,
        duration_minutes: dur,
        script_id: None,
        dj_id: None,
    }
}

#[test]
fn weekdays_from_chrono() {
    assert_eq!(weekday_from_monday(1), Some(0));
    assert_eq!(weekday_from_monday(MON_2024_01_01), Some(0));
    assert_eq!(weekday_from_monday(MON_2024_01_01 + 6), Some(6));
    assert_eq!(weekday_from_monday(i32::MAX), None);
    assert_eq!(weekday_from_monday(0), Some(6));
    assert_eq!(weekday_from_monday(95_745_399), Some(0));
    assert_eq!(weekday_from_monday(95_745_400), None);
    assert_eq!(weekday_from_monday(-95_746_129), Some(3));
    assert_eq!(weekday_from_monday(-95_746_130), None);
}

#[test]
fn time_windows() {
    assert!(is_time_match(3600, 60, 3600, 0));
    assert!(!is_time_match(3600, 60, 7200, 0));
    // 23:00 for two hours spills one hour into today.
    assert!(is_time_match(82800, 120, 1800, 1));
    assert!(!is_time_match(82800, 120, 3600, 1));
    assert_eq!(calculate_remaining_minutes(3600, 60, 3700, 0), 58);
    assert_eq!(calculate_remaining_minutes(82800, 120, 1800, 1), 30);
    assert_eq!(calculate_remaining_minutes(3600, 60, 9000, 0), 0);
    assert_eq!(next_poll_wait_secs(125, 60), 55);
    assert_eq!(next_poll_wait_secs(120, 60), 60);
    assert_eq!(next_backoff(5), 10);
    assert_eq!(next_backoff(160), 300);
    assert_eq!(next_backoff(300), 300);
    assert!(heartbeat_stale(100, 131));
    assert!(!heartbeat_stale(100, 130));
}

#[test]
fn block_editing_rules() {
    let existing = vec![blk(1, 5, Some(0), None, 60, 60), blk(2, 5, Some(1), None, 60, 60)];
    let place = |start_min: u32, dur: i32| BlockPlacement {
        schedule_id: 5,
        day_of_week: Some(0),
        specific_date: None,
        start_time: start_min * 60,
        duration_minutes: dur,
    };
    assert!(check_overlap(&place(90, 60), &existing, None));
    assert!(!check_overlap(&place(120, 60), &existing, None));
    assert!(!check_overlap(&place(90, 60), &existing, Some(1)));
    assert_eq!(check_block(&place(90, 60), &existing, None), BlockCheck::Conflict);
    assert_eq!(check_block(&place(0, 0), &existing, None), BlockCheck::BadRequest);
    assert_eq!(check_block(&place(1400, 41), &existing, None), BlockCheck::BadRequest);
    assert_eq!(check_block(&place(1400, 40), &existing, None), BlockCheck::Accepted);
}

#[test]
fn node_assignment_priorities() {
    assert_eq!(assignment_priorities(3), vec![3, 2, 1]);
    assert_eq!(priority_order(&[1, 5, 5, 3]), vec![1, 2, 3, 0]);
    let a = AssignedSchedule { schedule: sched(1, "A", "weekly", 4, true), priority_override: Some(9) };
    assert_eq!(get_effective_priority(&a), 9);
    let b = AssignedSchedule { schedule: sched(1, "A", "weekly", 4, true), priority_override: None };
    assert_eq!(get_effective_priority(&b), 4);
}

#[test]
fn blocks_for_a_day() {
    let s = sched(5, "Week", "weekly", 1, true);
    let blocks = vec![blk(1, 5, Some(0), None, 0, 30), blk(2, 5, Some(1), None, 0, 30), blk(3, 6, Some(0), None, 0, 30)];
    let got = get_blocks_for_date(&s, &blocks, MON_2024_01_01, Some(0));
    assert_eq!(got.len(), 1);
    assert_eq!(got[0].id, Some(1));
    let one_off = sched(6, "Once", "one_off", 1, true);
    let dated = vec![blk(4, 6, None, Some(MON_2024_01_01), 0, 30)];
    assert_eq!(get_blocks_for_date(&one_off, &dated, MON_2024_01_01, Some(0)).len(), 1);
    assert_eq!(get_blocks_for_date(&one_off, &dated, MON_2024_01_01 + 1, Some(1)).len(), 0);
}

#[test]
fn layered_day_for_a_node() {
    let assigned = vec![
        AssignedSchedule { schedule: sched(1, "Base", "weekly", 1, true), priority_override: None },
        AssignedSchedule { schedule: sched(2, "News", "weekly", 5, true), priority_override: None },
        AssignedSchedule { schedule: sched(3, "Off", "weekly", 9, false), priority_override: None },
    ];
    let blocks = vec![
        blk(10, 1, Some(0), None, 60, 120),
        blk(20, 2, Some(0), None, 90, 30),
        blk(30, 3, Some(0), None, 0, 1440),
    ];
    let out = node_collapsed_schedule(&assigned, &blocks, MON_2024_01_01).unwrap();
    assert_eq!(out.len(), 3);
    assert_eq!(out[0].start_time, "01:00:00");
    assert_eq!(out[0].schedule_name, "Base");
    assert_eq!(out[0].duration_minutes, 30);
    assert_eq!(out[1].start_time, "01:30:00");
    assert_eq!(out[1].schedule_name, "News");
    assert_eq!(out[2].start_time, "02:00:00");
    assert_eq!(out[2].duration_minutes, 60);
    // A block of negative length is refused rather than evaluated.
    let bad = vec![blk(10, 1, Some(0), None, 60, -5)];
    assert!(node_collapsed_schedule(&assigned, &bad, MON_2024_01_01).is_none());
    // Tuesday has nothing.
    assert!(node_collapsed_schedule(&assigned, &blocks, MON_2024_01_01 + 1).unwrap().is_empty());
}

#[test]
fn on_air_for_the_dj() {
    let schedules = vec![sched(1, "Base", "weekly", 1, true), sched(2, "Prime", "weekly", 7, true)];
    let blocks = vec![blk(10, 1, Some(0), None, 0, 1440), blk(20, 2, Some(0), None, 600, 60)];
    let now = 610 * 60;
    let o = find_on_air(&schedules, &blocks, MON_2024_01_01, now).unwrap();
    assert_eq!(o.schedule, 1);
    assert_eq!(o.block, 1);
    assert_eq!(o.remaining_minutes, 50);
    let later = find_on_air(&schedules, &blocks, MON_2024_01_01, 700 * 60).unwrap();
    assert_eq!(later.schedule, 0);
    assert!(find_on_air(&schedules, &blocks, MON_2024_01_01 + 1, now).is_none());
    let up = upcoming_blocks(1, &[blk(1, 1, Some(0), None, 700, 10), blk(2, 1, Some(0), None, 650, 10), blk(3, 1, Some(1), None, 800, 10)], MON_2024_01_01, 600 * 60);
    assert_eq!(up, vec![1, 0]);
}

#[test]
fn dj_context_block() {
    let mut s = sched(1, "Night", "weekly", 1, true);
    s.dj_id = Some(3);
    let late = blk(1, 1, Some(0), None, 23 * 60, 120);
    let pairs = vec![BlockWithSchedule { block: late, schedule: s }];
    // Tuesday 00:30: Monday's late block is still on air for thirty minutes.
    let c = find_context_block(&pairs, 3, MON_2024_01_01 + 1, 30 * 60).unwrap();
    assert_eq!(c.index, 0);
    assert_eq!(c.remaining_minutes, 30);
    assert!(find_context_block(&pairs, 4, MON_2024_01_01 + 1, 30 * 60).is_none());
}

#[test]
fn roles() {
    let u = |r: &str| User { id: Some(1), username: "x".to_string(), password_hash: String::new(), role: r.to_string() };
    assert!(u("admin").is_admin() && u("admin").is_editor());
    assert!(!u("editor").is_admin() && u("editor").is_editor());
    assert!(!u("viewer").is_editor());
}

#[test]
fn effective_priorities_use_overrides() {
    let a = vec![
        AssignedSchedule { schedule: sched(1, "A", "weekly", 4, true), priority_override: Some(9) },
        AssignedSchedule { schedule: sched(2, "B", "weekly", 2, true), priority_override: None },
    ];
    assert_eq!(effective_priorities(&a), vec![9, 2]);
}

#[test]
fn next_five_blocks_across_schedules() {
    let mut weekly = sched(1, "Week", "weekly", 1, true);
    weekly.dj_id = Some(7);
    let once = sched(2, "Special", "one_off", 1, true);
    let off = sched(3, "Off", "weekly", 1, false);
    let day = MON_2024_01_01;
    let mut pairs = Vec::new();
    for (i, start) in [600u32, 120, 480, 360, 240, 720].iter().enumerate() {
        pairs.push(BlockWithSchedule { block: blk(i as i32, 1, Some(0), None, *start, 30), schedule: sched_copy(&weekly) });
    }
    pairs.push(BlockWithSchedule { block: blk(10, 2, None, Some(day), 300, 30), schedule: sched_copy(&once) });
    pairs.push(BlockWithSchedule { block: blk(11, 3, Some(0), None, 310, 30), schedule: sched_copy(&off) });
    pairs.push(BlockWithSchedule { block: blk(12, 1, Some(1), None, 320, 30), schedule: sched_copy(&weekly) });
    pairs.push(BlockWithSchedule { block: blk(13, 1, Some(0), None, 60, 30), schedule: sched_copy(&weekly) });
    // At 01:30 on that Monday: 02:00, 04:00, 05:00 (the one-off), 06:00 and 08:00.
    let r = upcoming_across(&pairs, day, 90 * 60);
    assert_eq!(r, vec![1, 4, 6, 3, 2]);
    let profiles = vec![DjProfile {
        id: Some(7),
        name: "Nova".to_string(),
        personality_prompt: String::new(),
        voice_config_json: "{}".to_string(),
        context_depth: 5,
        voice_provider_id: None,
        llm_provider_id: None,
        context_script_ids: None,
    }];
    assert_eq!(upcoming_dj_name(&pairs[0], &profiles), Some("Nova".to_string()));
    assert_eq!(upcoming_dj_name(&pairs[6], &profiles), None);
    let mut own = BlockWithSchedule { block: blk(20, 1, Some(0), None, 0, 30), schedule: sched_copy(&weekly) };
    own.block.dj_id = Some(9);
    assert_eq!(upcoming_dj_name(&own, &profiles), None);
}

fn sched_copy(s: &Schedule) -> Schedule {
    Schedule {
        id: s.id,
        name: s.name.clone(),
        description: s.description.clone(),
        schedule_type: s.schedule_type.clone(),
        priority: s.priority,
        is_active: s.is_active,
        dj_id: s.dj_id,
    }
}
