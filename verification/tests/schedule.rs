use slatron::schedule::{collapse_timeline, TimelineSlot};

fn slot(content: i32, priority: i32, name: &str, schedule_id: i32, block_id: i32) -> TimelineSlot {
    TimelineSlot {
        content_id: Some(content),
        script_id: None,
        priority,
        schedule_name: name.to_string(),
        schedule_id,
        block_id,
    }
}

#[test]
fn test_overlap_clipping_logic() {
    let mut timeline: Vec<Option<TimelineSlot>> = Vec::new();
    for _ in 0..1440 {
        timeline.push(None);
    }

    // 1. High Priority (Priority 10): 1:30 - 2:00 (90m - 120m)
    let hp_start = 90;
    let hp_end = 120;
    let hp_priority = 10;
    for minute in hp_start..hp_end {
        timeline[minute] = Some(slot(2, hp_priority, "High Pri", 2, 200));
    }

    // 2. Low Priority (Priority 1): 1:00 - 3:00 (60m - 180m), gap filling
    let lp_start = 60;
    let lp_end = 180;
    let lp_priority = 1;
    for minute in lp_start..lp_end {
        if timeline[minute].is_none() {
            timeline[minute] = Some(slot(1, lp_priority, "Low Pri", 1, 100));
        }
    }

    for i in 60..90 {
        assert_eq!(timeline[i].as_ref().unwrap().priority, 1, "Minute {} should be Low Pri", i);
    }
    for i in 90..120 {
        assert_eq!(timeline[i].as_ref().unwrap().priority, 10, "Minute {} should be High Pri", i);
    }
    for i in 120..180 {
        assert_eq!(timeline[i].as_ref().unwrap().priority, 1, "Minute {} should be Low Pri", i);
    }

    let collapsed = collapse_timeline(timeline);

    assert_eq!(collapsed.len(), 3);

    assert_eq!(collapsed[0].schedule_name, "Low Pri");
    assert_eq!(collapsed[0].duration_minutes, 30);

    assert_eq!(collapsed[1].schedule_name, "High Pri");
    assert_eq!(collapsed[1].duration_minutes, 30);

    assert_eq!(collapsed[2].schedule_name, "Low Pri");
    assert_eq!(collapsed[2].duration_minutes, 60);
}

#[test]
fn collapse_labels_start_times() {
    let mut timeline: Vec<Option<TimelineSlot>> = Vec::new();
    for m in 0..1440 {
        if (605..665).contains(&m) {
            timeline.push(Some(slot(7, 3, "Morning", 4, 40)));
        } else {
            timeline.push(None);
        }
    }
    let collapsed = collapse_timeline(timeline);
    assert_eq!(collapsed.len(), 1);
    assert_eq!(collapsed[0].start_time, "10:05:00");
    assert_eq!(collapsed[0].duration_minutes, 60);
    assert_eq!(collapsed[0].content_id, Some(7));
    assert_eq!(collapsed[0].dj_id, None);
}
