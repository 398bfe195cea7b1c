use slatron::dj::{
    build_full_prompt, build_track_selection_prompt, choose_dj, clean_json_reply, combine_context,
    correction_prompt, dj_request_text, format_memories, offer_candidates, off_air_action, pick_track,
    record_play, select_llm_provider, select_tts_provider, should_save_memory, skip_node, tts_url,
    unloaded_content, OffAir, MAX_CANDIDATES, generation_running, retry_step, AttemptOutcome, RetryStep,
};
use slatron::models::{AiProvider, ContentItem, DjMemory, DjProfile};

fn provider(id: i32, kind: &str) -> AiProvider {
    AiProvider {
        id: Some(id),
        name: format!("p{}", id),
        provider_type: kind.to_string(),
        api_key: None,
        endpoint_url: None,
        model_name: None,
        is_active: true,
        provider_category: "llm".to_string(),
    }
}

fn dj(llm: Option<i32>, voice: Option<i32>) -> DjProfile {
    DjProfile {
        id: Some(1),
        name: "Nova".to_string(),
        personality_prompt: "Upbeat host.".to_string(),
        voice_config_json: "{}".to_string(),
        context_depth: 5,
        voice_provider_id: voice,
        llm_provider_id: llm,
        context_script_ids: None,
    }
}

fn item(id: Option<i32>, title: &str) -> ContentItem {
    ContentItem {
        id,
        title: title.to_string(),
        description: None,
        content_type: "music".to_string(),
        content_path: format!("/media/{}.mp3", title),
        adapter_id: None,
        duration_minutes: Some(3),
        tags: None,
        node_accessibility: Some("public".to_string()),
        transformer_scripts: None,
        is_dj_accessible: true,
    }
}

fn memory(text: &str) -> DjMemory {
    DjMemory { id: None, dj_id: 1, memory_type: "general".to_string(), content: text.to_string(), importance_score: 5 }
}

#[test]
fn llm_provider_prefers_named_then_first_text_model() {
    let ps = vec![provider(1, "orpheus"), provider(2, "openai"), provider(3, "gemini-tts"), provider(4, "ollama")];
    assert_eq!(select_llm_provider(&ps, &dj(Some(4), None)), Some(3));
    assert_eq!(select_llm_provider(&ps, &dj(None, None)), Some(1));
    assert_eq!(select_llm_provider(&ps, &dj(Some(99), None)), Some(1));
    assert_eq!(select_llm_provider(&[provider(1, "orpheus")], &dj(None, None)), None);
}

#[test]
fn tts_provider_prefers_named_then_first_voice() {
    let ps = vec![provider(1, "openai"), provider(2, "orpheus"), provider(3, "gemini-tts")];
    assert_eq!(select_tts_provider(&ps, &dj(None, Some(3))), Some(2));
    assert_eq!(select_tts_provider(&ps, &dj(None, None)), Some(1));
    assert_eq!(select_tts_provider(&[provider(1, "openai")], &dj(None, None)), None);
}

#[test]
fn candidates_skip_recent_current_and_unnamed() {
    let cs = vec![item(Some(1), "a"), item(None, "b"), item(Some(2), "c"), item(Some(3), "d"), item(Some(4), "e")];
    assert_eq!(offer_candidates(&cs, &[3], 2), vec![0, 4]);
    let many: Vec<ContentItem> = (0..30).map(|i| item(Some(100 + i), "x")).collect();
    let offered = offer_candidates(&many, &[], 0);
    assert_eq!(offered.len(), MAX_CANDIDATES);
    assert_eq!(offered[19], 19);
}

#[test]
fn pick_track_uses_choice_or_first() {
    let cs = vec![item(Some(7), "a"), item(Some(8), "b")];
    assert_eq!(pick_track(&cs, Some(8)), Some(1));
    assert_eq!(pick_track(&cs, Some(42)), Some(0));
    assert_eq!(pick_track(&cs, None), Some(0));
    assert_eq!(pick_track(&[], Some(8)), None);
}

#[test]
fn play_history_is_capped_at_twenty() {
    let mut recent: Vec<i32> = Vec::new();
    for i in 0..25 {
        record_play(&mut recent, i);
    }
    assert_eq!(recent.len(), 20);
    assert_eq!(recent[0], 24);
    assert_eq!(recent[19], 5);
}

#[test]
fn dedupe_waits_for_cold_start() {
    assert!(skip_node(Some((5, 1000)), 5));
    assert!(!skip_node(Some((5, 10)), 6));
    assert!(skip_node(Some((0, 44)), 0));
    assert!(!skip_node(Some((0, 45)), 0));
    assert!(!skip_node(None, 0));
    assert_eq!(unloaded_content(Some(3), 4), Some(3));
    assert_eq!(unloaded_content(Some(0), 4), None);
    assert_eq!(unloaded_content(Some(4), 4), None);
    assert_eq!(unloaded_content(None, 4), None);
}

#[test]
fn request_text_for_cold_start_and_handover() {
    assert_eq!(
        dj_request_text(0, "Silence", &[]),
        "You are starting a set. Pick the first song from the list."
    );
    let titles = vec!["One".to_string(), "Two".to_string()];
    assert_eq!(
        dj_request_text(9, "Song", &titles),
        "Current song 'Song' is ending. Introduce the next song.\nContext: Recently played tracks (Do not repeat these): One, Two"
    );
}

#[test]
fn memories_are_listed() {
    assert_eq!(format_memories(&[], &[]), "Recent Memories (Immediate Context):\n- No recent events.\n");
    assert_eq!(
        format_memories(&[memory("core")], &[memory("a"), memory("b")]),
        "Core Memories (Permanent Personality Context):\n- core\n\nRecent Memories (Immediate Context):\n- a\n- b\n"
    );
}

#[test]
fn context_and_tracks_prompt_parts() {
    assert_eq!(combine_context("base", ""), "base");
    assert_eq!(combine_context("base", "news"), "base\n[System Context]: news");
    assert_eq!(build_track_selection_prompt(None), "");
    assert_eq!(build_track_selection_prompt(Some(&[])), "");
    let mut t = item(Some(12), "Tune");
    t.description = Some("Chill".to_string());
    let p = build_track_selection_prompt(Some(&[t, item(None, "X")]));
    assert!(p.starts_with("\nAvailable Tracks to Pick From:\n- ID 12: Tune (Type: music, Desc: Chill)\n- ID 0: X (Type: music, Desc: )\n"));
    assert!(p.ends_with("best fits your current mood/persona.\n"));
}

#[test]
fn full_prompt_layout() {
    let p = build_full_prompt(&dj(None, None), "MEM", "CTX", "TRACKS");
    assert!(p.starts_with("You are a radio DJ.\nPersonality: Upbeat host.\nRecent Memories:\nMEM\nContext: CTX\nTRACKS\n\nGenerate a short break"));
    assert!(p.contains("<giggle>, <laugh>"));
    assert!(p.ends_with("\"next_track_id\": 123\n}"));
}

#[test]
fn json_reply_is_unfenced() {
    assert_eq!(clean_json_reply("  ```json\n{\"a\":1}\n```  "), "\n{\"a\":1}\n");
    assert_eq!(clean_json_reply("{}"), "{}");
    assert_eq!(
        correction_prompt("P", "bad"),
        "P\n\nSYSTEM: Your previous response was invalid JSON. Error: bad. Please output ONLY valid JSON matching the schema."
    );
}

#[test]
fn memory_saving_threshold() {
    assert!(should_save_memory(Some(6), &Some("x".to_string())));
    assert!(!should_save_memory(Some(5), &Some("x".to_string())));
    assert!(!should_save_memory(Some(9), &None));
    assert!(!should_save_memory(None, &Some("x".to_string())));
    assert_eq!(tts_url("10.0.0.2", 8080, "a.wav"), "http://10.0.0.2:8080/tts/a.wav");
}

#[test]
fn dj_fallback_chain() {
    let mut a = dj(None, None);
    a.id = Some(10);
    let mut b = dj(None, None);
    b.id = Some(20);
    let ps = vec![a, b];
    assert_eq!(choose_dj(&ps, Some(20), Some(10)), Some(1));
    assert_eq!(choose_dj(&ps, Some(99), Some(20)), Some(1));
    assert_eq!(choose_dj(&ps, None, Some(99)), Some(0));
    assert_eq!(choose_dj(&[], None, None), None);
    assert_eq!(off_air_action(None), OffAir::StayIdle);
    assert_eq!(off_air_action(Some(3)), OffAir::Pause);
}

#[test]
fn generation_blocks_node() {
    assert!(generation_running(&[3, 7], 7));
    assert!(!generation_running(&[3, 7], 4));
    assert!(!generation_running(&[], 4));
}

#[test]
fn retries_of_the_dj_reply() {
    assert!(matches!(retry_step(1, 3, "p", &AttemptOutcome::Parsed), RetryStep::Accept));
    assert!(matches!(retry_step(3, 3, "p", &AttemptOutcome::GenerationFailed), RetryStep::GiveUp));
    assert!(matches!(retry_step(3, 3, "p", &AttemptOutcome::ParseFailed("e".to_string())), RetryStep::GiveUp));
    match retry_step(1, 3, "p", &AttemptOutcome::GenerationFailed) {
        RetryStep::Retry(q) => assert_eq!(q, "p"),
        _ => panic!("should retry"),
    }
    match retry_step(2, 3, "p", &AttemptOutcome::ParseFailed("bad".to_string())) {
        RetryStep::Retry(q) => assert_eq!(
            q,
            "p\n\nSYSTEM: Your previous response was invalid JSON. Error: bad. Please output ONLY valid JSON matching the schema."
        ),
        _ => panic!("should retry"),
    }
}
