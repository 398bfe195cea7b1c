use slatron::auth::{
    bearer_token, claims_for, delete_user, deletion_refused, hash_password, may_read_node_schedule, role_change_refused,
    seed_admin, update_user, verify_password, PasswordError, UserChangeError,
};
use slatron::catalog::{
    collect_output, context_script_plan, csv_script_ids, is_json_script_list, is_valid_reel_item_type,
    is_valid_script_type, may_activate, next_reel_position, sorted_unique, spot_reel_content_path,
    test_output_variable, total_duration_secs, transformer_plan, ScriptPlan,
};
use slatron::llm::{bearer_header, llm_engine, llm_settings, AdapterDefaults, LlmEngine};
use slatron::models::{AiProvider, User};
use slatron::node_session::{screenshot_path, LogEntry, NodeEvent, NodeLog, NodeSession, SessionAction};
use slatron::server_config::Config as ServerConfig;
use slatron::upkeep::{is_orphan_back, seed_action, seed_mlt_path, tts_file_expired, SeedAction};

fn user(id: i32, role: &str) -> User {
    User { id: Some(id), username: format!("u{}", id), password_hash: String::new(), role: role.to_string() }
}

fn provider(kind: &str, key: Option<&str>, model: Option<&str>) -> AiProvider {
    AiProvider {
        id: Some(1),
        name: "p".to_string(),
        provider_type: kind.to_string(),
        api_key: key.map(|s| s.to_string()),
        endpoint_url: None,
        model_name: model.map(|s| s.to_string()),
        is_active: true,
        provider_category: "llm".to_string(),
    }
}

#[test]
fn server_settings_template() {
    let t = ServerConfig::default_template();
    assert!(t.starts_with("[server]\nhost = \"0.0.0.0\"\nport = 8080\n"));
    assert!(t.contains("[jwt]\nsecret = \"change-me-in-production\"\nexpiration_hours = 24\n"));
    assert!(t.ends_with("[logging]\nlevel = \"info\"\n"));
}

#[test]
fn login_tokens() {
    let c = claims_for(7, "ann", "editor", 1_700_000_000, 24);
    assert_eq!(c.sub, "ann");
    assert_eq!(c.user_id, 7);
    assert_eq!(c.role, "editor");
    assert_eq!(c.exp, 1_700_000_000 + 24 * 3600);
    assert_eq!(bearer_token("Bearer abc.def"), Some("abc.def".to_string()));
    assert_eq!(bearer_token("Basic abc"), None);
    assert_eq!(bearer_token("Bearer "), Some(String::new()));
}

#[test]
fn node_schedule_access() {
    assert!(may_read_node_schedule(true, None, None));
    assert!(may_read_node_schedule(false, Some("s3cret"), Some("s3cret")));
    assert!(!may_read_node_schedule(false, Some("s3cret"), Some("guess")));
    assert!(!may_read_node_schedule(false, None, Some("s3cret")));
    assert!(!may_read_node_schedule(false, Some("s3cret"), None));
}

#[test]
fn last_admin_is_kept() {
    let one_admin = vec![user(1, "admin"), user(2, "editor")];
    assert!(deletion_refused(&one_admin, 1));
    assert!(!deletion_refused(&one_admin, 2));
    assert!(!deletion_refused(&one_admin, 9));
    assert!(role_change_refused(&one_admin, 1, Some("viewer")));
    assert!(!role_change_refused(&one_admin, 1, Some("admin")));
    assert!(!role_change_refused(&one_admin, 1, None));
    let two_admins = vec![user(1, "admin"), user(2, "admin")];
    assert!(!deletion_refused(&two_admins, 1));
    assert!(!role_change_refused(&two_admins, 2, Some("editor")));
}

#[test]
fn library_rules() {
    assert!(is_valid_script_type("server_context"));
    assert!(!is_valid_script_type("overlay"));
    assert!(is_valid_reel_item_type("web"));
    assert!(!is_valid_reel_item_type("audio"));
    assert_eq!(next_reel_position(Some(4)), 5);
    assert_eq!(next_reel_position(None), 0);
    assert_eq!(total_duration_secs(&[10, 20, 30]), 60);
    assert_eq!(total_duration_secs(&[]), 0);
    assert_eq!(spot_reel_content_path(12), "spot_reel://12");
    assert!(!may_activate(Some(true), 0));
    assert!(may_activate(Some(true), 2));
    assert!(may_activate(Some(false), 0));
    assert!(may_activate(None, 0));
}

#[test]
fn script_lists() {
    assert!(is_json_script_list("  [{\"id\": 1}]"));
    assert!(!is_json_script_list("1,2"));
    assert!(!is_json_script_list(""));
    assert_eq!(csv_script_ids("1, 2,x, 3 ,"), vec![1, 2, 3]);
    assert_eq!(csv_script_ids(""), Vec::<i32>::new());
}

fn defaults() -> AdapterDefaults {
    AdapterDefaults {
        ollama_endpoint: "http://localhost:11434/api/generate".to_string(),
        ollama_model: "llama3".to_string(),
        openai_endpoint: "https://api.openai.com/v1/chat/completions".to_string(),
        openai_model: "gpt-3.5-turbo".to_string(),
        gemini_model: "gemini-pro".to_string(),
        anthropic_model: "opus".to_string(),
    }
}

#[test]
fn language_model_adapters() {
    let d = defaults();
    assert_eq!(llm_engine(&provider("lmstudio", None, None)), Ok(LlmEngine::OpenAi));
    assert_eq!(llm_engine(&provider("google", None, None)), Ok(LlmEngine::Gemini));
    assert_eq!(llm_engine(&provider("mystery", None, None)), Err("Unsupported LLM provider type: mystery".to_string()));
    let o = llm_settings(LlmEngine::Ollama, &provider("ollama", None, None), &d).ok().unwrap();
    assert_eq!(o.endpoint_url, "http://localhost:11434/api/generate");
    assert_eq!(o.model, "llama3");
    let g = llm_settings(LlmEngine::Gemini, &provider("gemini", Some("K"), Some("gemini-1.5")), &d).ok().unwrap();
    assert_eq!(g.endpoint_url, "https://generativelanguage.googleapis.com/v1beta/models/gemini-1.5:generateContent?key=K");
    assert_eq!(
        llm_settings(LlmEngine::Anthropic, &provider("anthropic", None, None), &d).err(),
        Some("Anthropic provider API key is missing".to_string())
    );
    let oa = llm_settings(LlmEngine::OpenAi, &provider("openai", None, None), &d).ok().unwrap();
    assert_eq!(oa.api_key, "");
    assert_eq!(oa.model, "gpt-3.5-turbo");
    let a = llm_settings(LlmEngine::Anthropic, &provider("anthropic", Some("k"), None), &d).ok().unwrap();
    assert_eq!(a.model, "opus");
    assert_eq!(a.endpoint_url, "https://api.anthropic.com/v1/messages");
    assert_eq!(bearer_header("sk"), "Bearer sk");
}

#[test]
fn node_connection_session() {
    let mut s = NodeSession::new();
    assert!(s.handle(NodeEvent::Heartbeat { errors: vec![] }).is_empty());
    let acts = s.handle(NodeEvent::AuthChecked(Err("Invalid credentials".to_string())));
    assert_eq!(acts.len(), 1);
    assert!(matches!(&acts[0], SessionAction::AuthResponse { success: false, node_id: None, .. }));
    let acts = s.handle(NodeEvent::AuthChecked(Ok(4)));
    assert!(matches!(&acts[0], SessionAction::AuthResponse { success: true, node_id: Some(4), .. }));
    assert!(matches!(acts[1], SessionAction::Register(4)));
    let acts = s.handle(NodeEvent::Heartbeat { errors: vec!["a".to_string(), "b".to_string()] });
    match &acts[0] {
        SessionAction::StoreStatus { id, errors } => {
            assert_eq!(*id, 4);
            assert_eq!(errors.as_deref(), Some("a; b"));
        },
        _ => panic!("expected a status update"),
    }
    assert!(matches!(acts[1], SessionAction::HeartbeatAck));
    assert!(matches!(s.handle(NodeEvent::Screenshot)[0], SessionAction::SaveScreenshot(4)));
    assert_eq!(screenshot_path(None, 4), "static/screenshots/node_4.jpg");
    assert_eq!(screenshot_path(Some("ui"), 4), "ui/screenshots/node_4.jpg");
}

#[test]
fn node_log_keeps_last_hundred() {
    let mut log = NodeLog::new(3);
    for i in 0..130 {
        log.push(LogEntry {
            level: "INFO".to_string(),
            message: format!("m{}", i),
            target: "t".to_string(),
            timestamp: String::new(),
        });
    }
    assert_eq!(log.entries().len(), 100);
    assert_eq!(log.entries()[0].message, "m30");
    assert_eq!(log.entries()[99].message, "m129");
    assert_eq!(log.node_id(), 3);
}

#[test]
fn housekeeping() {
    let old = Some(16 * 60 * 1_000_000_000u64);
    assert!(tts_file_expired("static/tts/a.wav", old));
    assert!(tts_file_expired("static/tts/noext", old));
    assert!(!tts_file_expired("static/tts/a.txt", old));
    assert!(!tts_file_expired("static/tts/a.mp3", Some(60_000_000_000)));
    assert!(!tts_file_expired("static/tts/a.mp3", None));
    let recorded = vec!["bumper_backs/keep.mp4".to_string()];
    assert!(!is_orphan_back("keep.mp4", &recorded));
    assert!(is_orphan_back("stray.mp4", &recorded));
    assert_eq!(seed_mlt_path("Solid Blue"), "bumper_backs/solid_blue.mlt");
    assert_eq!(seed_action(None), SeedAction::Insert);
    assert_eq!(seed_action(Some(true)), SeedAction::Update);
    assert_eq!(seed_action(Some(false)), SeedAction::Keep);
}

#[test]
fn password_hash_verifies_for_same_password_only() {
    let h = hash_password("hunter2").expect("hashing works");
    assert_eq!(h.len(), 60);
    assert!(h.starts_with("$2b$12$"));
    assert_eq!(verify_password("hunter2", &h), Ok(true));
    assert_eq!(verify_password("hunter3", &h), Ok(false));
}

#[test]
fn password_check_against_unreadable_hash_fails() {
    assert_eq!(verify_password("hunter2", "not a hash"), Err(PasswordError::InvalidHash));
}

fn plan(v: &[ScriptPlan]) -> Vec<(usize, Option<usize>)> {
    v.iter().map(|p| (p.script, p.params)).collect()
}

#[test]
fn transformer_plan_runs_every_loaded_script_with_last_config() {
    // Configured ids 7, 3, 7: script 7's parameters come from the third entry.
    let r = transformer_plan(&[7, 3, 7], &[Some(3), Some(7), Some(8)]);
    assert_eq!(plan(&r), vec![(0, Some(1)), (1, Some(2)), (2, None)]);
}

#[test]
fn context_plan_follows_configuration_order() {
    // Id 9 was not loaded; id 4 was loaded twice, the later copy runs.
    let r = context_script_plan(&[4, 9, 2], &[Some(2), Some(4), Some(4)]);
    assert_eq!(plan(&r), vec![(2, Some(0)), (0, Some(2))]);
}

#[test]
fn collected_outputs_skip_blank_or_empty() {
    let outs = vec!["a".to_string(), "  ".to_string(), String::new(), "b".to_string()];
    assert_eq!(collect_output(&outs, true), "a\nb\n");
    assert_eq!(collect_output(&outs, false), "a\n  \nb\n");
}

#[test]
fn test_run_output_variables() {
    assert_eq!(test_output_variable("server_context"), Some("context".to_string()));
    assert_eq!(test_output_variable("transformer"), Some("output".to_string()));
    assert_eq!(test_output_variable("global"), None);
}

#[test]
fn script_ids_sorted_once() {
    assert_eq!(sorted_unique(&[5, 1, 5, 3, 1]), vec![1, 3, 5]);
    assert!(sorted_unique(&[]).is_empty());
}

#[test]
fn user_updates_keep_an_administrator() {
    let admin = user(1, "admin");
    let viewer = user(3, "viewer");
    let mut table = vec![user(1, "admin"), user(2, "editor"), user(3, "viewer")];
    assert_eq!(update_user(&viewer, &mut table, 2, Some("x"), None, None), Err(UserChangeError::Forbidden));
    assert_eq!(table[1].username, "u2");
    assert_eq!(update_user(&admin, &mut table, 1, Some("boss"), None, Some("editor")), Err(UserChangeError::LastAdmin));
    assert_eq!(table[0].username, "u1");
    assert_eq!(table[0].role, "admin");
    assert_eq!(update_user(&admin, &mut table, 2, Some("ed"), Some("pw"), Some("admin")), Ok(()));
    assert_eq!(table[1].username, "ed");
    assert_eq!(table[1].role, "admin");
    assert_eq!(verify_password("pw", &table[1].password_hash), Ok(true));
    assert_eq!(update_user(&admin, &mut table, 1, None, None, Some("viewer")), Ok(()));
    assert_eq!(table[0].role, "viewer");
    assert_eq!(table.iter().filter(|u| u.role == "admin").count(), 1);
    let before: Vec<String> = table.iter().map(|u| u.username.clone()).collect();
    assert_eq!(update_user(&admin, &mut table, 42, Some("ghost"), None, Some("admin")), Err(UserChangeError::NotFound));
    assert_eq!(table.iter().map(|u| u.username.clone()).collect::<Vec<_>>(), before);
}

#[test]
fn user_deletions_keep_an_administrator() {
    let admin = user(1, "admin");
    let mut table = vec![user(1, "admin"), user(2, "editor")];
    assert_eq!(delete_user(&user(2, "editor"), &mut table, 2), Err(UserChangeError::Forbidden));
    assert_eq!(delete_user(&admin, &mut table, 1), Err(UserChangeError::LastAdmin));
    assert_eq!(table.len(), 2);
    assert_eq!(delete_user(&admin, &mut table, 2), Ok(()));
    assert_eq!(table.len(), 1);
    assert_eq!(delete_user(&admin, &mut table, 9), Ok(()));
    assert_eq!(table.len(), 1);
}

#[test]
fn default_login_is_admin_admin() {
    let mut table = vec![user(2, "editor")];
    assert_eq!(seed_admin(&mut table), Ok(true));
    assert_eq!(table.len(), 2);
    assert_eq!(table[1].username, "admin");
    assert_eq!(table[1].role, "admin");
    assert_eq!(verify_password("admin", &table[1].password_hash), Ok(true));
    assert_eq!(seed_admin(&mut table), Ok(false));
    assert_eq!(table.len(), 2);
}
