use slatron::node_config::{default_voice_socket, Config as NodeConfig};
use slatron::node_media::{capture_is_fresh, find_chrome_binary, play_args, url_hash, MpvClient};
use slatron::node_playback::{
    api_base_url, bumper_cache_name, bumper_download_url, bumper_info_url, global_script_ids, hook_follow_up,
    node_schedule_url, playback_step, queue_path, reel_order, remember_loaded, reported_content,
    resolve_content_path, schedule_base_url, scripts_to_run, spot_reel_url, transform_report, ContentCache,
    HookFollowUp, PlaybackStep, ReelItemKind, ScriptCatalog, SpotReelItemResponse, TransformReport,
    TransformerEntry,
};
use slatron::node_schedule::{file_schedule, ScheduleBlock, ScheduleCache, ServerContentItem, ServerScheduleBlock, ServerScript};

fn block(start: u32, dur: i32, content: Option<i32>) -> ScheduleBlock {
    ScheduleBlock { start_time: start, duration_minutes: dur, content_id: content, content_path: None, script_id: None }
}

fn item(id: i32, path: &str) -> ServerContentItem {
    ServerContentItem { id, content_path: path.to_string(), transformer_scripts: None }
}

fn script(id: i32, name: &str, body: &str) -> ServerScript {
    ServerScript { id, name: name.to_string(), script_content: body.to_string(), script_type: "transformer".to_string() }
}

#[test]
fn node_settings_template() {
    assert_eq!(default_voice_socket(), "/tmp/mpv-socket-voice");
    let t = NodeConfig::default_template();
    assert!(t.starts_with("node_name = \"Local\"\nserver_url = \"ws://127.0.0.1:8080/ws\"\n"));
    assert!(t.contains("voice_mpv_socket_path = \"/tmp/mpv-socket-voice\"\n"));
}

#[test]
fn schedule_cache_lookup() {
    let mut cache = ScheduleCache::new();
    assert!(cache.get_blocks_for_date(10).is_none());
    cache.update(10, vec![block(3600, 60, Some(1)), block(7200, 30, Some(2)), block(7200, 60, Some(3))]);
    assert_eq!(cache.get_current_block(10, 3600).unwrap().content_id, Some(1));
    assert_eq!(cache.get_current_block(10, 7199).unwrap().content_id, Some(1));
    assert_eq!(cache.get_current_block(10, 7300).unwrap().content_id, Some(2));
    assert_eq!(cache.get_current_block(10, 9100).unwrap().content_id, Some(3));
    assert!(cache.get_current_block(10, 10800).is_none());
    assert!(cache.get_current_block(11, 3600).is_none());
    cache.update(10, vec![]);
    assert!(cache.get_current_block(10, 3600).is_none());
}

#[test]
fn server_blocks_are_filed_by_day() {
    let mut cache = ScheduleCache::new();
    cache.update(99, vec![block(0, 10, Some(9))]);
    let blocks = vec![
        ServerScheduleBlock { content_id: Some(1), day_of_week: Some(2), specific_date: None, start_time: 0, duration_minutes: 30, script_id: None },
        ServerScheduleBlock { content_id: Some(2), day_of_week: Some(3), specific_date: None, start_time: 0, duration_minutes: 30, script_id: None },
        ServerScheduleBlock { content_id: Some(3), day_of_week: None, specific_date: Some(50), start_time: 60, duration_minutes: 5, script_id: Some(4) },
        ServerScheduleBlock { content_id: None, day_of_week: Some(2), specific_date: None, start_time: 900, duration_minutes: 5, script_id: None },
    ];
    let items = vec![item(1, "/old/1.mp4"), item(3, "/m/3.mp4"), item(1, "/m/1.mp4")];
    file_schedule(&mut cache, &blocks, &items, 40, 2);
    let today = cache.get_blocks_for_date(40).unwrap();
    assert_eq!(today.len(), 2);
    assert_eq!(today[0].content_path, Some("/m/1.mp4".to_string()));
    assert_eq!(today[1].content_id, None);
    let other = cache.get_blocks_for_date(50).unwrap();
    assert_eq!(other.len(), 1);
    assert_eq!(other[0].content_path, Some("/m/3.mp4".to_string()));
    assert_eq!(other[0].script_id, Some(4));
    assert_eq!(cache.get_blocks_for_date(99).unwrap().len(), 1);
}

#[test]
fn server_addresses() {
    assert_eq!(api_base_url("ws://tv.local:8080/ws"), "http://tv.local:8080");
    assert_eq!(api_base_url("wss://tv.example.com/ws"), "https://tv.example.com");
    assert_eq!(schedule_base_url("ws://tv.local:8080/ws"), "http://tv.local:8080");
    assert_eq!(node_schedule_url("http://h", 7), "http://h/api/nodes/7/schedule");
    assert_eq!(spot_reel_url("http://h", 3), "http://h/api/spot-reels/3");
    assert_eq!(bumper_info_url("http://h", "12"), "http://h/api/bumpers/12");
    assert_eq!(bumper_info_url("http://h", "Station Ident"), "http://h/api/bumpers");
    assert_eq!(bumper_cache_name("media/bumpers/x.mp4"), "x.mp4");
    assert_eq!(bumper_download_url("http://h", "media/x.mp4"), "http://h/media/x.mp4");
}

#[test]
fn content_cache_and_commands() {
    let mut cache = ContentCache::new();
    assert_eq!(
        resolve_content_path(&cache, 5, None),
        Err("Content ID 5 not found in cache".to_string())
    );
    remember_loaded(&mut cache, 5, &Some("/a.mp4".to_string()));
    assert_eq!(resolve_content_path(&cache, 5, None), Ok("/a.mp4".to_string()));
    assert_eq!(resolve_content_path(&cache, 5, Some("/b.mp4".to_string())), Ok("/b.mp4".to_string()));
    assert_eq!(queue_path(&mut cache, 6, None), None);
    assert_eq!(queue_path(&mut cache, 6, Some("/c.mp4".to_string())), Some("/c.mp4".to_string()));
    assert_eq!(queue_path(&mut cache, 6, None), Some("/c.mp4".to_string()));
    cache.insert(item(5, "/z.mp4"));
    assert_eq!(cache.path_of(5), Some("/z.mp4".to_string()));
    assert_eq!(cache.transformers(5), None);
    cache.insert(ServerContentItem { id: 7, content_path: "/t.mp4".to_string(), transformer_scripts: Some("[3]".to_string()) });
    assert_eq!(cache.transformers(7), Some("[3]".to_string()));
    cache.insert(ServerContentItem { id: 7, content_path: "/t.mp4".to_string(), transformer_scripts: None });
    assert_eq!(cache.transformers(7), None);
    assert_eq!(cache.transformers(8), None);
}

#[test]
fn playback_decisions() {
    let b = block(0, 10, Some(4));
    assert_eq!(playback_step(None, Some(&b)), PlaybackStep::Switch);
    assert_eq!(playback_step(Some(4), Some(&b)), PlaybackStep::Keep);
    assert_eq!(playback_step(Some(4), None), PlaybackStep::Stop);
    assert_eq!(playback_step(None, None), PlaybackStep::Keep);
}

#[test]
fn reported_content_follows_player() {
    let mut cache = ContentCache::new();
    cache.insert(item(1, "/media/a.mp4"));
    cache.insert(item(2, "/media/b.mp4"));
    assert_eq!(reported_content(Some(1), true, Some("/media/a.mp4"), &cache), None);
    assert_eq!(reported_content(Some(1), false, None, &cache), None);
    assert_eq!(reported_content(Some(1), false, Some("/media/a.mp4"), &cache), Some(1));
    assert_eq!(reported_content(Some(1), false, Some("/media/b.mp4"), &cache), Some(2));
    assert_eq!(reported_content(None, false, Some("/other/dir/b.mp4"), &cache), Some(2));
    assert_eq!(reported_content(Some(1), false, Some("/media/c.mp4"), &cache), Some(1));
}

fn reel_item(position: i32, kind: &str) -> SpotReelItemResponse {
    SpotReelItemResponse {
        id: None,
        item_type: kind.to_string(),
        item_path: format!("/p/{}", position),
        display_duration_secs: 5,
        position,
        title: None,
    }
}

#[test]
fn spot_reels_play_by_position() {
    let items = vec![reel_item(3, "image"), reel_item(1, "video"), reel_item(3, "web"), reel_item(0, "gif")];
    assert_eq!(reel_order(&items), vec![3, 1, 0, 2]);
    assert_eq!(items[0].kind(), ReelItemKind::Image);
    assert_eq!(items[3].kind(), ReelItemKind::Unknown);
    assert_eq!(items[1].display_title(), "/p/1");
}

#[test]
fn scripts_around_content() {
    let mut catalog = ScriptCatalog::new();
    catalog.add(script(1, "Station Bug", "bug"));
    catalog.add(script(2, "Loop", "loop"));
    catalog.add(script(1, "Station Bug", "bug2"));
    assert_eq!(global_script_ids("[\"Station Bug\", \"Missing\"]", &catalog), vec![1]);
    assert_eq!(global_script_ids("[2, 1]", &catalog), vec![2, 1]);
    assert_eq!(global_script_ids("2", &catalog), vec![2]);
    assert_eq!(global_script_ids("nope", &catalog), Vec::<i32>::new());
    let entries = vec![
        TransformerEntry::Integer(2),
        TransformerEntry::Object { id: None, script_id: Some(Some(1)) },
        TransformerEntry::Object { id: Some(None), script_id: Some(Some(2)) },
        TransformerEntry::Other,
        TransformerEntry::Integer(77),
    ];
    let runs = scripts_to_run(&[1], &entries, &catalog);
    let got: Vec<(String, Option<usize>)> = runs.into_iter().map(|r| (r.content, r.entry)).collect();
    assert_eq!(
        got,
        vec![("bug2".to_string(), None), ("loop".to_string(), Some(0)), ("bug2".to_string(), Some(1))]
    );
}

#[test]
fn hook_outcomes() {
    assert_eq!(hook_follow_up(None), HookFollowUp::Done);
    assert_eq!(hook_follow_up(Some("Function not found: on_load (map)")), HookFollowUp::RetryWithoutArgs);
    assert_eq!(hook_follow_up(Some("Runtime error")), HookFollowUp::Failed);
    assert_eq!(transform_report(None, false), TransformReport::Applied);
    assert_eq!(transform_report(Some("not found"), true), TransformReport::LegacyOnly);
    assert_eq!(transform_report(Some("not found"), false), TransformReport::NoEffect);
    assert_eq!(transform_report(Some("boom"), true), TransformReport::Failed);
}

#[test]
fn media_tools() {
    let m = MpvClient::new("/tmp/test_socket".to_string());
    assert_eq!(m.socket_path(), "/tmp/test_socket");
    assert_eq!(play_args("/a.mp4", None, None), vec!["loadfile", "/a.mp4", "replace"]);
    assert_eq!(
        play_args("/a.mp4", Some("12.5"), Some(true)),
        vec!["loadfile", "/a.mp4", "replace", "0", "start=12.5,loop-file=inf"]
    );
    assert_eq!(play_args("/a.mp4", None, Some(false)), vec!["loadfile", "/a.mp4", "replace"]);
    assert_eq!(find_chrome_binary(&[false, false, true, true]), "google-chrome");
    assert_eq!(find_chrome_binary(&[false, false, false, false]), "chromium");
    assert_eq!(find_chrome_binary(&[]), "chromium");
    assert!(capture_is_fresh(Some(299)));
    assert!(!capture_is_fresh(Some(300)));
    assert!(!capture_is_fresh(None));
}

#[test]
fn capture_cache_names() {
    // SHA-256("abc") begins ba7816bf8f01cfea.
    assert_eq!(url_hash("abc"), "ba7816bf8f01cfea");
    assert_eq!(url_hash(""), "e3b0c44298fc1c14");
    assert_eq!(url_hash("https://example.com").len(), 16);
    assert_ne!(url_hash("https://example.com/a"), url_hash("https://example.com/b"));
}

#[test]
fn white_space_matches_std() {
    for u in 0u32..=0x10FFFF {
        if let Some(c) = char::from_u32(u) {
            assert_eq!(slatron::text::is_whitespace(c), c.is_whitespace(), "code point {:x}", u);
        }
    }
}
