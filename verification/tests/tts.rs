use slatron::models::AiProvider;
use slatron::tts::{
    audio_code, gemini_api_key, gemini_request_url, gemini_styled_text, orpheus_endpoint, orpheus_prompt,
    sanitize_orpheus_text, snac_layers, stream_line, tts_engine, voice_or, StreamLine, TtsConfig, TtsEngine,
};

fn provider(kind: &str, key: Option<&str>, endpoint: Option<&str>) -> AiProvider {
    AiProvider {
        id: Some(1),
        name: "voice".to_string(),
        provider_type: kind.to_string(),
        api_key: key.map(|k| k.to_string()),
        endpoint_url: endpoint.map(|e| e.to_string()),
        model_name: None,
        is_active: true,
        provider_category: "tts".to_string(),
    }
}

fn config(voice: Option<&str>, emotion: Option<&str>, modifier: Option<&str>) -> TtsConfig {
    TtsConfig {
        voice_name: voice.map(|s| s.to_string()),
        emotion: emotion.map(|s| s.to_string()),
        speech_modifier: modifier.map(|s| s.to_string()),
    }
}

#[test]
fn engines_by_provider_type() {
    assert_eq!(tts_engine(&provider("orpheus", None, None)), Ok(TtsEngine::Orpheus));
    assert_eq!(tts_engine(&provider("google", None, None)), Ok(TtsEngine::Gemini));
    assert_eq!(tts_engine(&provider("gemini-tts", None, None)), Ok(TtsEngine::Gemini));
    assert_eq!(tts_engine(&provider("elevenlabs", None, None)), Ok(TtsEngine::ElevenLabs));
    assert_eq!(tts_engine(&provider("piper", None, None)), Err("Unsupported TTS provider type: piper".to_string()));
}

#[test]
fn engine_settings() {
    assert_eq!(orpheus_endpoint(&provider("orpheus", None, None)), "http://127.0.0.1:1234/v1/completions");
    assert_eq!(orpheus_endpoint(&provider("orpheus", None, Some("http://x/v1"))), "http://x/v1");
    assert_eq!(gemini_api_key(&provider("gemini", Some("k"), None)), Ok("k".to_string()));
    assert_eq!(gemini_api_key(&provider("gemini", None, None)), Err("Gemini TTS provider API key is missing".to_string()));
    assert!(gemini_request_url("KEY").ends_with("gemini-2.5-flash-preview-tts:generateContent?key=KEY"));
    assert_eq!(voice_or(&config(None, None, None), "Aoede"), "Aoede");
    assert_eq!(voice_or(&config(Some("Puck"), None, None), "Aoede"), "Puck");
}

#[test]
fn styled_text_for_gemini() {
    assert_eq!(gemini_styled_text("Hi", &config(None, None, None)), "Hi");
    assert_eq!(gemini_styled_text("Hi", &config(None, Some("excited"), None)), "Say with a excited voice: Hi");
    assert_eq!(
        gemini_styled_text("Hi", &config(None, Some("sad"), Some("slowly"))),
        "Say with a sad voice, slowly: Hi"
    );
    assert_eq!(gemini_styled_text("Hi", &config(None, None, Some("   "))), "Hi");
}

#[test]
fn orpheus_tags_are_filtered() {
    assert_eq!(sanitize_orpheus_text("Hello <laugh> there"), "Hello <laugh> there");
    assert_eq!(sanitize_orpheus_text("Hi <smile>you"), "Hi you");
    assert_eq!(sanitize_orpheus_text("a < b"), "a < b");
    assert_eq!(sanitize_orpheus_text("open <sigh"), "open <sigh");
    assert_eq!(sanitize_orpheus_text("plain text"), "plain text");
    assert_eq!(orpheus_prompt("tara", "Yo <x>!"), "<|audio|>tara: Yo !<|eot_id|>");
}

#[test]
fn snac_frames() {
    let ids: Vec<i32> = (0..16).collect();
    let (a, b, c) = snac_layers(&ids);
    assert_eq!(a, vec![0, 7]);
    assert_eq!(b, vec![1, 4, 8, 11]);
    assert_eq!(c, vec![2, 3, 5, 6, 9, 10, 12, 13]);
}

#[test]
fn audio_tokens() {
    assert_eq!(audio_code("<custom_token_4106>", 0), Some(4096));
    assert_eq!(audio_code("  <custom_token_4106>  ", 1), Some(0));
    assert_eq!(audio_code("<custom_token_4106>", 2), None);
    assert_eq!(audio_code("<custom_token_1><custom_token_20>", 0), Some(10));
    assert_eq!(audio_code("<custom_token_x>", 0), None);
    assert_eq!(audio_code("<custom_token_12", 0), None);
    assert_eq!(audio_code("hello", 0), None);
    assert_eq!(audio_code("<custom_token_+15>", 7), Some(5));
}

#[test]
fn orpheus_stream_lines() {
    assert_eq!(stream_line("  data: {\"a\":1}  "), (StreamLine::Data, Some("{\"a\":1}".to_string())));
    assert_eq!(stream_line("data: [DONE]"), (StreamLine::Done, None));
    assert_eq!(stream_line("event: ping"), (StreamLine::Ignored, None));
    assert_eq!(stream_line("data:"), (StreamLine::Ignored, None));
    assert_eq!(stream_line("data: "), (StreamLine::Ignored, None));
    assert_eq!(stream_line("data:  x"), (StreamLine::Data, Some(" x".to_string())));
}
