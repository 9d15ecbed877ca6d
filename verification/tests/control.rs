use tpk_whisper::config::Config;
use tpk_whisper::control::{
    backend_of, has_speech, key_action, plan_transcription, Backend, KeyAction, KeyEvent, Plan,
};
use tpk_whisper::ratelimit::RateLimiter;

#[test]
fn hotkey_table() {
    assert_eq!(key_action(false, KeyEvent::Pressed), KeyAction::StartRecording);
    assert_eq!(key_action(true, KeyEvent::Pressed), KeyAction::Ignore);
    assert_eq!(key_action(true, KeyEvent::Released), KeyAction::StopAndTranscribe);
    assert_eq!(key_action(false, KeyEvent::Released), KeyAction::Ignore);
}

#[test]
fn held_key_records_once() {
    let mut recording = false;
    let mut actions = Vec::new();
    for ev in [KeyEvent::Pressed, KeyEvent::Pressed, KeyEvent::Pressed, KeyEvent::Released] {
        let a = key_action(recording, ev);
        recording = match a {
            KeyAction::StartRecording => true,
            KeyAction::StopAndTranscribe => false,
            KeyAction::Ignore => recording,
        };
        actions.push(a);
    }
    assert_eq!(
        actions,
        vec![KeyAction::StartRecording, KeyAction::Ignore, KeyAction::Ignore, KeyAction::StopAndTranscribe]
    );
    assert!(!recording);
}

#[test]
fn backend_names() {
    assert_eq!(backend_of(&"api".to_string()), Backend::Api);
    assert_eq!(backend_of(&"local".to_string()), Backend::Local);
    assert_eq!(backend_of(&"API".to_string()), Backend::Local);
    assert_eq!(backend_of(&String::new()), Backend::Local);
}

#[test]
fn local_backend_needs_no_key_nor_limit() {
    let c = Config::default();
    let mut l = RateLimiter::new(0, 1);
    assert_eq!(plan_transcription(&c, &mut l), Plan::TranscribeLocally);
}

#[test]
fn api_backend_needs_key() {
    let mut c = Config::default();
    c.backend = "api".to_string();
    c.api_key = "  \t".to_string();
    let mut l = RateLimiter::new(1, 1_000_000_000_000);
    assert_eq!(plan_transcription(&c, &mut l), Plan::MissingApiKey);
    c.api_key = "sk".to_string();
    assert_eq!(plan_transcription(&c, &mut l), Plan::TranscribeWithApi);
    assert_eq!(plan_transcription(&c, &mut l), Plan::RateLimited);
}

#[test]
fn speech_detection() {
    assert!(has_speech("hello"));
    assert!(!has_speech(""));
    assert!(!has_speech(" \n\u{3000}"));
}
