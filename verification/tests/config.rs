use tpk_whisper::config::{
    default_backend, default_base_url, default_device, default_hotkey, default_local_model,
    default_model, default_python, Config, DEFAULT_PYTHON_CMD,
};

#[test]
fn defaults() {
    assert_eq!(default_base_url(), "https://api.opentyphoon.ai/v1");
    assert_eq!(default_model(), "typhoon-asr-realtime");
    assert_eq!(default_hotkey(), "Control+Alt+KeyD");
    assert_eq!(default_backend(), "local");
    assert_eq!(default_python(), "uv run --python 3.10 --with typhoon-asr python");
    assert_eq!(default_python(), DEFAULT_PYTHON_CMD);
    assert_eq!(default_local_model(), "scb10x/typhoon-asr-realtime");
    assert_eq!(default_device(), "auto");
}

#[test]
fn default_config() {
    let c = Config::default();
    assert_eq!(c.api_key, "");
    assert_eq!(c.base_url, "https://api.opentyphoon.ai/v1");
    assert_eq!(c.model, "typhoon-asr-realtime");
    assert_eq!(c.hotkey, "Control+Alt+KeyD");
    assert_eq!(c.backend, "local");
    assert_eq!(c.python_path, DEFAULT_PYTHON_CMD);
    assert_eq!(c.local_model, "scb10x/typhoon-asr-realtime");
    assert_eq!(c.device, "auto");
}

#[test]
fn settings_are_trimmed_and_stable() {
    let mut c = Config::default();
    c.device = "cpu".to_string();
    c.apply_settings("  sk-123 \n", "\tSuper+Shift+Space ");
    assert_eq!(c.api_key, "sk-123");
    assert_eq!(c.hotkey, "Super+Shift+Space");
    assert_eq!(c.device, "cpu");
    assert_eq!(c.base_url, "https://api.opentyphoon.ai/v1");
    let (k, h) = (c.api_key.clone(), c.hotkey.clone());
    c.apply_settings(&k, &h);
    assert_eq!(c.api_key, "sk-123");
    assert_eq!(c.hotkey, "Super+Shift+Space");
}
