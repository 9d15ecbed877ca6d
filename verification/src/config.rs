//! The user's settings and their default values.
use crate::text::{lemma_trim_idempotent, trim, trim_str};
use vstd::prelude::*;

verus! {

/// Default local launcher: uv builds a cached, pinned env with typhoon-asr on
/// first run, so only `uv` is needed on the system.
pub const DEFAULT_PYTHON_CMD: &'static str = "uv run --python 3.10 --with typhoon-asr python";

/// Base URL of the Typhoon API.
pub fn default_base_url() -> (r: String)
    ensures
        r@ == "https://api.opentyphoon.ai/v1"@,
{
    "https://api.opentyphoon.ai/v1".to_owned()
}

/// Model used with the Typhoon API.
pub fn default_model() -> (r: String)
    ensures
        r@ == "typhoon-asr-realtime"@,
{
    "typhoon-asr-realtime".to_owned()
}

/// Push-to-talk hotkey, in global-shortcut syntax.
pub fn default_hotkey() -> (r: String)
    ensures
        r@ == "Control+Alt+KeyD"@,
{
    "Control+Alt+KeyD".to_owned()
}

/// Transcription backend: the model runs on this machine.
pub fn default_backend() -> (r: String)
    ensures
        r@ == "local"@,
{
    "local".to_owned()
}

/// Launcher for the local backend.
pub fn default_python() -> (r: String)
    ensures
        r@ == DEFAULT_PYTHON_CMD@,
{
    DEFAULT_PYTHON_CMD.to_owned()
}

/// HuggingFace model id for the local backend.
pub fn default_local_model() -> (r: String)
    ensures
        r@ == "scb10x/typhoon-asr-realtime"@,
{
    "scb10x/typhoon-asr-realtime".to_owned()
}

/// Device for the local backend.
pub fn default_device() -> (r: String)
    ensures
        r@ == "auto"@,
{
    "auto".to_owned()
}

/// The user's settings.
#[derive(Clone, Debug)]
pub struct Config {
    pub api_key: String,
    pub base_url: String,
    pub model: String,
    /// Global-shortcut syntax, e.g. "Control+Alt+KeyD".
    pub hotkey: String,
    /// "api" (Typhoon cloud) or "local" (run the model on this machine).
    pub backend: String,
    /// Python interpreter or launcher used for the local backend.
    pub python_path: String,
    /// HuggingFace model id for the local backend.
    pub local_model: String,
    /// "auto" | "cpu" | "cuda" for the local backend.
    pub device: String,
}

/// The settings of a fresh install: no API key and every other field at its default.
pub open spec fn is_default_config(c: Config) -> bool {
    &&& c.api_key@ == Seq::<char>::empty()
    &&& c.base_url@ == "https://api.opentyphoon.ai/v1"@
    &&& c.model@ == "typhoon-asr-realtime"@
    &&& c.hotkey@ == "Control+Alt+KeyD"@
    &&& c.backend@ == "local"@
    &&& c.python_path@ == DEFAULT_PYTHON_CMD@
    &&& c.local_model@ == "scb10x/typhoon-asr-realtime"@
    &&& c.device@ == "auto"@
}

impl Default for Config {
    fn default() -> (r: Self)
        ensures
            is_default_config(r),
    {
        Config {
            api_key: String::new(),
            base_url: default_base_url(),
            model: default_model(),
            hotkey: default_hotkey(),
            backend: default_backend(),
            python_path: default_python(),
            local_model: default_local_model(),
            device: default_device(),
        }
    }
}

/// The fields other than the API key and the hotkey are the same.
pub open spec fn same_other_fields(a: Config, b: Config) -> bool {
    &&& a.base_url@ == b.base_url@
    &&& a.model@ == b.model@
    &&& a.backend@ == b.backend@
    &&& a.python_path@ == b.python_path@
    &&& a.local_model@ == b.local_model@
    &&& a.device@ == b.device@
}

impl Config {
    /// Stores the API key and the hotkey entered in Settings, each trimmed of
    /// surrounding whitespace; the other settings stay as they are.
    pub fn apply_settings(&mut self, api_key: &str, hotkey: &str)
        ensures
            final(self).api_key@ == trim(api_key@),
            final(self).hotkey@ == trim(hotkey@),
            same_other_fields(*final(self), *old(self)),
    {
        self.api_key = trim_str(api_key);
        self.hotkey = trim_str(hotkey);
    }
}


/// Settings stored by `apply_settings` are stable: entering them again as they
/// are stored leaves the API key and the hotkey unchanged.
pub proof fn lemma_settings_stable(c: Config, api_key: Seq<char>, hotkey: Seq<char>)
    requires
        c.api_key@ == trim(api_key),
        c.hotkey@ == trim(hotkey),
    ensures
        trim(c.api_key@) == c.api_key@,
        trim(c.hotkey@) == c.hotkey@,
{
    lemma_trim_idempotent(api_key);
    lemma_trim_idempotent(hotkey);
}

} // verus!
