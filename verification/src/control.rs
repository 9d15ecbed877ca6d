//! The decisions of the push-to-talk flow: what a hotkey event does, which
//! backend transcribes, and whether a transcript is pasted.
use crate::config::Config;
use crate::ratelimit::{admits, after_request, RateLimiter};
use crate::text::{is_blank, is_blank_str, is_white};
use vstd::prelude::*;

verus! {

/// A state change of the global hotkey.
#[derive(PartialEq, Eq, Structural, Clone, Copy, Debug)]
pub enum KeyEvent {
    Pressed,
    Released,
}

/// What the app does on a hotkey event.
#[derive(PartialEq, Eq, Structural, Clone, Copy, Debug)]
pub enum KeyAction {
    /// Start capturing the microphone.
    StartRecording,
    /// Stop capturing, then transcribe and paste.
    StopAndTranscribe,
    /// Nothing: a repeated press while recording, or a release while idle.
    Ignore,
}

/// Hold to record, release to transcribe: a press starts a recording unless one
/// is under way (key auto-repeat), a release stops the one under way.
pub open spec fn key_action_spec(recording: bool, event: KeyEvent) -> KeyAction {
    match event {
        KeyEvent::Pressed => if recording {
            KeyAction::Ignore
        } else {
            KeyAction::StartRecording
        },
        KeyEvent::Released => if recording {
            KeyAction::StopAndTranscribe
        } else {
            KeyAction::Ignore
        },
    }
}

/// Whether a recording is under way after `action`.
pub open spec fn recording_after(recording: bool, action: KeyAction) -> bool {
    match action {
        KeyAction::StartRecording => true,
        KeyAction::StopAndTranscribe => false,
        KeyAction::Ignore => recording,
    }
}

/// What a hotkey event does, given whether a recording is under way.
pub fn key_action(recording: bool, event: KeyEvent) -> (r: KeyAction)
    ensures
        r == key_action_spec(recording, event),
{
    match event {
        KeyEvent::Pressed => if recording {
            KeyAction::Ignore
        } else {
            KeyAction::StartRecording
        },
        KeyEvent::Released => if recording {
            KeyAction::StopAndTranscribe
        } else {
            KeyAction::Ignore
        },
    }
}

/// The actions for `events` in turn, and whether a recording is under way after
/// them.
pub open spec fn run_keys(recording: bool, events: Seq<KeyEvent>) -> (Seq<KeyAction>, bool)
    decreases events.len(),
{
    if events.len() == 0 {
        (Seq::empty(), recording)
    } else {
        let (actions, rec) = run_keys(recording, events.drop_last());
        let a = key_action_spec(rec, events.last());
        (actions.push(a), recording_after(rec, a))
    }
}

/// `n` presses, as a held key repeats them.
pub open spec fn presses(n: nat) -> Seq<KeyEvent> {
    Seq::new(n, |i: int| KeyEvent::Pressed)
}

proof fn lemma_held_key(n: nat)
    requires
        n > 0,
    ensures
        run_keys(false, presses(n)).1,
        run_keys(false, presses(n)).0 == seq![KeyAction::StartRecording] + Seq::new(
            (n - 1) as nat,
            |i: int| KeyAction::Ignore,
        ),
    decreases n,
{
    if n > 1 {
        lemma_held_key((n - 1) as nat);
        assert(presses(n).drop_last() == presses((n - 1) as nat));
        assert(presses(n).last() == KeyEvent::Pressed);
        let prev = seq![KeyAction::StartRecording] + Seq::new((n - 2) as nat, |i: int| KeyAction::Ignore);
        assert(prev.push(KeyAction::Ignore) == prev + seq![KeyAction::Ignore]);
        assert(seq![KeyAction::StartRecording] + Seq::new((n - 2) as nat, |i: int| KeyAction::Ignore)
            + seq![KeyAction::Ignore] == seq![KeyAction::StartRecording] + Seq::new(
            (n - 1) as nat,
            |i: int| KeyAction::Ignore,
        ));
    } else {
        assert(presses(1).drop_last() == Seq::<KeyEvent>::empty());
        assert(presses(1).last() == KeyEvent::Pressed);
        assert(run_keys(false, Seq::<KeyEvent>::empty()) == (Seq::<KeyAction>::empty(), false));
        assert(seq![KeyAction::StartRecording] + Seq::new(0, |i: int| KeyAction::Ignore)
            == Seq::<KeyAction>::empty().push(KeyAction::StartRecording));
    }
}

/// Holding the hotkey from idle, however often the held key repeats, then
/// releasing it, starts exactly one recording and stops it once, ending idle.
pub proof fn lemma_push_to_talk(n: nat)
    requires
        n > 0,
    ensures
        run_keys(false, presses(n).push(KeyEvent::Released)) == (
            seq![KeyAction::StartRecording] + Seq::new((n - 1) as nat, |i: int| KeyAction::Ignore)
                + seq![KeyAction::StopAndTranscribe],
            false,
        ),
{
    lemma_held_key(n);
    assert(presses(n).push(KeyEvent::Released).drop_last() == presses(n));
}

/// Which backend transcribes.
#[derive(PartialEq, Eq, Structural, Clone, Copy, Debug)]
pub enum Backend {
    /// Typhoon's cloud API.
    Api,
    /// The model on this machine.
    Local,
}

/// The backend a setting names: "api" is the cloud API, anything else the local
/// model (the default).
pub open spec fn backend_named(name: Seq<char>) -> Backend {
    if name == "api"@ {
        Backend::Api
    } else {
        Backend::Local
    }
}

/// The backend that the setting `name` selects.
pub fn backend_of(name: &String) -> (r: Backend)
    ensures
        r == backend_named(name@),
{
    if *name == "api".to_owned() {
        Backend::Api
    } else {
        Backend::Local
    }
}

/// What to do with a finished recording.
#[derive(PartialEq, Eq, Structural, Clone, Copy, Debug)]
pub enum Plan {
    /// Run the local model: no key, no network, no rate limit.
    TranscribeLocally,
    /// The API backend is selected but no API key is set: ask for one.
    MissingApiKey,
    /// The API's request limit is reached: drop the recording.
    RateLimited,
    /// Send the recording to the API.
    TranscribeWithApi,
}

/// Chooses how a finished recording is transcribed. With the local backend the
/// limiter is not consulted; with the API one, a blank key stops the request
/// before the limiter, which otherwise decides as `RateLimiter::try_acquire` does.
pub fn plan_transcription(config: &Config, limiter: &mut RateLimiter) -> (r: Plan)
    ensures
        final(limiter)@.window == old(limiter)@.window,
        final(limiter)@.max == old(limiter)@.max,
        backend_named(config.backend@) == Backend::Local ==> r == Plan::TranscribeLocally
            && final(limiter)@ == old(limiter)@,
        backend_named(config.backend@) == Backend::Api && is_blank(config.api_key@) ==> r
            == Plan::MissingApiKey && final(limiter)@ == old(limiter)@,
        backend_named(config.backend@) == Backend::Api && !is_blank(config.api_key@) ==> exists|
            now: u128,
        |
            {
                &&& (r == Plan::TranscribeWithApi) == admits(
                    old(limiter)@.hits,
                    now,
                    old(limiter)@.window,
                    old(limiter)@.max,
                )
                &&& (r == Plan::TranscribeWithApi || r == Plan::RateLimited)
                &&& final(limiter)@.hits == after_request(
                    old(limiter)@.hits,
                    now,
                    old(limiter)@.window,
                    old(limiter)@.max,
                )
            },
{
    match backend_of(&config.backend) {
        Backend::Local => Plan::TranscribeLocally,
        Backend::Api => {
            if is_blank_str(config.api_key.as_str()) {
                Plan::MissingApiKey
            } else if limiter.try_acquire() {
                Plan::TranscribeWithApi
            } else {
                Plan::RateLimited
            }
        },
    }
}

/// Whether a transcript holds speech to paste: it is not blank.
pub fn has_speech(text: &str) -> (r: bool)
    ensures
        r == !is_blank(text@),
        r == exists|k: int| 0 <= k < text@.len() && !is_white(#[trigger] text@[k]),
{
    !is_blank_str(text)
}

} // verus!
