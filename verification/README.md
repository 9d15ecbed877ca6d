# tpk_whisper

The verified core of a push-to-talk dictation tool for macOS: hold a global
hotkey and talk, release it and the speech is transcribed (by a local
`typhoon-asr` model or Typhoon's cloud API) and pasted where the cursor is.

- `src/` is the library, verified with Verus:
  - `ratelimit.rs`: the sliding-window limiter for the API (100 requests per
    minute), with the law that no window ending at a request holds more
    requests let through than the limit.
  - `config.rs`: the settings, their defaults, and how Settings stores them.
  - `control.rs`: what a hotkey event does, which backend transcribes a
    recording, whether a transcript is pasted.
  - `audio.rs`: downmixing of interleaved integer samples to mono 16-bit.
  - `transcribe.rs`: the API endpoint, the launcher command line of the local
    backend, and the reading of its output.
  - `search_path.rs`: the `PATH` handed to the local backend's launcher.
  - `text.rs`: Unicode whitespace, trimming, splitting and joining.
- `tests/` runs the library on concrete values.
- `app/` is the Tauri app around it: tray, hotkey, microphone capture, HTTP,
  the Python subprocess, clipboard and synthetic paste, the config file.
