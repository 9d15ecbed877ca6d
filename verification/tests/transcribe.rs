use tpk_whisper::transcribe::{
    last_json_line, local_transcript, reply_outcome, split_launcher, transcription_url,
    LocalAsrError, LocalReply,
};

#[test]
fn url_from_base() {
    assert_eq!(
        transcription_url("https://api.opentyphoon.ai/v1"),
        "https://api.opentyphoon.ai/v1/audio/transcriptions"
    );
    assert_eq!(
        transcription_url("https://api.opentyphoon.ai/v1///"),
        "https://api.opentyphoon.ai/v1/audio/transcriptions"
    );
    assert_eq!(transcription_url(""), "/audio/transcriptions");
}

#[test]
fn launcher_split() {
    let (program, args) = split_launcher("uv run --python 3.10 --with typhoon-asr python").unwrap();
    assert_eq!(program, "uv");
    assert_eq!(args, vec!["run", "--python", "3.10", "--with", "typhoon-asr", "python"]);
    let (program, args) = split_launcher("  /path/.venv/bin/python\n").unwrap();
    assert_eq!(program, "/path/.venv/bin/python");
    assert!(args.is_empty());
    assert!(split_launcher("").is_none());
    assert!(split_launcher(" \t ").is_none());
}

fn std_last_json_line(s: &str) -> Option<String> {
    s.lines().rev().find(|l| l.trim_start().starts_with('{')).map(String::from)
}

#[test]
fn last_json_line_like_std() {
    for s in [
        "",
        "loading model\n{\"text\": \"hi\"}\n",
        "{\"a\":1}\n{\"b\":2}\nnot json",
        "  {x}\r\nb",
        "\n\n",
        "a\r\n{\"t\":1}\r",
        "\u{3000}{ok}",
        "no json here\n",
    ] {
        assert_eq!(last_json_line(s), std_last_json_line(s), "{:?}", s);
    }
}

#[test]
fn transcript_from_text() {
    let r = local_transcript("loading\n{\"text\": \"hello\"}\n", "");
    assert_eq!(r.unwrap(), "hello");
}

#[test]
fn transcript_error_reported() {
    match local_transcript("{\"error\": \"boom\"}", "") {
        Err(LocalAsrError::Failed(m)) => assert_eq!(m, "boom"),
        other => panic!("{:?}", other),
    }
}

#[test]
fn transcript_without_json_line() {
    match local_transcript("just logs\n", "  Traceback: oops \n") {
        Err(LocalAsrError::NoOutput { stderr }) => assert_eq!(stderr, "Traceback: oops"),
        other => panic!("{:?}", other),
    }
}

#[test]
fn transcript_with_bad_json() {
    assert!(matches!(local_transcript("{not json", ""), Err(LocalAsrError::InvalidJson(_))));
}

#[test]
fn non_string_members_are_ignored() {
    assert_eq!(local_transcript("{\"text\": 5}", "").unwrap(), "");
    assert_eq!(local_transcript("{\"error\": 3, \"text\": \"x\"}", "").unwrap(), "x");
    assert_eq!(local_transcript("{}", "").unwrap(), "");
}

#[test]
fn outcome_of_reply() {
    let r = reply_outcome(LocalReply { error: Some("bad".to_string()), text: Some("t".to_string()) });
    assert!(matches!(r, Err(LocalAsrError::Failed(ref m)) if m == "bad"));
    let r = reply_outcome(LocalReply { error: None, text: Some("t".to_string()) });
    assert_eq!(r.unwrap(), "t");
    let r = reply_outcome(LocalReply { error: None, text: None });
    assert_eq!(r.unwrap(), "");
}
