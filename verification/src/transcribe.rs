//! What the two transcription backends compute around their I/O: the API
//! endpoint, the launcher command line, and the reading of the local script's
//! output.
use crate::text::{
    lemma_trim_start_at,     chars_of, is_white, is_white_char, split_whitespace_str, string_of, strip_trailing,
    strip_trailing_str, trim, trim_start, trim_str, views, words,
};
use vstd::prelude::*;

verus! {

/// Where the audio is posted: the base URL without its trailing slashes,
/// followed by `/audio/transcriptions`.
pub fn transcription_url(base_url: &str) -> (r: String)
    ensures
        r@ == strip_trailing(base_url@, '/') + "/audio/transcriptions"@,
{
    let mut r = strip_trailing_str(base_url, '/');
    r.append("/audio/transcriptions");
    r
}

/// Slashes at the end of the base URL do not change the endpoint: the URL has
/// exactly the base without them, then one slash before `audio/transcriptions`.
pub proof fn lemma_trailing_slashes_ignored(base: Seq<char>)
    ensures
        strip_trailing(base.push('/'), '/') == strip_trailing(base, '/'),
        strip_trailing(base, '/').len() == 0 || strip_trailing(base, '/').last() != '/',
    decreases base.len(),
{
    assert(base.push('/').drop_last() == base);
    if base.len() > 0 && base.last() == '/' {
        lemma_trailing_slashes_ignored(base.drop_last());
    }
}

/// The launcher split on whitespace: the first word is the program, the rest are
/// its leading arguments; `None` when the launcher holds no word.
pub fn split_launcher(python_cmd: &str) -> (r: Option<(String, Vec<String>)>)
    ensures
        words(python_cmd@).len() == 0 <==> r is None,
        r matches Some((program, args)) ==> {
            &&& program@ == words(python_cmd@)[0]
            &&& views(args@) == words(python_cmd@).drop_first()
        },
{
    let mut parts = split_whitespace_str(python_cmd);
    if parts.len() == 0 {
        None
    } else {
        let ghost all = parts@;
        let program = parts.remove(0);
        assert(views(parts@) == views(all).drop_first());
        Some((program, parts))
    }
}

/// `l` without one carriage return at its end.
pub open spec fn strip_cr(l: Seq<char>) -> Seq<char> {
    if l.len() > 0 && l.last() == '\r' {
        l.drop_last()
    } else {
        l
    }
}

/// Lines read so far and the line being read, scanning `s` from the start.
pub open spec fn line_scan(s: Seq<char>) -> (Seq<Seq<char>>, Seq<char>)
    decreases s.len(),
{
    if s.len() == 0 {
        (Seq::empty(), Seq::empty())
    } else {
        let (done, cur) = line_scan(s.drop_last());
        if s.last() == '\n' {
            (done.push(strip_cr(cur)), Seq::empty())
        } else {
            (done, cur.push(s.last()))
        }
    }
}

/// The lines of `s`, as `str::lines` gives them: split at each `\n`, a `\r` just
/// before it dropped, and no empty last line after a final `\n`.
pub open spec fn lines(s: Seq<char>) -> Seq<Seq<char>> {
    let (done, cur) = line_scan(s);
    if cur.len() > 0 {
        done.push(cur)
    } else {
        done
    }
}

/// A line whose first non-whitespace character opens a JSON object.
pub open spec fn opens_object(l: Seq<char>) -> bool {
    trim_start(l).len() > 0 && trim_start(l)[0] == '{'
}

/// The last of `ls` that opens a JSON object.
pub open spec fn last_object_line(ls: Seq<Seq<char>>) -> Option<Seq<char>>
    decreases ls.len(),
{
    if ls.len() == 0 {
        None
    } else if opens_object(ls.last()) {
        Some(ls.last())
    } else {
        last_object_line(ls.drop_last())
    }
}

/// The view of an optional string.
pub open spec fn opt_view(o: Option<String>) -> Option<Seq<char>> {
    match o {
        Some(s) => Some(s@),
        None => None,
    }
}

/// Whether the line opens a JSON object.
fn line_opens_object(l: &Vec<char>) -> (r: bool)
    ensures
        r == opens_object(l@),
{
    let mut a: usize = 0;
    while a < l.len() && is_white_char(l[a])
        invariant
            a <= l.len(),
            forall|k: int| 0 <= k < a ==> is_white(#[trigger] l@[k]),
        decreases l.len() - a,
    {
        a = a + 1;
    }
    proof {
        lemma_trim_start_at(l@, a as int);
    }
    a < l.len() && l[a] == '{'
}

/// The last line of `output` whose first non-whitespace character is `{`.
pub fn last_json_line(output: &str) -> (r: Option<String>)
    ensures
        opt_view(r) == last_object_line(lines(output@)),
{
    let v = chars_of(output);
    let mut found: Option<String> = None;
    let mut cur: Vec<char> = Vec::new();
    for i in 0..v.len()
        invariant
            v@ == output@,
            opt_view(found) == last_object_line(line_scan(v@.take(i as int)).0),
            cur@ == line_scan(v@.take(i as int)).1,
    {
        let ghost done = line_scan(v@.take(i as int)).0;
        assert(v@.take(i + 1).drop_last() == v@.take(i as int));
        if v[i] == '\n' {
            if cur.len() > 0 && cur[cur.len() - 1] == '\r' {
                cur.pop();
            }
            assert(done.push(cur@).drop_last() == done);
            if line_opens_object(&cur) {
                found = Some(string_of(&cur));
            }
            cur = Vec::new();
        } else {
            cur.push(v[i]);
        }
    }
    assert(v@.take(v.len() as int) == v@);
    let ghost done = line_scan(v@).0;
    if cur.len() > 0 {
        assert(done.push(cur@).drop_last() == done);
        if line_opens_object(&cur) {
            found = Some(string_of(&cur));
        }
    }
    found
}


/// An error of `serde_json`, held opaque.
#[verifier::external_type_specification]
#[verifier::external_body]
pub struct ExJsonError(serde_json::Error);

/// What the local script reports on its last JSON line: its `"error"` and
/// `"text"` members, where they are strings.
#[derive(Debug)]
pub struct LocalReply {
    pub error: Option<String>,
    pub text: Option<String>,
}

/// The `"error"` and `"text"` string members of `line` read as JSON by
/// `serde_json::from_str::<serde_json::Value>`, or `None` where that parse fails.
/// A member that is missing, or that is not a JSON string, reads as `None`.
pub uninterp spec fn json_reply_members(line: Seq<char>) -> Option<(Option<Seq<char>>, Option<Seq<char>>)>;

/// Calls `serde_json::from_str::<serde_json::Value>` on `line` and reads the
/// `"error"` and `"text"` members (`Value::get`) where they hold strings. The
/// contract says only that the result is the named function of the line: which
/// lines parse, and to what, is serde_json's JSON grammar and is not restated here.
#[verifier::external_body]
fn read_json_reply(line: &str) -> (r: Result<LocalReply, serde_json::Error>)
    ensures
        match r {
            Ok(reply) => json_reply_members(line@) == Some((opt_view(reply.error), opt_view(reply.text))),
            Err(_) => json_reply_members(line@) is None,
        },
{
    let value: serde_json::Value = serde_json::from_str(line)?;
    let error = match value.get("error") {
        Some(serde_json::Value::String(s)) => Some(s.clone()),
        _ => None,
    };
    let text = match value.get("text") {
        Some(serde_json::Value::String(s)) => Some(s.clone()),
        _ => None,
    };
    Ok(LocalReply { error, text })
}

/// Why the local backend gave no transcript.
#[derive(Debug)]
pub enum LocalAsrError {
    /// The script printed no line that opens a JSON object; `stderr` is what it
    /// wrote to standard error, trimmed.
    NoOutput { stderr: String },
    /// That line is not JSON.
    InvalidJson(serde_json::Error),
    /// The script reported this error.
    Failed(String),
}

/// The transcript a reply gives: its error where it has one, else its text, or
/// nothing where it has neither.
pub open spec fn reply_gives(
    error: Option<Seq<char>>,
    text: Option<Seq<char>>,
    r: Result<String, LocalAsrError>,
) -> bool {
    match error {
        Some(e) => r matches Err(LocalAsrError::Failed(m)) && m@ == e,
        None => r matches Ok(t) && t@ == match text {
            Some(x) => x,
            None => Seq::<char>::empty(),
        },
    }
}

/// The transcript that a reply of the local script gives.
pub fn reply_outcome(reply: LocalReply) -> (r: Result<String, LocalAsrError>)
    ensures
        reply_gives(opt_view(reply.error), opt_view(reply.text), r),
{
    match reply.error {
        Some(e) => Err(LocalAsrError::Failed(e)),
        None => match reply.text {
            Some(t) => Ok(t),
            None => Ok(String::new()),
        },
    }
}

/// The transcript that the local script's output gives: its last line that opens
/// a JSON object, read as JSON, then as `reply_outcome` says.
pub fn local_transcript(stdout: &str, stderr: &str) -> (r: Result<String, LocalAsrError>)
    ensures
        match last_object_line(lines(stdout@)) {
            None => r matches Err(LocalAsrError::NoOutput { stderr: e }) && e@ == trim(stderr@),
            Some(line) => match json_reply_members(line) {
                None => r matches Err(LocalAsrError::InvalidJson(_)),
                Some((error, text)) => reply_gives(error, text, r),
            },
        },
{
    match last_json_line(stdout) {
        None => Err(LocalAsrError::NoOutput { stderr: trim_str(stderr) }),
        Some(line) => match read_json_reply(line.as_str()) {
            Err(e) => Err(LocalAsrError::InvalidJson(e)),
            Ok(reply) => reply_outcome(reply),
        },
    }
}

} // verus!
