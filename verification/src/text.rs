//! Character-level text handling: Unicode whitespace, trimming, splitting, joining.
use vstd::prelude::*;

verus! {

/// `String::push` appends one character at the end of the string.
pub assume_specification[ String::push ](s: &mut String, ch: char)
    ensures
        final(s)@ == old(s)@.push(ch),
;

/// The characters of `s`, in order.
pub fn chars_of(s: &str) -> (v: Vec<char>)
    ensures
        v@ == s@,
{
    let mut v: Vec<char> = Vec::new();
    for c in it: s.chars()
        invariant
            v@ == it.history(),
    {
        v.push(c);
    }
    v
}

/// The string made of the characters of `v`, in order.
pub fn string_of(v: &Vec<char>) -> (s: String)
    ensures
        s@ == v@,
{
    let mut s = String::new();
    for i in 0..v.len()
        invariant
            s@ == v@.take(i as int),
    {
        s.push(v[i]);
        assert(v@.take(i + 1) == v@.take(i as int).push(v@[i as int]));
    }
    assert(v@.take(v.len() as int) == v@);
    s
}


/// Unicode `White_Space`, the property that `char::is_whitespace` tests.
pub open spec fn is_white(c: char) -> bool {
    let u = c as u32;
    ||| 0x9 <= u <= 0xd
    ||| u == 0x20
    ||| u == 0x85
    ||| u == 0xa0
    ||| u == 0x1680
    ||| 0x2000 <= u <= 0x200a
    ||| u == 0x2028
    ||| u == 0x2029
    ||| u == 0x202f
    ||| u == 0x205f
    ||| u == 0x3000
}

/// Whether `c` is Unicode whitespace.
pub fn is_white_char(c: char) -> (r: bool)
    ensures
        r == is_white(c),
{
    let u = c as u32;
    (0x9 <= u && u <= 0xd) || u == 0x20 || u == 0x85 || u == 0xa0 || u == 0x1680 || (0x2000 <= u
        && u <= 0x200a) || u == 0x2028 || u == 0x2029 || u == 0x202f || u == 0x205f || u == 0x3000
}

/// `s` without its leading whitespace.
pub open spec fn trim_start(s: Seq<char>) -> Seq<char>
    decreases s.len(),
{
    if s.len() > 0 && is_white(s[0]) {
        trim_start(s.drop_first())
    } else {
        s
    }
}

/// `s` without its trailing whitespace.
pub open spec fn trim_end(s: Seq<char>) -> Seq<char>
    decreases s.len(),
{
    if s.len() > 0 && is_white(s.last()) {
        trim_end(s.drop_last())
    } else {
        s
    }
}

/// `s` without leading and trailing whitespace.
pub open spec fn trim(s: Seq<char>) -> Seq<char> {
    trim_end(trim_start(s))
}

/// `s` is empty or whitespace only.
pub open spec fn is_blank(s: Seq<char>) -> bool {
    trim(s).len() == 0
}

/// `s` without the copies of `c` at its end.
pub open spec fn strip_trailing(s: Seq<char>, c: char) -> Seq<char>
    decreases s.len(),
{
    if s.len() > 0 && s.last() == c {
        strip_trailing(s.drop_last(), c)
    } else {
        s
    }
}

pub(crate) proof fn lemma_trim_start_at(s: Seq<char>, a: int)
    requires
        0 <= a <= s.len(),
        forall|k: int| 0 <= k < a ==> is_white(#[trigger] s[k]),
        a == s.len() || !is_white(s[a]),
    ensures
        trim_start(s) == s.subrange(a, s.len() as int),
    decreases a,
{
    if a == 0 {
        assert(s.subrange(0, s.len() as int) == s);
    } else {
        let t = s.drop_first();
        assert forall|k: int| 0 <= k < a - 1 implies is_white(#[trigger] t[k]) by {
            assert(t[k] == s[k + 1]);
        }
        lemma_trim_start_at(t, a - 1);
        assert(t.subrange(a - 1, t.len() as int) == s.subrange(a, s.len() as int));
    }
}

proof fn lemma_trim_end_at(s: Seq<char>, b: int)
    requires
        0 <= b <= s.len(),
        forall|k: int| b <= k < s.len() ==> is_white(#[trigger] s[k]),
        b == 0 || !is_white(s[b - 1]),
    ensures
        trim_end(s) == s.subrange(0, b),
    decreases s.len() - b,
{
    if b == s.len() {
        assert(s.subrange(0, b) == s);
    } else {
        let t = s.drop_last();
        assert forall|k: int| b <= k < t.len() implies is_white(#[trigger] t[k]) by {
            assert(t[k] == s[k]);
        }
        lemma_trim_end_at(t, b);
        assert(t.subrange(0, b) == s.subrange(0, b));
    }
}

proof fn lemma_strip_trailing_at(s: Seq<char>, c: char, b: int)
    requires
        0 <= b <= s.len(),
        forall|k: int| b <= k < s.len() ==> #[trigger] s[k] == c,
        b == 0 || s[b - 1] != c,
    ensures
        strip_trailing(s, c) == s.subrange(0, b),
    decreases s.len() - b,
{
    if b == s.len() {
        assert(s.subrange(0, b) == s);
    } else {
        let t = s.drop_last();
        assert forall|k: int| b <= k < t.len() implies #[trigger] t[k] == c by {
            assert(t[k] == s[k]);
        }
        lemma_strip_trailing_at(t, c, b);
        assert(t.subrange(0, b) == s.subrange(0, b));
    }
}

/// The characters `v[from..to]` as a string.
pub fn string_of_range(v: &Vec<char>, from: usize, to: usize) -> (s: String)
    requires
        from <= to <= v.len(),
    ensures
        s@ == v@.subrange(from as int, to as int),
{
    let mut s = String::new();
    let mut i = from;
    while i < to
        invariant
            from <= i <= to <= v.len(),
            s@ == v@.subrange(from as int, i as int),
        decreases to - i,
    {
        s.push(v[i]);
        assert(v@.subrange(from as int, i + 1) == v@.subrange(from as int, i as int).push(
            v@[i as int],
        ));
        i = i + 1;
    }
    s
}

/// Index of the first character of `v` that is not whitespace (or `v.len()`).
fn first_non_white(v: &Vec<char>) -> (a: usize)
    ensures
        a <= v.len(),
        forall|k: int| 0 <= k < a ==> is_white(#[trigger] v@[k]),
        a == v.len() || !is_white(v@[a as int]),
{
    let mut a: usize = 0;
    while a < v.len() && is_white_char(v[a])
        invariant
            a <= v.len(),
            forall|k: int| 0 <= k < a ==> is_white(#[trigger] v@[k]),
        decreases v.len() - a,
    {
        a = a + 1;
    }
    a
}

/// `s` with leading and trailing whitespace removed, as `str::trim` does.
pub fn trim_str(s: &str) -> (r: String)
    ensures
        r@ == trim(s@),
{
    let v = chars_of(s);
    let a = first_non_white(&v);
    let mut b = v.len();
    while b > a && is_white_char(v[b - 1])
        invariant
            a <= b <= v.len(),
            forall|k: int| b <= k < v.len() ==> is_white(#[trigger] v@[k]),
        decreases b,
    {
        b = b - 1;
    }
    proof {
        lemma_trim_start_at(v@, a as int);
        let t = v@.subrange(a as int, v.len() as int);
        assert forall|k: int| b - a <= k < t.len() implies is_white(#[trigger] t[k]) by {
            assert(t[k] == v@[k + a]);
        }
        if b > a {
            assert(t[b - a - 1] == v@[b - 1]);
        }
        lemma_trim_end_at(t, b - a);
        assert(t.subrange(0, b - a) == v@.subrange(a as int, b as int));
    }
    string_of_range(&v, a, b)
}

/// Every character of `s` is whitespace.
pub open spec fn all_white(s: Seq<char>) -> bool {
    forall|k: int| 0 <= k < s.len() ==> is_white(#[trigger] s[k])
}

proof fn lemma_trim_start_empty(s: Seq<char>)
    ensures
        trim_start(s).len() == 0 <==> all_white(s),
    decreases s.len(),
{
    if s.len() > 0 {
        let t = s.drop_first();
        lemma_trim_start_empty(t);
        if is_white(s[0]) {
            if all_white(t) {
                assert forall|k: int| 0 <= k < s.len() implies is_white(#[trigger] s[k]) by {
                    if k > 0 {
                        assert(s[k] == t[k - 1]);
                    }
                }
            }
            if all_white(s) {
                assert forall|k: int| 0 <= k < t.len() implies is_white(#[trigger] t[k]) by {
                    assert(t[k] == s[k + 1]);
                }
            }
        }
    }
}

proof fn lemma_trim_end_keeps_first(s: Seq<char>)
    requires
        s.len() > 0,
        !is_white(s[0]),
    ensures
        trim_end(s).len() > 0,
    decreases s.len(),
{
    if is_white(s.last()) {
        lemma_trim_end_keeps_first(s.drop_last());
    }
}

/// A text is blank exactly when each of its characters is whitespace: one
/// character that is not whitespace, of any script, makes it not blank.
pub proof fn lemma_blank_iff_all_white(s: Seq<char>)
    ensures
        is_blank(s) <==> all_white(s),
{
    lemma_trim_start_empty(s);
    lemma_trim_start_clean(s);
    let t = trim_start(s);
    if t.len() > 0 {
        lemma_trim_end_keeps_first(t);
    }
}

/// Whether `s` is empty or whitespace only.
pub fn is_blank_str(s: &str) -> (r: bool)
    ensures
        r == is_blank(s@),
        r == all_white(s@),
{
    proof {
        lemma_blank_iff_all_white(s@);
    }
    let t = trim_str(s);
    t.as_str().unicode_len() == 0
}

/// `s` with the copies of `c` at its end removed, as `str::trim_end_matches` does for one char.
pub fn strip_trailing_str(s: &str, c: char) -> (r: String)
    ensures
        r@ == strip_trailing(s@, c),
{
    let v = chars_of(s);
    let mut b = v.len();
    while b > 0 && v[b - 1] == c
        invariant
            b <= v.len(),
            forall|k: int| b <= k < v.len() ==> #[trigger] v@[k] == c,
        decreases b,
    {
        b = b - 1;
    }
    proof {
        lemma_strip_trailing_at(v@, c, b as int);
    }
    string_of_range(&v, 0, b)
}


proof fn lemma_trim_start_clean(s: Seq<char>)
    ensures
        trim_start(s).len() == 0 || !is_white(trim_start(s)[0]),
    decreases s.len(),
{
    if s.len() > 0 && is_white(s[0]) {
        lemma_trim_start_clean(s.drop_first());
    }
}

proof fn lemma_trim_end_prefix(s: Seq<char>)
    ensures
        trim_end(s).len() <= s.len(),
        trim_end(s) == s.take(trim_end(s).len() as int),
        trim_end(s).len() == 0 || !is_white(trim_end(s).last()),
    decreases s.len(),
{
    if s.len() > 0 && is_white(s.last()) {
        let t = s.drop_last();
        lemma_trim_end_prefix(t);
        assert(t.take(trim_end(t).len() as int) == s.take(trim_end(t).len() as int));
    } else {
        assert(s.take(s.len() as int) == s);
    }
}

/// Trimming twice is trimming once.
pub proof fn lemma_trim_idempotent(s: Seq<char>)
    ensures
        trim(trim(s)) == trim(s),
{
    let t = trim_start(s);
    let u = trim_end(t);
    lemma_trim_start_clean(s);
    lemma_trim_end_prefix(t);
    if u.len() > 0 {
        assert(u[0] == t[0]);
    }
    assert(trim_start(u) == u);
    assert(trim_end(u) == u);
}

/// Whether `a` and `b` hold the same characters.
pub fn same_chars(a: &Vec<char>, b: &Vec<char>) -> (r: bool)
    ensures
        r == (a@ == b@),
{
    if a.len() != b.len() {
        return false;
    }
    let mut i: usize = 0;
    while i < a.len()
        invariant
            a.len() == b.len(),
            i <= a.len(),
            forall|k: int| 0 <= k < i ==> a@[k] == b@[k],
        decreases a.len() - i,
    {
        if a[i] != b[i] {
            return false;
        }
        i = i + 1;
    }
    assert(a@ == b@);
    true
}

/// The views of a list of strings.
pub open spec fn views(v: Seq<String>) -> Seq<Seq<char>> {
    v.map_values(|x: String| x@)
}

/// Words read so far and the word being read, scanning `s` from the start.
pub open spec fn word_scan(s: Seq<char>) -> (Seq<Seq<char>>, Seq<char>)
    decreases s.len(),
{
    if s.len() == 0 {
        (Seq::empty(), Seq::empty())
    } else {
        let (done, cur) = word_scan(s.drop_last());
        let c = s.last();
        if is_white(c) {
            if cur.len() > 0 {
                (done.push(cur), Seq::empty())
            } else {
                (done, cur)
            }
        } else {
            (done, cur.push(c))
        }
    }
}

/// The maximal runs of non-whitespace characters of `s`, in order, as
/// `str::split_whitespace` gives them.
pub open spec fn words(s: Seq<char>) -> Seq<Seq<char>> {
    let (done, cur) = word_scan(s);
    if cur.len() > 0 {
        done.push(cur)
    } else {
        done
    }
}

/// A word is non-empty and holds no whitespace.
pub open spec fn is_word(w: Seq<char>) -> bool {
    w.len() > 0 && forall|k: int| 0 <= k < w.len() ==> !is_white(#[trigger] w[k])
}

proof fn lemma_word_scan_clean(s: Seq<char>)
    ensures
        forall|i: int| 0 <= i < word_scan(s).0.len() ==> is_word(#[trigger] word_scan(s).0[i]),
        forall|k: int| 0 <= k < word_scan(s).1.len() ==> !is_white(#[trigger] word_scan(s).1[k]),
    decreases s.len(),
{
    if s.len() > 0 {
        lemma_word_scan_clean(s.drop_last());
        let (done, cur) = word_scan(s.drop_last());
        let c = s.last();
        if !is_white(c) {
            assert forall|k: int| 0 <= k < cur.push(c).len() implies !is_white(
                #[trigger] cur.push(c)[k],
            ) by {
                if k < cur.len() {
                    assert(cur.push(c)[k] == cur[k]);
                }
            }
        }
    }
}

/// Every word of `s` is non-empty and free of whitespace.
pub proof fn lemma_words_clean(s: Seq<char>)
    ensures
        forall|i: int| 0 <= i < words(s).len() ==> is_word(#[trigger] words(s)[i]),
{
    lemma_word_scan_clean(s);
}

/// The characters of `s` that are not whitespace, in order.
pub open spec fn non_white_chars(s: Seq<char>) -> Seq<char> {
    s.filter(|c: char| !is_white(c))
}

/// `w` stands in `s` at position `p` as a maximal run: the characters
/// `s[p .. p + w.len()]` are `w`, and whitespace or an end of `s` is on each side.
pub open spec fn is_run_at(s: Seq<char>, w: Seq<char>, p: int) -> bool {
    &&& 0 <= p
    &&& p + w.len() <= s.len()
    &&& s.subrange(p, p + w.len() as int) == w
    &&& (p == 0 || is_white(s[p - 1]))
    &&& (p + w.len() == s.len() || is_white(s[p + w.len()]))
}

/// `w` stands somewhere in `s` as a maximal run.
pub open spec fn occurs_as_run(s: Seq<char>, w: Seq<char>) -> bool {
    exists|p: int| is_run_at(s, w, p)
}

/// `w` stands in `s` as a maximal run that ends before the end of `s`.
spec fn occurs_as_inner_run(s: Seq<char>, w: Seq<char>) -> bool {
    exists|p: int| is_run_at(s, w, p) && p + w.len() < s.len()
}

proof fn lemma_word_scan_shape(s: Seq<char>)
    ensures
        word_scan(s).0.flatten() + word_scan(s).1 == non_white_chars(s),
        forall|i: int|
            0 <= i < word_scan(s).0.len() ==> occurs_as_inner_run(s, #[trigger] word_scan(s).0[i]),
        word_scan(s).1.len() <= s.len(),
        word_scan(s).1 == s.subrange(s.len() - word_scan(s).1.len(), s.len() as int),
        word_scan(s).1.len() == 0 ==> s.len() == 0 || is_white(s.last()),
        word_scan(s).1.len() > 0 ==> s.len() == word_scan(s).1.len() || is_white(
            s[s.len() - word_scan(s).1.len() - 1],
        ),
    decreases s.len(),
{
    reveal(Seq::filter);
    broadcast use Seq::lemma_flatten_push;
    if s.len() == 0 {
        assert(Seq::<Seq<char>>::empty().flatten() == Seq::<char>::empty());
        assert(s.filter(|c: char| !is_white(c)) == Seq::<char>::empty());
        assert(s.subrange(0, 0) == Seq::<char>::empty());
    } else {
        let t = s.drop_last();
        let c = s.last();
        lemma_word_scan_shape(t);
        let done = word_scan(t).0;
        let cur = word_scan(t).1;
        let ws = word_scan(s).0;
        assert(non_white_chars(s) == if !is_white(c) {
            non_white_chars(t).push(c)
        } else {
            non_white_chars(t)
        });
        let start = t.len() - cur.len();
        assert forall|i: int| 0 <= i < ws.len() implies occurs_as_inner_run(s, #[trigger] ws[i]) by {
            if i < done.len() {
                assert(ws[i] == done[i]);
                assert(occurs_as_inner_run(t, done[i]));
                let p = choose|p: int| is_run_at(t, done[i], p) && p + done[i].len() < t.len();
                assert(s.subrange(p, p + done[i].len() as int) == t.subrange(
                    p,
                    p + done[i].len() as int,
                ));
                assert(is_run_at(s, ws[i], p));
            } else {
                assert(ws[i] == cur);
                assert(s.subrange(start, start + cur.len()) == t.subrange(start, t.len() as int));
                assert(is_run_at(s, ws[i], start));
            }
        }
        if is_white(c) {
            if cur.len() > 0 {
                assert(done.push(cur).flatten() == done.flatten() + cur);
            }
            assert(s.subrange(s.len() as int, s.len() as int) == Seq::<char>::empty());
        } else {
            assert(done.flatten() + cur.push(c) == (done.flatten() + cur).push(c));
            assert(s.subrange(start, s.len() as int) == t.subrange(start, t.len() as int).push(c));
            if cur.len() > 0 && start > 0 {
                assert(s[start - 1] == t[start - 1]);
            } else if t.len() > 0 {
                assert(s[t.len() - 1] == t[t.len() - 1]);
            }
        }
    }
}

/// `words` splits only at whitespace and keeps every other character: the words
/// put together are the non-whitespace characters of `s` in order, and each word
/// is a maximal run of non-whitespace characters of `s`, with whitespace or an
/// end of `s` on each side, so two neighbouring non-whitespace characters are
/// never in different words.
pub proof fn lemma_words_are_runs(s: Seq<char>)
    ensures
        words(s).flatten() == non_white_chars(s),
        forall|i: int|
            0 <= i < words(s).len() ==> is_word(#[trigger] words(s)[i]) && occurs_as_run(
                s,
                words(s)[i],
            ),
{
    broadcast use Seq::lemma_flatten_push;
    lemma_word_scan_shape(s);
    lemma_words_clean(s);
    let done = word_scan(s).0;
    let cur = word_scan(s).1;
    if cur.len() > 0 {
        assert(done.push(cur).flatten() == done.flatten() + cur);
    } else {
        assert(done.flatten() + cur == done.flatten());
    }
    assert forall|i: int| 0 <= i < words(s).len() implies is_word(#[trigger] words(s)[i])
        && occurs_as_run(s, words(s)[i]) by {
        if i < done.len() {
            assert(words(s)[i] == done[i]);
            assert(occurs_as_inner_run(s, done[i]));
            let p = choose|p: int| is_run_at(s, done[i], p) && p + done[i].len() < s.len();
            assert(is_run_at(s, words(s)[i], p));
        } else {
            assert(words(s)[i] == cur);
            assert(is_run_at(s, words(s)[i], s.len() - cur.len()));
        }
    }
}

/// The words of `s`, as `str::split_whitespace` gives them.
pub fn split_whitespace_str(s: &str) -> (r: Vec<String>)
    ensures
        views(r@) == words(s@),
{
    let v = chars_of(s);
    let mut done: Vec<String> = Vec::new();
    let mut cur: Vec<char> = Vec::new();
    for i in 0..v.len()
        invariant
            v@ == s@,
            (views(done@), cur@) == word_scan(v@.take(i as int)),
    {
        let c = v[i];
        assert(v@.take(i + 1).drop_last() == v@.take(i as int));
        if is_white_char(c) {
            if cur.len() > 0 {
                let w = string_of(&cur);
                done.push(w);
                assert(views(done@) == views(done@.drop_last()).push(w@));
                cur = Vec::new();
            }
        } else {
            cur.push(c);
        }
    }
    assert(v@.take(v.len() as int) == v@);
    if cur.len() > 0 {
        let w = string_of(&cur);
        done.push(w);
        assert(views(done@) == views(done@.drop_last()).push(w@));
    }
    done
}

/// Pieces read so far and the piece being read, splitting `s` at `sep`.
pub open spec fn split_scan(s: Seq<char>, sep: char) -> (Seq<Seq<char>>, Seq<char>)
    decreases s.len(),
{
    if s.len() == 0 {
        (Seq::empty(), Seq::empty())
    } else {
        let (done, cur) = split_scan(s.drop_last(), sep);
        if s.last() == sep {
            (done.push(cur), Seq::empty())
        } else {
            (done, cur.push(s.last()))
        }
    }
}

/// The pieces of `s` between the copies of `sep`, empty ones included, as
/// `str::split` gives them for one char: one more piece than copies of `sep`.
pub open spec fn split_on(s: Seq<char>, sep: char) -> Seq<Seq<char>> {
    let (done, cur) = split_scan(s, sep);
    done.push(cur)
}

/// The pieces of `s` between the copies of `sep`, as character lists.
pub fn split_chars(s: &str, sep: char) -> (r: Vec<Vec<char>>)
    ensures
        r@.map_values(|x: Vec<char>| x@) == split_on(s@, sep),
{
    let v = chars_of(s);
    let mut done: Vec<Vec<char>> = Vec::new();
    let mut cur: Vec<char> = Vec::new();
    for i in 0..v.len()
        invariant
            v@ == s@,
            (done@.map_values(|x: Vec<char>| x@), cur@) == split_scan(v@.take(i as int), sep),
    {
        assert(v@.take(i + 1).drop_last() == v@.take(i as int));
        if v[i] == sep {
            let ghost before = done@;
            done.push(cur);
            assert(done@.map_values(|x: Vec<char>| x@) == before.map_values(|x: Vec<char>| x@).push(
                cur@,
            ));
            cur = Vec::new();
        } else {
            cur.push(v[i]);
        }
    }
    assert(v@.take(v.len() as int) == v@);
    let ghost before = done@;
    done.push(cur);
    assert(done@.map_values(|x: Vec<char>| x@) == before.map_values(|x: Vec<char>| x@).push(cur@));
    done
}

/// The pieces of `parts` with `sep` between each two, as `[String]::join` does.
pub open spec fn join(parts: Seq<Seq<char>>, sep: char) -> Seq<char>
    decreases parts.len(),
{
    if parts.len() == 0 {
        Seq::empty()
    } else if parts.len() == 1 {
        parts[0]
    } else {
        join(parts.drop_last(), sep).push(sep) + parts.last()
    }
}

/// The pieces of `parts` with `sep` between each two.
pub fn join_chars(parts: &Vec<Vec<char>>, sep: char) -> (r: String)
    ensures
        r@ == join(parts@.map_values(|x: Vec<char>| x@), sep),
{
    let ghost ps = parts@.map_values(|x: Vec<char>| x@);
    let mut r = String::new();
    for i in 0..parts.len()
        invariant
            ps == parts@.map_values(|x: Vec<char>| x@),
            r@ == join(ps.take(i as int), sep),
    {
        assert(ps.take(i + 1).drop_last() == ps.take(i as int));
        if i > 0 {
            r.push(sep);
        }
        let part = &parts[i];
        let ghost before = r@;
        for j in 0..part.len()
            invariant
                r@ == before + part@.take(j as int),
        {
            r.push(part[j]);
            assert(part@.take(j + 1) == part@.take(j as int).push(part@[j as int]));
        }
        assert(part@.take(part.len() as int) == part@);
        assert(ps[i as int] == part@);
        if i == 0 {
            assert(ps.take(1) == seq![part@]);
        }
    }
    assert(ps.take(parts.len() as int) == ps);
    r
}

} // verus!
