//! The program search path handed to the local backend's launcher: apps started
//! from the Finder get a minimal PATH, so the usual install places of uv,
//! Homebrew and cargo are added to it.
use crate::text::{chars_of, join, join_chars, same_chars, split_chars, split_on};
use vstd::prelude::*;

verus! {

/// `base` followed by the relative path `sub`, with one `/` between them unless
/// `base` is empty or already ends with one.
pub open spec fn join_path(base: Seq<char>, sub: Seq<char>) -> Seq<char> {
    if base.len() == 0 || base.last() == '/' {
        base + sub
    } else {
        base.push('/') + sub
    }
}

/// The directories under the home directory that are searched.
pub open spec fn home_dirs(home: Option<Seq<char>>) -> Seq<Seq<char>> {
    match home {
        Some(h) => seq![join_path(h, ".local/bin"@), join_path(h, ".cargo/bin"@)],
        None => Seq::empty(),
    }
}

/// The system directories that are searched.
pub open spec fn system_dirs() -> Seq<Seq<char>> {
    seq!["/opt/homebrew/bin"@, "/usr/local/bin"@, "/usr/bin"@, "/bin"@]
}

/// Every directory considered, in order: those of the current search path, then
/// those under the home directory, then the system ones.
pub open spec fn candidate_dirs(current: Option<Seq<char>>, home: Option<Seq<char>>) -> Seq<Seq<char>> {
    let cur = match current {
        Some(p) => split_on(p, ':'),
        None => Seq::empty(),
    };
    cur + home_dirs(home) + system_dirs()
}

/// `dirs` without its empty entries and without the later copies of an entry.
pub open spec fn first_nonempty(dirs: Seq<Seq<char>>) -> Seq<Seq<char>>
    decreases dirs.len(),
{
    if dirs.len() == 0 {
        Seq::empty()
    } else {
        let kept = first_nonempty(dirs.drop_last());
        let d = dirs.last();
        if d.len() > 0 && !kept.contains(d) {
            kept.push(d)
        } else {
            kept
        }
    }
}

/// The search path: the current one with the home and system directories added,
/// empty and repeated entries dropped, joined by `:`.
pub open spec fn augmented(current: Option<Seq<char>>, home: Option<Seq<char>>) -> Seq<char> {
    join(first_nonempty(candidate_dirs(current, home)), ':')
}

/// `base` followed by the relative path `sub`.
fn join_path_chars(base: &Vec<char>, sub: &str) -> (r: Vec<char>)
    ensures
        r@ == join_path(base@, sub@),
{
    let mut r = base.clone();
    assert(r@ == base@);
    if r.len() > 0 && r[r.len() - 1] != '/' {
        r.push('/');
    }
    let s = chars_of(sub);
    let ghost start = r@;
    for i in 0..s.len()
        invariant
            r@ == start + s@.take(i as int),
    {
        r.push(s[i]);
        assert(s@.take(i + 1) == s@.take(i as int).push(s@[i as int]));
    }
    assert(s@.take(s.len() as int) == s@);
    r
}

/// Whether `v` holds an entry with the characters of `d`.
fn holds_dir(v: &Vec<Vec<char>>, d: &Vec<char>) -> (r: bool)
    ensures
        r == v@.map_values(|x: Vec<char>| x@).contains(d@),
{
    let ghost vs = v@.map_values(|x: Vec<char>| x@);
    for i in 0..v.len()
        invariant
            vs == v@.map_values(|x: Vec<char>| x@),
            forall|k: int| 0 <= k < i ==> vs[k] != d@,
    {
        if same_chars(&v[i], d) {
            assert(vs[i as int] == d@);
            return true;
        }
    }
    false
}

/// The search path for the local backend's launcher, from the current `PATH`
/// (`None` where it is unset) and the home directory (`None` where unknown).
pub fn augmented_search_path(current: Option<&str>, home: Option<&str>) -> (r: String)
    ensures
        r@ == augmented(
            match current {
                Some(p) => Some(p@),
                None => None,
            },
            match home {
                Some(h) => Some(h@),
                None => None,
            },
        ),
{
    let ghost cur_v = match current {
        Some(p) => Some(p@),
        None => None::<Seq<char>>,
    };
    let ghost home_v = match home {
        Some(h) => Some(h@),
        None => None::<Seq<char>>,
    };
    let mut dirs: Vec<Vec<char>> = match current {
        Some(p) => split_chars(p, ':'),
        None => Vec::new(),
    };
    let ghost d0 = dirs@.map_values(|x: Vec<char>| x@);
    assert(d0 == match cur_v {
        Some(p) => split_on(p, ':'),
        None => Seq::<Seq<char>>::empty(),
    });
    match home {
        Some(h) => {
            let hv = chars_of(h);
            dirs.push(join_path_chars(&hv, ".local/bin"));
            dirs.push(join_path_chars(&hv, ".cargo/bin"));
        },
        None => {},
    }
    dirs.push(chars_of("/opt/homebrew/bin"));
    dirs.push(chars_of("/usr/local/bin"));
    dirs.push(chars_of("/usr/bin"));
    dirs.push(chars_of("/bin"));
    let ghost all = dirs@.map_values(|x: Vec<char>| x@);
    assert(all == candidate_dirs(cur_v, home_v));
    let mut kept: Vec<Vec<char>> = Vec::new();
    for i in 0..dirs.len()
        invariant
            all == dirs@.map_values(|x: Vec<char>| x@),
            kept@.map_values(|x: Vec<char>| x@) == first_nonempty(all.take(i as int)),
    {
        assert(all.take(i + 1).drop_last() == all.take(i as int));
        let d = &dirs[i];
        if d.len() > 0 && !holds_dir(&kept, d) {
            let ghost before = kept@;
            kept.push(d.clone());
            assert(kept@.map_values(|x: Vec<char>| x@) == before.map_values(|x: Vec<char>| x@).push(
                all[i as int],
            ));
        }
    }
    assert(all.take(dirs.len() as int) == all);
    join_chars(&kept, ':')
}


/// Keeping first non-empty entries loses no directory and adds none: every entry
/// kept is a non-empty entry of `dirs`, every non-empty entry of `dirs` is kept,
/// and no entry is kept twice.
pub proof fn lemma_first_nonempty(dirs: Seq<Seq<char>>)
    ensures
        forall|i: int|
            0 <= i < first_nonempty(dirs).len() ==> #[trigger] first_nonempty(dirs)[i].len() > 0
                && dirs.contains(first_nonempty(dirs)[i]),
        forall|i: int|
            0 <= i < dirs.len() && #[trigger] dirs[i].len() > 0 ==> first_nonempty(dirs).contains(
                dirs[i],
            ),
        forall|i: int, j: int|
            0 <= i < j < first_nonempty(dirs).len() ==> #[trigger] first_nonempty(dirs)[i]
                != #[trigger] first_nonempty(dirs)[j],
    decreases dirs.len(),
{
    if dirs.len() > 0 {
        let prev = dirs.drop_last();
        lemma_first_nonempty(prev);
        let kept = first_nonempty(prev);
        let d = dirs.last();
        let out = first_nonempty(dirs);
        assert forall|i: int| 0 <= i < out.len() implies #[trigger] out[i].len() > 0 && dirs.contains(
            out[i],
        ) by {
            if i < kept.len() {
                assert(out[i] == kept[i]);
                let k = choose|k: int| 0 <= k < prev.len() && prev[k] == kept[i];
                assert(dirs[k] == prev[k]);
            } else {
                assert(dirs[dirs.len() - 1] == d);
            }
        }
        assert forall|i: int| 0 <= i < dirs.len() && #[trigger] dirs[i].len() > 0 implies out.contains(
            dirs[i],
        ) by {
            if i < prev.len() {
                assert(prev[i] == dirs[i]);
                let k = choose|k: int| 0 <= k < kept.len() && kept[k] == dirs[i];
                assert(out[k] == kept[k]);
            } else if !kept.contains(d) {
                assert(out[kept.len() as int] == d);
            }
        }
        assert forall|i: int, j: int| 0 <= i < j < out.len() implies #[trigger] out[i]
            != #[trigger] out[j] by {
            if j < kept.len() {
                assert(out[i] == kept[i] && out[j] == kept[j]);
            } else {
                assert(out[i] == kept[i]);
                assert(kept.contains(kept[i]));
            }
        }
    }
}

/// The added search path holds every directory of the current one, those under
/// the home directory and the system ones, each once, with no empty entry: it is
/// the join by `:` of a list of exactly those directories.
pub proof fn lemma_augmented_covers(current: Option<Seq<char>>, home: Option<Seq<char>>)
    ensures
        ({
            let kept = first_nonempty(candidate_dirs(current, home));
            &&& augmented(current, home) == join(kept, ':')
            &&& forall|i: int| 0 <= i < kept.len() ==> #[trigger] kept[i].len() > 0
            &&& forall|i: int, j: int| 0 <= i < j < kept.len() ==> #[trigger] kept[i] != #[trigger] kept[j]
            &&& forall|i: int| 0 <= i < system_dirs().len() ==> kept.contains(#[trigger] system_dirs()[i])
            &&& forall|i: int| 0 <= i < home_dirs(home).len() ==> kept.contains(#[trigger] home_dirs(home)[i])
            &&& current matches Some(p) ==> forall|i: int|
                0 <= i < split_on(p, ':').len() && #[trigger] split_on(p, ':')[i].len() > 0
                    ==> kept.contains(split_on(p, ':')[i])
        }),
{
    let all = candidate_dirs(current, home);
    let kept = first_nonempty(all);
    lemma_first_nonempty(all);
    let cur = match current {
        Some(p) => split_on(p, ':'),
        None => Seq::empty(),
    };
    let h = home_dirs(home);
    reveal_strlit("/opt/homebrew/bin");
    reveal_strlit("/usr/local/bin");
    reveal_strlit("/usr/bin");
    reveal_strlit("/bin");
    reveal_strlit(".local/bin");
    reveal_strlit(".cargo/bin");
    assert forall|i: int| 0 <= i < system_dirs().len() implies kept.contains(
        #[trigger] system_dirs()[i],
    ) by {
        let k = cur.len() + h.len() + i;
        assert(all[k] == system_dirs()[i]);
    }
    assert forall|i: int| 0 <= i < h.len() implies kept.contains(#[trigger] h[i]) by {
        let k = cur.len() + i;
        assert(all[k] == h[i]);
        match home {
            Some(hh) => {
                assert(".local/bin"@.len() > 0 && ".cargo/bin"@.len() > 0);
                assert(h[i].len() > 0);
            },
            None => {},
        }
    }
    if let Some(p) = current {
        assert forall|i: int|
            0 <= i < split_on(p, ':').len() && #[trigger] split_on(p, ':')[i].len() > 0 implies kept.contains(
            split_on(p, ':')[i],
        ) by {
            assert(all[i] == split_on(p, ':')[i]);
        }
    }
}

} // verus!
