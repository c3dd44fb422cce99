//! File-scope resolution: joining a scope entry onto the annotation's parent
//! directory, lexical `.`/`..` normalization, glob expansion against the
//! repository root, and the fallback to the literal normalized pattern when
//! nothing on disk matches.
use vstd::prelude::*;

use crate::text;
use crate::text::{spec_join, spec_split, spec_starts_with, spec_trim};

verus! {

/// Position of the last occurrence of character `c`, if any.
pub open spec fn spec_rfind_char(s: Seq<char>, c: char) -> Option<int>
    decreases s.len(),
{
    if s.len() == 0 {
        None
    } else if s[s.len() - 1] == c {
        Some(s.len() - 1)
    } else {
        spec_rfind_char(s.take(s.len() - 1), c)
    }
}

pub proof fn lemma_rfind_char_at(s: Seq<char>, c: char, i: int)
    requires
        0 <= i <= s.len(),
        forall|j: int| i <= j < s.len() ==> s[j] != c,
        i == 0 || s[i - 1] == c,
    ensures
        i > 0 ==> spec_rfind_char(s, c) == Some(i - 1),
        i == 0 ==> spec_rfind_char(s, c) is None,
    decreases s.len(),
{
    if s.len() > 0 && s[s.len() - 1] != c {
        let t = s.take(s.len() - 1);
        assert(forall|j: int| i <= j < t.len() ==> t[j] != c);
        lemma_rfind_char_at(t, c, if i == s.len() { i - 1 } else { i });
    }
}

/// The directory holding `p`: everything before the last slash (the root
/// `/` kept whole), or the empty path when `p` has no slash.
pub open spec fn spec_parent_dir(p: Seq<char>) -> Seq<char> {
    match spec_rfind_char(p, '/') {
        None => Seq::empty(),
        Some(i) => if i == 0 {
            seq!['/']
        } else {
            p.take(i)
        },
    }
}

pub fn parent_dir(p: &str) -> (r: &str)
    ensures
        r@ == spec_parent_dir(p@),
{
    let n: usize = p.unicode_len();
    let mut i: usize = n;
    while i > 0 && p.get_char(i - 1) != '/'
        invariant
            0 <= i <= n,
            n == p@.len(),
            forall|j: int| i <= j < n ==> p@[j] != '/',
        decreases i,
    {
        i = i - 1;
    }
    proof {
        lemma_rfind_char_at(p@, '/', i as int);
    }
    if i == 0 {
        p.substring_char(0, 0)
    } else if i == 1 {
        p.substring_char(0, 1)
    } else {
        p.substring_char(0, i - 1)
    }
}

/// Joining `entry` onto `parent`: an absolute entry replaces the parent; a
/// slash is inserted only where one is missing.
pub open spec fn spec_join_path(parent: Seq<char>, entry: Seq<char>) -> Seq<char> {
    if entry.len() > 0 && entry[0] == '/' {
        entry
    } else if parent.len() == 0 {
        entry
    } else if parent[parent.len() - 1] == '/' {
        parent + entry
    } else {
        parent + seq!['/'] + entry
    }
}

pub fn join_path(parent: &str, entry: &str) -> (r: String)
    ensures
        r@ == spec_join_path(parent@, entry@),
{
    let en: usize = entry.unicode_len();
    let pn: usize = parent.unicode_len();
    proof {
        reveal_strlit("/");
    }
    if en > 0 && entry.get_char(0) == '/' {
        let mut out = String::new();
        out.append(entry);
        out
    } else if pn == 0 {
        let mut out = String::new();
        out.append(entry);
        out
    } else if parent.get_char(pn - 1) == '/' {
        let mut out = String::new();
        out.append(parent);
        out.append(entry);
        out
    } else {
        let mut out = String::new();
        out.append(parent);
        out.append("/");
        out.append(entry);
        out
    }
}

/// One step of lexical normalization: empty and `.` segments vanish, `..`
/// removes the previous component, anything else is kept.
pub open spec fn spec_norm_step(acc: Seq<Seq<char>>, sg: Seq<char>) -> Seq<Seq<char>> {
    if sg.len() == 0 || sg == seq!['.'] {
        acc
    } else if sg == seq!['.', '.'] {
        if acc.len() > 0 {
            acc.drop_last()
        } else {
            acc
        }
    } else {
        acc.push(sg)
    }
}

pub open spec fn spec_norm_loop(segs: Seq<Seq<char>>, i: int, acc: Seq<Seq<char>>) -> Seq<
    Seq<char>,
>
    decreases segs.len() - i,
{
    if i < 0 || i >= segs.len() {
        acc
    } else {
        spec_norm_loop(segs, i + 1, spec_norm_step(acc, segs[i]))
    }
}

/// Lexical normalization of a path: `.` and `..` components resolved without
/// touching the filesystem; a leading slash is kept as an (empty) leading
/// component so that `..` can consume it as `Path` components do.
pub open spec fn spec_normalize(p: Seq<char>) -> Seq<char> {
    let init: Seq<Seq<char>> = if p.len() > 0 && p[0] == '/' {
        seq![Seq::empty()]
    } else {
        Seq::empty()
    };
    spec_join(spec_norm_loop(spec_split(p, '/'), 0, init), seq!['/'])
}

pub fn normalize_path(p: &str) -> (r: String)
    ensures
        r@ == spec_normalize(p@),
{
    let n: usize = p.unicode_len();
    let segs = text::split_char(p, '/');
    let mut stack: Vec<&str> = Vec::new();
    proof {
        assert(stack.deep_view() =~= Seq::<Seq<char>>::empty());
    }
    if n > 0 && p.get_char(0) == '/' {
        let root = p.substring_char(0, 0);
        proof {
            assert(root@ =~= Seq::<char>::empty());
        }
        stack.push(root);
        proof {
            assert(stack.deep_view() =~= seq![Seq::<char>::empty()]);
        }
    }
    let ghost init = stack.deep_view();
    proof {
        assert(init == if p@.len() > 0 && p@[0] == '/' {
            seq![Seq::<char>::empty()]
        } else {
            Seq::<Seq<char>>::empty()
        });
    }
    let ghost dv = segs.deep_view();
    let mut k: usize = 0;
    while k < segs.len()
        invariant
            0 <= k <= segs@.len(),
            dv == segs.deep_view(),
            dv.len() == segs@.len(),
            spec_norm_loop(dv, k as int, stack.deep_view()) == spec_norm_loop(dv, 0, init),
        decreases segs@.len() - k,
    {
        let sg = segs[k];
        proof {
            assert(dv[k as int] == sg@);
        }
        let m: usize = sg.unicode_len();
        let ghost prev = stack.deep_view();
        if m == 0 {
            proof {
                assert(spec_norm_step(prev, sg@) == prev);
            }
        } else if m == 1 && sg.get_char(0) == '.' {
            proof {
                assert(sg@ =~= seq!['.']);
            }
        } else if m == 2 && sg.get_char(0) == '.' && sg.get_char(1) == '.' {
            proof {
                assert(sg@ =~= seq!['.', '.']);
            }
            if stack.len() > 0 {
                stack.pop();
                proof {
                    assert(stack.deep_view() =~= prev.drop_last());
                }
            }
        } else {
            proof {
                assert(sg@.len() >= 1);
                assert(sg@ != seq!['.'] && sg@ != seq!['.', '.']) by {
                    if sg@ == seq!['.'] {
                        assert(sg@.len() == 1 && sg@[0] == '.');
                    }
                    if sg@ == seq!['.', '.'] {
                        assert(sg@.len() == 2 && sg@[0] == '.' && sg@[1] == '.');
                    }
                }
            }
            stack.push(sg);
            proof {
                assert(stack.deep_view() =~= prev.push(sg@));
            }
        }
        k = k + 1;
    }
    proof {
        reveal_strlit("/");
        assert("/"@ =~= seq!['/']);
    }
    let out = text::join_with(&stack, "/");
    out
}

/// The path `abs` made relative to `root` (ignoring one trailing slash of
/// `root`), or nothing when `abs` does not lie under `root`.
pub open spec fn spec_strip_root(abs: Seq<char>, root: Seq<char>) -> Option<Seq<char>> {
    let r = if root.len() > 0 && root[root.len() - 1] == '/' {
        root.take(root.len() - 1)
    } else {
        root
    };
    if spec_starts_with(abs, r) {
        if abs.len() == r.len() {
            Some(Seq::empty())
        } else if abs[r.len() as int] == '/' {
            Some(abs.subrange(r.len() as int + 1, abs.len() as int))
        } else {
            None
        }
    } else {
        None
    }
}

pub fn strip_root<'a>(abs: &'a str, root: &str) -> (r: Option<&'a str>)
    ensures
        match r {
            Some(rel) => spec_strip_root(abs@, root@) == Some(rel@),
            None => spec_strip_root(abs@, root@) is None,
        },
{
    let rn: usize = root.unicode_len();
    let r_end: usize = if rn > 0 && root.get_char(rn - 1) == '/' {
        rn - 1
    } else {
        rn
    };
    let rstr = root.substring_char(0, r_end);
    proof {
        assert(rstr@ =~= (if root@.len() > 0 && root@[root@.len() - 1] == '/' {
            root@.take(root@.len() - 1)
        } else {
            root@
        }));
    }
    if text::starts_with(abs, rstr) {
        let an: usize = abs.unicode_len();
        if an == r_end {
            let empty = abs.substring_char(0, 0);
            proof {
                assert(empty@ =~= Seq::<char>::empty());
            }
            Some(empty)
        } else if abs.get_char(r_end) == '/' {
            Some(abs.substring_char(r_end + 1, an))
        } else {
            None
        }
    } else {
        None
    }
}

/// The glob matches that lie under the repository root, each made relative
/// to it, in order.
pub open spec fn spec_rel_matches(list: Seq<Seq<char>>, root: Seq<char>) -> Seq<Seq<char>>
    decreases list.len(),
{
    if list.len() == 0 {
        Seq::empty()
    } else {
        let pre = spec_rel_matches(list.drop_last(), root);
        match spec_strip_root(list.last(), root) {
            Some(rel) => pre.push(rel),
            None => pre,
        }
    }
}

/// What a scope entry resolves to, given what glob expansion returned:
/// the repository-relative matches, or the literal normalized pattern when
/// the pattern was malformed (`None`) or nothing usable matched.
pub open spec fn spec_select(pattern: Seq<char>, root: Seq<char>, m: Option<Seq<Seq<char>>>) -> Seq<
    Seq<char>,
> {
    match m {
        None => seq![pattern],
        Some(list) => {
            let rels = spec_rel_matches(list, root);
            if rels.len() == 0 {
                seq![pattern]
            } else {
                rels
            }
        },
    }
}

/// A scope entry that matches zero files on disk resolves to exactly the
/// normalized literal pattern, whatever the reason nothing matched.
pub proof fn lemma_select_unmatched(pattern: Seq<char>, root: Seq<char>, m: Option<Seq<Seq<char>>>)
    requires
        m is None || (m matches Some(list) && spec_rel_matches(list, root).len() == 0),
    ensures
        spec_select(pattern, root, m) == seq![pattern],
{
}

/// Every scope entry resolves to at least one path or pattern.
pub proof fn lemma_select_nonempty(pattern: Seq<char>, root: Seq<char>, m: Option<Seq<Seq<char>>>)
    ensures
        spec_select(pattern, root, m).len() >= 1,
{
}

/// Relies on glob::glob: expands a pattern against the filesystem and yields
/// the matched paths; a malformed pattern is reported as an error. What is on
/// disk decides the outcome, so nothing is promised of the result.
#[verifier::external_body]
fn glob_matches(pattern: &str) -> Option<Vec<String>> {
    match glob::glob(pattern) {
        Ok(paths) => Some(
            paths.filter_map(|entry| entry.ok()).map(
                |path| path.to_string_lossy().to_string(),
            ).collect(),
        ),
        Err(_) => None,
    }
}

/// Keeps the glob matches that lie under the repository root, made relative
/// to it; falls back to the literal pattern when none do or when the pattern
/// was malformed.
pub fn select_resolved(pattern: &str, repo_root: &str, m: &Option<Vec<String>>) -> (r: Vec<String>)
    ensures
        r.deep_view() == spec_select(pattern@, repo_root@, m.deep_view()),
{
    match m {
        None => {
            let mut out: Vec<String> = Vec::new();
            out.push(String::from_str(pattern));
            proof {
                assert(out.deep_view() =~= seq![pattern@]);
            }
            out
        },
        Some(list) => {
            let ghost lv = list.deep_view();
            let mut out: Vec<String> = Vec::new();
            proof {
                assert(out.deep_view() =~= Seq::<Seq<char>>::empty());
                assert(lv.take(0) =~= Seq::<Seq<char>>::empty());
            }
            let mut k: usize = 0;
            while k < list.len()
                invariant
                    0 <= k <= list@.len(),
                    lv == list.deep_view(),
                    lv.len() == list@.len(),
                    out.deep_view() == spec_rel_matches(lv.take(k as int), repo_root@),
                decreases list@.len() - k,
            {
                proof {
                    assert(lv[k as int] == list@[k as int]@);
                    assert(lv.take(k + 1).drop_last() =~= lv.take(k as int));
                    assert(lv.take(k + 1).last() == lv[k as int]);
                }
                let ghost prev = out.deep_view();
                match strip_root(list[k].as_str(), repo_root) {
                    Some(rel) => {
                        out.push(String::from_str(rel));
                        proof {
                            assert(out.deep_view() =~= prev.push(rel@));
                        }
                    },
                    None => {},
                }
                k = k + 1;
            }
            proof {
                assert(lv.take(lv.len() as int) =~= lv);
            }
            if out.len() == 0 {
                out.push(String::from_str(pattern));
                proof {
                    assert(out.deep_view() =~= seq![pattern@]);
                }
            }
            out
        },
    }
}

/// `chunk` is a possible resolution of one scope entry: what `spec_select`
/// yields for it under some glob outcome.
pub open spec fn spec_chunk_ok(chunk: Seq<Seq<char>>, entry: Seq<char>, root: Seq<char>) -> bool {
    exists|m: Option<Seq<Seq<char>>>| chunk == spec_select(entry, root, m)
}

/// Resolves one normalized scope pattern against the repository root: glob
/// expansion decides which concrete paths come back, so only the shape of
/// the outcome is promised; `select_resolved` pins the rest down.
pub fn resolve_scope_entry(pattern: &str, repo_root: &str) -> (r: Vec<String>)
    ensures
        r@.len() >= 1,
        spec_chunk_ok(r.deep_view(), pattern@, repo_root@),
{
    let abs = join_path(repo_root, pattern);
    let m = glob_matches(abs.as_str());
    let r = select_resolved(pattern, repo_root, &m);
    proof {
        lemma_select_nonempty(pattern@, repo_root@, m.deep_view());
        assert(r.deep_view() == spec_select(pattern@, repo_root@, m.deep_view()));
    }
    r
}

/// The normalized patterns of the nonempty entries among `pieces`, each
/// joined onto the annotation's parent directory.
pub open spec fn spec_patterns_of(pieces: Seq<Seq<char>>, parent: Seq<char>) -> Seq<Seq<char>>
    decreases pieces.len(),
{
    if pieces.len() == 0 {
        Seq::empty()
    } else {
        let pre = spec_patterns_of(pieces.drop_last(), parent);
        let t = spec_trim(pieces.last());
        if t.len() > 0 {
            pre.push(spec_normalize(spec_join_path(parent, t)))
        } else {
            pre
        }
    }
}

/// The normalized patterns named by a comma-separated scope entry list.
pub open spec fn spec_entry_patterns(inner: Seq<char>, parent: Seq<char>) -> Seq<Seq<char>> {
    spec_patterns_of(spec_split(inner, ','), parent)
}

/// Splits a comma-separated entry list, trims each entry, drops the empty
/// ones, and turns the rest into normalized patterns.
pub fn entry_patterns(inner: &str, marker_parent: &str) -> (r: Vec<String>)
    ensures
        r.deep_view() == spec_entry_patterns(inner@, marker_parent@),
{
    let pieces = text::split_char(inner, ',');
    let ghost dv = pieces.deep_view();
    let mut out: Vec<String> = Vec::new();
    proof {
        assert(out.deep_view() =~= Seq::<Seq<char>>::empty());
        assert(dv.take(0) =~= Seq::<Seq<char>>::empty());
    }
    let mut k: usize = 0;
    while k < pieces.len()
        invariant
            0 <= k <= pieces@.len(),
            dv == pieces.deep_view(),
            dv.len() == pieces@.len(),
            out.deep_view() == spec_patterns_of(dv.take(k as int), marker_parent@),
        decreases pieces@.len() - k,
    {
        proof {
            assert(dv[k as int] == pieces@[k as int]@);
            assert(dv.take(k + 1).drop_last() =~= dv.take(k as int));
            assert(dv.take(k + 1).last() == dv[k as int]);
        }
        let t = text::trim(pieces[k]);
        if t.unicode_len() > 0 {
            let joined = join_path(marker_parent, t);
            let pattern = normalize_path(joined.as_str());
            let ghost prev = out.deep_view();
            out.push(pattern);
            proof {
                assert(out.deep_view() =~= prev.push(
                    spec_normalize(spec_join_path(marker_parent@, spec_trim(dv[k as int]))),
                ));
            }
        }
        k = k + 1;
    }
    proof {
        assert(dv.take(dv.len() as int) =~= dv);
    }
    out
}

/// The chunks laid end to end.
pub open spec fn spec_concat_chunks(cs: Seq<Seq<Seq<char>>>) -> Seq<Seq<char>>
    decreases cs.len(),
{
    if cs.len() == 0 {
        Seq::empty()
    } else {
        spec_concat_chunks(cs.drop_last()) + cs.last()
    }
}

/// `files` is a resolution of `entries` against the repository root: the
/// concatenation, in order, of one chunk per entry, where each chunk is what
/// `spec_select` yields for that entry under some glob outcome.
pub open spec fn spec_resolution_of(
    entries: Seq<Seq<char>>,
    root: Seq<char>,
    files: Seq<Seq<char>>,
) -> bool {
    exists|cs: Seq<Seq<Seq<char>>>|
        #![trigger spec_concat_chunks(cs)]
        {
            &&& cs.len() == entries.len()
            &&& files == spec_concat_chunks(cs)
            &&& forall|e: int|
                0 <= e < cs.len() ==> #[trigger] spec_chunk_ok(cs[e], entries[e], root)
        }
}

/// Resolves a list of normalized patterns in order: the result concatenates
/// one valid selection per pattern, each at least one path or pattern long.
pub fn resolve_patterns(pats: &Vec<String>, repo_root: &str) -> (r: Vec<String>)
    ensures
        spec_resolution_of(pats.deep_view(), repo_root@, r.deep_view()),
        r@.len() >= pats@.len(),
        pats@.len() == 0 ==> r@.len() == 0,
{
    let ghost pv = pats.deep_view();
    let mut out: Vec<String> = Vec::new();
    let ghost mut cs: Seq<Seq<Seq<char>>> = Seq::empty();
    proof {
        assert(out.deep_view() =~= spec_concat_chunks(cs));
    }
    let mut k: usize = 0;
    while k < pats.len()
        invariant
            0 <= k <= pats@.len(),
            pv == pats.deep_view(),
            pv.len() == pats@.len(),
            cs.len() == k,
            out.deep_view() == spec_concat_chunks(cs),
            out@.len() >= k,
            forall|e: int| 0 <= e < k ==> #[trigger] spec_chunk_ok(cs[e], pv[e], repo_root@),
        decreases pats@.len() - k,
    {
        proof {
            assert(pv[k as int] == pats@[k as int]@);
        }
        let resolved = resolve_scope_entry(pats[k].as_str(), repo_root);
        let ghost rv = resolved.deep_view();
        let ghost prev = out.deep_view();
        let mut j: usize = 0;
        while j < resolved.len()
            invariant
                0 <= j <= resolved@.len(),
                rv == resolved.deep_view(),
                rv.len() == resolved@.len(),
                out.deep_view() == prev + rv.take(j as int),
                out@.len() == prev.len() + j,
            decreases resolved@.len() - j,
        {
            proof {
                assert(rv[j as int] == resolved@[j as int]@);
            }
            let ghost before = out.deep_view();
            out.push(resolved[j].clone());
            proof {
                assert(out.deep_view() =~= before.push(rv[j as int]));
                assert(prev + rv.take(j + 1) =~= (prev + rv.take(j as int)).push(rv[j as int]));
            }
            j = j + 1;
        }
        proof {
            assert(rv.take(rv.len() as int) =~= rv);
            assert(out.deep_view() == prev + rv);
            let new_cs = cs.push(rv);
            assert(new_cs.drop_last() =~= cs);
            assert(new_cs.last() == rv);
            assert(out.deep_view() == spec_concat_chunks(new_cs));
            assert(resolved@.len() >= 1);
            assert(spec_chunk_ok(rv, pv[k as int], repo_root@));
            assert forall|e: int| 0 <= e < k + 1 implies #[trigger] spec_chunk_ok(
                new_cs[e],
                pv[e],
                repo_root@,
            ) by {
                if e < k {
                    assert(new_cs[e] == cs[e]);
                    assert(spec_chunk_ok(cs[e], pv[e], repo_root@));
                } else {
                    assert(new_cs[e] == rv);
                }
            }
            cs = new_cs;
        }
        k = k + 1;
    }
    proof {
        assert(pv.take(pv.len() as int) =~= pv);
        assert(cs.len() == pv.len());
        assert(out.deep_view() == spec_concat_chunks(cs));
    }
    out
}

/// Resolves a raw comma-separated entry list: each nonempty entry is joined
/// onto the annotation's parent directory, normalized, and expanded against
/// the repository root, falling back to the literal pattern.
pub fn resolve_file_entries(entries: &str, marker_parent: &str, repo_root: &str) -> (r: Vec<String>)
    ensures
        spec_resolution_of(
            spec_entry_patterns(entries@, marker_parent@),
            repo_root@,
            r.deep_view(),
        ),
        r@.len() >= spec_entry_patterns(entries@, marker_parent@).len(),
        spec_entry_patterns(entries@, marker_parent@).len() == 0 ==> r@.len() == 0,
{
    let pats = entry_patterns(entries, marker_parent);
    resolve_patterns(&pats, repo_root)
}

} // verus!
