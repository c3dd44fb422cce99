//! The annotation parser: recognizes watcher-knight tags inside single-line
//! comments of several syntaxes, collects single- and multi-line bodies, and
//! extracts names and scope entry lists.
use vstd::prelude::*;

use crate::scope;
use crate::scope::{spec_entry_patterns, spec_parent_dir};
use crate::text;
use crate::text::{
    is_space, spec_contains, spec_ends_with, spec_find_char, spec_join, spec_lines,
    spec_starts_with, spec_trim, spec_trim_end, spec_trim_start,
};

verus! {

/// One parsed annotation: its name, where it was found, its instruction
/// body, and the resolved file scope (empty means always relevant).
pub struct Marker {
    pub name: String,
    pub rel_path: String,
    pub line: usize,
    pub instruction: String,
    pub files: Vec<String>,
}

/// Mathematical image of a `Marker`.
pub struct MarkerModel {
    pub name: Seq<char>,
    pub rel_path: Seq<char>,
    pub line: int,
    pub instruction: Seq<char>,
    pub files: Seq<Seq<char>>,
}

impl View for Marker {
    type V = MarkerModel;

    open spec fn view(&self) -> MarkerModel {
        MarkerModel {
            name: self.name@,
            rel_path: self.rel_path@,
            line: self.line as int,
            instruction: self.instruction@,
            files: self.files.deep_view(),
        }
    }
}

impl DeepView for Marker {
    type V = MarkerModel;

    open spec fn deep_view(&self) -> MarkerModel {
        self.view()
    }
}

/// An annotation before glob expansion: the scope is still the list of
/// normalized patterns written in the tag.
pub struct RawMarker {
    pub name: String,
    pub line: usize,
    pub instruction: String,
    pub entries: Vec<String>,
}

/// Mathematical image of a `RawMarker`.
pub struct RawMarkerModel {
    pub name: Seq<char>,
    pub line: int,
    pub instruction: Seq<char>,
    pub entries: Seq<Seq<char>>,
}

impl View for RawMarker {
    type V = RawMarkerModel;

    open spec fn view(&self) -> RawMarkerModel {
        RawMarkerModel {
            name: self.name@,
            line: self.line as int,
            instruction: self.instruction@,
            entries: self.entries.deep_view(),
        }
    }
}

impl DeepView for RawMarker {
    type V = RawMarkerModel;

    open spec fn deep_view(&self) -> RawMarkerModel {
        self.view()
    }
}

/// The single-line comment markers the parser recognizes, in match order.
pub open spec fn spec_prefix(k: int) -> Seq<char> {
    if k == 0 {
        seq!['/', '/']
    } else if k == 1 {
        seq!['#']
    } else if k == 2 {
        seq!['-', '-']
    } else if k == 3 {
        seq!['%']
    } else {
        seq![';']
    }
}

pub open spec fn spec_tag_short() -> Seq<char> {
    seq!['<', 'w', 'k']
}

pub open spec fn spec_tag_long() -> Seq<char> {
    seq!['<', 'w', 'a', 't', 'c', 'h', 'e', 'r', '-', 'k', 'n', 'i', 'g', 'h', 't']
}

pub open spec fn spec_close() -> Seq<char> {
    seq!['/', '>']
}

/// The first comment marker (in match order) that the trimmed line starts
/// with, and the text after it.
pub open spec fn spec_strip_comment_any(line: Seq<char>) -> Option<(int, Seq<char>)> {
    let t = spec_trim_start(line);
    if spec_starts_with(t, spec_prefix(0)) {
        Some((0int, t.subrange(2, t.len() as int)))
    } else if spec_starts_with(t, spec_prefix(1)) {
        Some((1int, t.subrange(1, t.len() as int)))
    } else if spec_starts_with(t, spec_prefix(2)) {
        Some((2int, t.subrange(2, t.len() as int)))
    } else if spec_starts_with(t, spec_prefix(3)) {
        Some((3int, t.subrange(1, t.len() as int)))
    } else if spec_starts_with(t, spec_prefix(4)) {
        Some((4int, t.subrange(1, t.len() as int)))
    } else {
        None
    }
}

/// Continuation-line matching: only the comment marker that opened the
/// annotation is accepted.
pub open spec fn spec_strip_comment_expect(line: Seq<char>, k: int) -> Option<Seq<char>> {
    let t = spec_trim_start(line);
    if spec_starts_with(t, spec_prefix(k)) {
        Some(t.subrange(spec_prefix(k).len() as int, t.len() as int))
    } else {
        None
    }
}

/// The text after the tag opener, if the comment text begins with one.
pub open spec fn spec_tag_rest(rest: Seq<char>) -> Option<Seq<char>> {
    let t = spec_trim_start(rest);
    if spec_starts_with(t, spec_tag_short()) {
        Some(t.subrange(3, t.len() as int))
    } else if spec_starts_with(t, spec_tag_long()) {
        Some(t.subrange(15, t.len() as int))
    } else {
        None
    }
}

/// A line that opens an annotation: its comment marker and the text after
/// the tag opener.
pub open spec fn spec_open_line(line: Seq<char>) -> Option<(int, Seq<char>)> {
    match spec_strip_comment_any(line) {
        None => None,
        Some((k, rest)) => match spec_tag_rest(rest) {
            None => None,
            Some(after) => Some((k, after)),
        },
    }
}

/// A character that ends the name segment of a tag header.
pub open spec fn name_stop(c: char) -> bool {
    is_space(c) || c == '/' || c == '['
}

/// Index of the first character that ends the name (the length if none does).
pub open spec fn spec_name_end(s: Seq<char>) -> int
    decreases s.len(),
{
    if s.len() > 0 && !name_stop(s[0]) {
        1 + spec_name_end(s.subrange(1, s.len() as int))
    } else {
        0
    }
}

pub proof fn lemma_name_end_at(s: Seq<char>, i: int)
    requires
        0 <= i <= s.len(),
        forall|j: int| 0 <= j < i ==> !name_stop(s[j]),
        i == s.len() || name_stop(s[i]),
    ensures
        spec_name_end(s) == i,
    decreases s.len(),
{
    if s.len() > 0 && !name_stop(s[0]) {
        let t = s.subrange(1, s.len() as int);
        assert(forall|j: int| 0 <= j < i - 1 ==> !name_stop(t[j]));
        lemma_name_end_at(t, i - 1);
    }
}

/// The name written after the tag opener: an optional `:` is skipped and the
/// name runs until whitespace, `/` or `[`.
pub open spec fn spec_extract_name(after_tag: Seq<char>) -> Seq<char> {
    let s1 = spec_trim_start(after_tag);
    let s2 = if s1.len() > 0 && s1[0] == ':' {
        spec_trim_start(s1.subrange(1, s1.len() as int))
    } else {
        s1
    };
    s2.take(spec_name_end(s2))
}

pub fn extract_name<'a>(after_tag: &'a str) -> (r: &'a str)
    ensures
        r@ == spec_extract_name(after_tag@),
{
    let s1 = text::trim_start(after_tag);
    let n1: usize = s1.unicode_len();
    let s2 = if n1 > 0 && s1.get_char(0) == ':' {
        text::trim_start(s1.substring_char(1, n1))
    } else {
        s1
    };
    let n2: usize = s2.unicode_len();
    let mut i: usize = 0;
    while i < n2 && !name_stop_exec(s2.get_char(i))
        invariant
            0 <= i <= n2,
            n2 == s2@.len(),
            forall|j: int| 0 <= j < i ==> !name_stop(s2@[j]),
        decreases n2 - i,
    {
        i = i + 1;
    }
    proof {
        lemma_name_end_at(s2@, i as int);
    }
    s2.substring_char(0, i)
}

fn name_stop_exec(c: char) -> (r: bool)
    ensures
        r == name_stop(c),
{
    text::is_space_exec(c) || c == '/' || c == '['
}

/// The comment markers as literals, index by index.
fn prefix_str(k: usize) -> (r: &'static str)
    requires
        k < 5,
    ensures
        r@ == spec_prefix(k as int),
{
    if k == 0 {
        proof {
            reveal_strlit("//");
            assert("//"@ =~= spec_prefix(0));
        }
        "//"
    } else if k == 1 {
        proof {
            reveal_strlit("#");
            assert("#"@ =~= spec_prefix(1));
        }
        "#"
    } else if k == 2 {
        proof {
            reveal_strlit("--");
            assert("--"@ =~= spec_prefix(2));
        }
        "--"
    } else if k == 3 {
        proof {
            reveal_strlit("%");
            assert("%"@ =~= spec_prefix(3));
        }
        "%"
    } else {
        proof {
            reveal_strlit(";");
            assert(";"@ =~= spec_prefix(4));
        }
        ";"
    }
}

/// Strips the leading comment marker off a line: any of the recognized
/// markers when `expect` is absent, else only the one it names.
pub fn strip_comment_prefix<'a>(line: &'a str, expect: Option<usize>) -> (r: Option<(&'a str, usize)>)
    requires
        expect matches Some(k) ==> k < 5,
    ensures
        match expect {
            None => match r {
                Some((rest, k)) => spec_strip_comment_any(line@) == Some((k as int, rest@)) && k < 5,
                None => spec_strip_comment_any(line@) is None,
            },
            Some(e) => match r {
                Some((rest, k)) => k == e && spec_strip_comment_expect(line@, e as int) == Some(
                    rest@,
                ),
                None => spec_strip_comment_expect(line@, e as int) is None,
            },
        },
{
    let t = text::trim_start(line);
    let tn: usize = t.unicode_len();
    let ghost expect0 = expect;
    match expect {
        Some(e) => {
            let p = prefix_str(e);
            if text::starts_with(t, p) {
                let pn: usize = p.unicode_len();
                Some((t.substring_char(pn, tn), e))
            } else {
                None
            }
        },
        None => {
            let mut k: usize = 0;
            while k < 5
                invariant
                    expect0 is None,
                    expect == expect0,
                    0 <= k <= 5,
                    tn == t@.len(),
                    t@ == spec_trim_start(line@),
                    forall|j: int| 0 <= j < k ==> !spec_starts_with(t@, spec_prefix(j)),
                decreases 5 - k,
            {
                let p = prefix_str(k);
                if text::starts_with(t, p) {
                    let pn: usize = p.unicode_len();
                    proof {
                        assert(forall|j: int|
                            0 <= j < k ==> !spec_starts_with(t@, spec_prefix(j)));
                        if k == 1 {
                            assert(!spec_starts_with(t@, spec_prefix(0)));
                        }
                        if k == 2 {
                            assert(!spec_starts_with(t@, spec_prefix(0)));
                            assert(!spec_starts_with(t@, spec_prefix(1)));
                        }
                        if k == 3 {
                            assert(!spec_starts_with(t@, spec_prefix(2)));
                        }
                        if k == 4 {
                            assert(!spec_starts_with(t@, spec_prefix(3)));
                        }
                    }
                    return Some((t.substring_char(pn, tn), k));
                }
                k = k + 1;
            }
            None
        },
    }
}

/// Strips the tag opener (`<wk` or `<watcher-knight`) off the comment text.
pub fn tag_rest<'a>(rest: &'a str) -> (r: Option<&'a str>)
    ensures
        match r {
            Some(after) => spec_tag_rest(rest@) == Some(after@),
            None => spec_tag_rest(rest@) is None,
        },
{
    let t = text::trim_start(rest);
    let tn: usize = t.unicode_len();
    proof {
        reveal_strlit("<wk");
        assert("<wk"@ =~= spec_tag_short());
        reveal_strlit("<watcher-knight");
        assert("<watcher-knight"@ =~= spec_tag_long());
    }
    if text::starts_with(t, "<wk") {
        Some(t.substring_char(3, tn))
    } else if text::starts_with(t, "<watcher-knight") {
        Some(t.substring_char(15, tn))
    } else {
        None
    }
}

/// The inner text of a body line of the shape `files = { ... }`, trimmed.
pub open spec fn spec_files_inner(line: Seq<char>) -> Option<Seq<char>> {
    let t = spec_trim(line);
    if spec_starts_with(t, spec_files_word()) {
        let r1 = spec_trim_start(t.subrange(5, t.len() as int));
        if r1.len() > 0 && r1[0] == '=' {
            let r2 = spec_trim_start(r1.subrange(1, r1.len() as int));
            if r2.len() > 0 && r2[0] == '{' {
                let r3 = r2.subrange(1, r2.len() as int);
                if r3.len() > 0 && r3[r3.len() - 1] == '}' {
                    Some(spec_trim(r3.take(r3.len() - 1)))
                } else {
                    None
                }
            } else {
                None
            }
        } else {
            None
        }
    } else {
        None
    }
}

pub open spec fn spec_files_word() -> Seq<char> {
    seq!['f', 'i', 'l', 'e', 's']
}

pub fn parse_files_line<'a>(line: &'a str) -> (r: Option<&'a str>)
    ensures
        match r {
            Some(inner) => spec_files_inner(line@) == Some(inner@),
            None => spec_files_inner(line@) is None,
        },
{
    let t = text::trim(line);
    let tn: usize = t.unicode_len();
    proof {
        reveal_strlit("files");
        assert("files"@ =~= spec_files_word());
    }
    if !text::starts_with(t, "files") {
        return None;
    }
    let r1 = text::trim_start(t.substring_char(5, tn));
    let n1: usize = r1.unicode_len();
    if !(n1 > 0 && r1.get_char(0) == '=') {
        return None;
    }
    let r2 = text::trim_start(r1.substring_char(1, n1));
    let n2: usize = r2.unicode_len();
    if !(n2 > 0 && r2.get_char(0) == '{') {
        return None;
    }
    let r3 = r2.substring_char(1, n2);
    let n3: usize = r3.unicode_len();
    if !(n3 > 0 && r3.get_char(n3 - 1) == '}') {
        return None;
    }
    Some(text::trim(r3.substring_char(0, n3 - 1)))
}

/// The tag-header text after an inline `[...]` scope list, if one is there.
pub open spec fn spec_after_files(after_tag: Seq<char>) -> Seq<char> {
    match spec_find_char(after_tag, ']') {
        Some(p) => after_tag.subrange(p + 1, after_tag.len() as int),
        None => after_tag,
    }
}

fn after_files<'a>(after_tag: &'a str) -> (r: &'a str)
    ensures
        r@ == spec_after_files(after_tag@),
{
    let n: usize = after_tag.unicode_len();
    match text::find_char(after_tag, ']') {
        Some(p) => after_tag.substring_char(p + 1, n),
        None => after_tag,
    }
}

/// The patterns of an inline `[...]` scope list on the tag line.
pub open spec fn spec_inline_entries(after_tag: Seq<char>, parent: Seq<char>) -> Seq<Seq<char>> {
    match spec_find_char(after_tag, '[') {
        None => Seq::empty(),
        Some(a) => match spec_find_char(after_tag.subrange(a, after_tag.len() as int), ']') {
            None => Seq::empty(),
            Some(b) => spec_entry_patterns(after_tag.subrange(a + 1, a + b), parent),
        },
    }
}

fn inline_entries(after_tag: &str, parent: &str) -> (r: Vec<String>)
    ensures
        r.deep_view() == spec_inline_entries(after_tag@, parent@),
{
    let n: usize = after_tag.unicode_len();
    match text::find_char(after_tag, '[') {
        None => {
            let out: Vec<String> = Vec::new();
            proof {
                assert(out.deep_view() =~= Seq::<Seq<char>>::empty());
            }
            out
        },
        Some(a) => {
            let sub = after_tag.substring_char(a, n);
            match text::find_char(sub, ']') {
                None => {
                    let out: Vec<String> = Vec::new();
                    proof {
                        assert(out.deep_view() =~= Seq::<Seq<char>>::empty());
                    }
                    out
                },
                Some(b) => {
                    proof {
                        assert(sub@[b as int] == ']');
                        assert(sub@[0] == '[');
                        assert(b >= 1);
                    }
                    let inner = after_tag.substring_char(a + 1, a + b);
                    scope::entry_patterns(inner, parent)
                },
            }
        },
    }
}

/// The instruction of a single-line tag: the text before the close marker,
/// with the optional `:` and the name stripped off the front.
pub open spec fn spec_single_instruction(before: Seq<char>, name: Seq<char>) -> Seq<char> {
    let t0 = spec_trim(before);
    let t1 = if t0.len() > 0 && t0[0] == ':' {
        spec_trim_start(t0.subrange(1, t0.len() as int))
    } else {
        t0
    };
    let t2 = if spec_starts_with(t1, name) {
        t1.subrange(name.len() as int, t1.len() as int)
    } else {
        t1
    };
    spec_trim(t2)
}

fn single_instruction<'a>(before: &'a str, name: &str) -> (r: &'a str)
    ensures
        r@ == spec_single_instruction(before@, name@),
{
    let t0 = text::trim(before);
    let n0: usize = t0.unicode_len();
    let t1 = if n0 > 0 && t0.get_char(0) == ':' {
        text::trim_start(t0.substring_char(1, n0))
    } else {
        t0
    };
    let n1: usize = t1.unicode_len();
    let t2 = if text::starts_with(t1, name) {
        t1.substring_char(name.unicode_len(), n1)
    } else {
        t1
    };
    text::trim(t2)
}

/// The body lines that are instruction text, not scope declarations.
pub open spec fn spec_nonempty(ss: Seq<Seq<char>>) -> Seq<Seq<char>> {
    ss.filter(|l: Seq<char>| l.len() > 0)
}

fn filter_nonempty<'a>(parts: &Vec<&'a str>) -> (r: Vec<&'a str>)
    ensures
        r.deep_view() == spec_nonempty(parts.deep_view()),
{
    let ghost dv = parts.deep_view();
    let mut out: Vec<&'a str> = Vec::new();
    proof {
        reveal(Seq::filter);
        assert(out.deep_view() =~= Seq::<Seq<char>>::empty());
        assert(dv.take(0) =~= Seq::<Seq<char>>::empty());
        assert(spec_nonempty(dv.take(0)) =~= Seq::<Seq<char>>::empty());
    }
    let mut k: usize = 0;
    while k < parts.len()
        invariant
            0 <= k <= parts@.len(),
            dv == parts.deep_view(),
            dv.len() == parts@.len(),
            out.deep_view() == spec_nonempty(dv.take(k as int)),
        decreases parts@.len() - k,
    {
        proof {
            assert(dv[k as int] == parts@[k as int]@);
        }
        let p = parts[k];
        let ghost prev = out.deep_view();
        if p.unicode_len() > 0 {
            out.push(p);
            proof {
                assert(out.deep_view() =~= prev.push(p@));
            }
        }
        proof {
            reveal(Seq::filter);
            assert(dv.take(k + 1).drop_last() =~= dv.take(k as int));
            assert(dv.take(k + 1).last() == dv[k as int]);
        }
        k = k + 1;
    }
    proof {
        assert(dv.take(dv.len() as int) =~= dv);
    }
    out
}

/// What a continuation line contributes to the body: the comment marker
/// stripped and the rest trimmed (empty where the line is no continuation).
pub open spec fn spec_cont_trimmed(line: Seq<char>, k: int) -> Seq<char> {
    match spec_strip_comment_expect(line, k) {
        Some(rest) => spec_trim(rest),
        None => Seq::empty(),
    }
}

/// The line where a continuation chain stops: the first line that is not a
/// continuation with the opener's marker, or that carries the close marker.
pub open spec fn spec_scan_end(lines: Seq<Seq<char>>, k: int, j: int) -> int
    decreases lines.len() - j,
{
    if j < 0 || j >= lines.len() {
        j
    } else {
        match spec_strip_comment_expect(lines[j], k) {
            None => j,
            Some(rest) => if spec_contains(spec_trim(rest), spec_close()) {
                j
            } else {
                spec_scan_end(lines, k, j + 1)
            },
        }
    }
}

/// The chain ends at a continuation line carrying the close marker (rather
/// than breaking or running off the end of the file).
pub open spec fn spec_scan_closed(lines: Seq<Seq<char>>, k: int, j: int) -> bool {
    let e = spec_scan_end(lines, k, j);
    &&& e < lines.len()
    &&& spec_strip_comment_expect(lines[e], k) matches Some(rest) && spec_contains(
        spec_trim(rest),
        spec_close(),
    )
}

pub proof fn lemma_scan_end_range(lines: Seq<Seq<char>>, k: int, j: int)
    requires
        0 <= j <= lines.len(),
    ensures
        j <= spec_scan_end(lines, k, j) <= lines.len(),
    decreases lines.len() - j,
{
    if j < lines.len() {
        match spec_strip_comment_expect(lines[j], k) {
            None => {},
            Some(rest) => {
                if !spec_contains(spec_trim(rest), spec_close()) {
                    lemma_scan_end_range(lines, k, j + 1);
                }
            },
        }
    }
}

/// The trimmed continuation texts of the lines strictly between the opener
/// and the line where the chain stops.
pub open spec fn spec_body_prefix(lines: Seq<Seq<char>>, k: int, j: int, e: int) -> Seq<Seq<char>> {
    Seq::new((e - j) as nat, |x: int| spec_cont_trimmed(lines[j + x], k))
}

/// The body of a multi-line annotation opened with marker `k` on line `j - 1`:
/// the continuation texts, plus what stands before the close marker on the
/// final line when that is nonempty.
pub open spec fn spec_body_lines(lines: Seq<Seq<char>>, k: int, j: int) -> Seq<Seq<char>> {
    let e = spec_scan_end(lines, k, j);
    let base = spec_body_prefix(lines, k, j, e);
    if spec_scan_closed(lines, k, j) {
        let t = spec_cont_trimmed(lines[e], k);
        let pos = crate::text::spec_find_sub(t, spec_close())->Some_0;
        if spec_trim(t.take(pos)).len() > 0 {
            base.push(spec_trim(t.take(pos)))
        } else {
            base
        }
    } else {
        base
    }
}

/// The scope patterns declared by `files = { ... }` lines of a body.
pub open spec fn spec_body_entries(body: Seq<Seq<char>>, parent: Seq<char>) -> Seq<Seq<char>>
    decreases body.len(),
{
    if body.len() == 0 {
        Seq::empty()
    } else {
        let pre = spec_body_entries(body.drop_last(), parent);
        match spec_files_inner(body.last()) {
            Some(inner) => pre + spec_entry_patterns(inner, parent),
            None => pre,
        }
    }
}

/// The body lines that are not scope declarations, in order.
pub open spec fn spec_body_remaining(body: Seq<Seq<char>>) -> Seq<Seq<char>>
    decreases body.len(),
{
    if body.len() == 0 {
        Seq::empty()
    } else {
        let pre = spec_body_remaining(body.drop_last());
        match spec_files_inner(body.last()) {
            Some(inner) => pre,
            None => pre.push(body.last()),
        }
    }
}

fn split_body<'a>(body: &Vec<&'a str>, parent: &str) -> (r: (Vec<String>, Vec<&'a str>))
    ensures
        r.0.deep_view() == spec_body_entries(body.deep_view(), parent@),
        r.1.deep_view() == spec_body_remaining(body.deep_view()),
{
    let ghost dv = body.deep_view();
    let mut entries: Vec<String> = Vec::new();
    let mut remaining: Vec<&'a str> = Vec::new();
    proof {
        assert(entries.deep_view() =~= Seq::<Seq<char>>::empty());
        assert(remaining.deep_view() =~= Seq::<Seq<char>>::empty());
        assert(dv.take(0) =~= Seq::<Seq<char>>::empty());
    }
    let mut k: usize = 0;
    while k < body.len()
        invariant
            0 <= k <= body@.len(),
            dv == body.deep_view(),
            dv.len() == body@.len(),
            entries.deep_view() == spec_body_entries(dv.take(k as int), parent@),
            remaining.deep_view() == spec_body_remaining(dv.take(k as int)),
        decreases body@.len() - k,
    {
        proof {
            assert(dv[k as int] == body@[k as int]@);
            assert(dv.take(k + 1).drop_last() =~= dv.take(k as int));
            assert(dv.take(k + 1).last() == dv[k as int]);
        }
        match parse_files_line(body[k]) {
            Some(inner) => {
                let pats = scope::entry_patterns(inner, parent);
                let ghost pv = pats.deep_view();
                let ghost pre = entries.deep_view();
                let mut j: usize = 0;
                while j < pats.len()
                    invariant
                        0 <= j <= pats@.len(),
                        pv == pats.deep_view(),
                        pv.len() == pats@.len(),
                        entries.deep_view() == pre + pv.take(j as int),
                    decreases pats@.len() - j,
                {
                    proof {
                        assert(pv[j as int] == pats@[j as int]@);
                    }
                    let ghost prev = entries.deep_view();
                    entries.push(pats[j].clone());
                    proof {
                        assert(entries.deep_view() =~= prev.push(pv[j as int]));
                        assert(pre + pv.take(j + 1) =~= (pre + pv.take(j as int)).push(
                            pv[j as int],
                        ));
                    }
                    j = j + 1;
                }
                proof {
                    assert(pv.take(pv.len() as int) =~= pv);
                }
            },
            None => {
                let ghost prev = remaining.deep_view();
                remaining.push(body[k]);
                proof {
                    assert(remaining.deep_view() =~= prev.push(dv[k as int]));
                }
            },
        }
        k = k + 1;
    }
    proof {
        assert(dv.take(dv.len() as int) =~= dv);
    }
    (entries, remaining)
}

/// The annotations of a file, scanning from line `i` (0-based): what the
/// parser produces, with scope entries still unresolved patterns.
pub open spec fn spec_markers_from(lines: Seq<Seq<char>>, parent: Seq<char>, i: int) -> Seq<
    RawMarkerModel,
>
    decreases lines.len() - i,
    via spec_markers_from_decreases
{
    if i < 0 || i >= lines.len() {
        Seq::empty()
    } else {
        match spec_open_line(lines[i]) {
            None => spec_markers_from(lines, parent, i + 1),
            Some((k, after_tag)) => {
                let name = spec_extract_name(after_tag);
                let af = spec_after_files(after_tag);
                if spec_ends_with(af, spec_close()) {
                    let m = RawMarkerModel {
                        name: name,
                        line: i + 1,
                        instruction: spec_single_instruction(af.take(af.len() - 2), name),
                        entries: spec_inline_entries(after_tag, parent),
                    };
                    seq![m] + spec_markers_from(lines, parent, i + 1)
                } else {
                    let e = spec_scan_end(lines, k, i + 1);
                    if spec_scan_closed(lines, k, i + 1) {
                        let body = spec_body_lines(lines, k, i + 1);
                        let m = RawMarkerModel {
                            name: name,
                            line: i + 1,
                            instruction: spec_join(
                                spec_nonempty(spec_body_remaining(body)),
                                seq!['\n'],
                            ),
                            entries: spec_inline_entries(after_tag, parent) + spec_body_entries(
                                body,
                                parent,
                            ),
                        };
                        seq![m] + spec_markers_from(lines, parent, e + 1)
                    } else {
                        spec_markers_from(lines, parent, e)
                    }
                }
            },
        }
    }
}

#[via_fn]
proof fn spec_markers_from_decreases(lines: Seq<Seq<char>>, parent: Seq<char>, i: int) {
    if 0 <= i < lines.len() {
        lemma_scan_end_range(lines, 0, i + 1);
        lemma_scan_end_range(lines, 1, i + 1);
        lemma_scan_end_range(lines, 2, i + 1);
        lemma_scan_end_range(lines, 3, i + 1);
        lemma_scan_end_range(lines, 4, i + 1);
        match spec_open_line(lines[i]) {
            None => {},
            Some((k, after_tag)) => {
                lemma_scan_end_range(lines, k, i + 1);
            },
        }
    }
}

/// Parses one file's text into annotations with unresolved scope patterns.
/// The result is a function of the text and the path alone, so parsing the
/// same text twice yields the same annotation sequence.
pub fn parse_marker_patterns(contents: &str, rel_path: &str) -> (r: Vec<RawMarker>)
    ensures
        r.deep_view() == spec_markers_from(
            spec_lines(contents@),
            spec_parent_dir(rel_path@),
            0,
        ),
{
    let parent = scope::parent_dir(rel_path);
    let lines = text::split_lines(contents);
    let ghost lv = lines.deep_view();
    let n: usize = lines.len();
    let mut out: Vec<RawMarker> = Vec::new();
    proof {
        assert(out.deep_view() =~= Seq::<RawMarkerModel>::empty());
        assert(out.deep_view() + spec_markers_from(lv, parent@, 0) =~= spec_markers_from(
            lv,
            parent@,
            0,
        ));
    }
    let mut i: usize = 0;
    while i < n
        invariant
            0 <= i <= n,
            lv == lines.deep_view(),
            lv.len() == n,
            n == lines@.len(),
            parent@ == spec_parent_dir(rel_path@),
            out.deep_view() + spec_markers_from(lv, parent@, i as int) == spec_markers_from(
                lv,
                parent@,
                0,
            ),
        decreases n - i,
    {
        let line = lines[i];
        proof {
            assert(lv[i as int] == line@);
        }
        let opened = match strip_comment_prefix(line, None) {
            None => None,
            Some((rest, k)) => match tag_rest(rest) {
                None => None,
                Some(after_tag) => Some((after_tag, k)),
            },
        };
        match opened {
            None => {
                proof {
                    assert(spec_open_line(lv[i as int]) is None);
                    assert(spec_markers_from(lv, parent@, i as int) == spec_markers_from(
                        lv,
                        parent@,
                        i + 1,
                    ));
                }
                i = i + 1;
            },
            Some((after_tag, k)) => {
                proof {
                    assert(spec_open_line(lv[i as int]) == Some((k as int, after_tag@)));
                }
                let name = extract_name(after_tag);
                let af = after_files(after_tag);
                let afn: usize = af.unicode_len();
                proof {
                    reveal_strlit("/>");
                    assert("/>"@ =~= spec_close());
                }
                if text::ends_with(af, "/>") {
                    let before = af.substring_char(0, afn - 2);
                    proof {
                        assert(before@ =~= af@.take(af@.len() - 2));
                    }
                    let instr = single_instruction(before, name);
                    let entries = inline_entries(after_tag, parent);
                    let m = RawMarker {
                        name: String::from_str(name),
                        line: i + 1,
                        instruction: String::from_str(instr),
                        entries,
                    };
                    let ghost prev = out.deep_view();
                    let ghost gm = m@;
                    out.push(m);
                    proof {
                        assert(out.deep_view() =~= prev.push(gm));
                        assert(spec_markers_from(lv, parent@, i as int) == seq![gm]
                            + spec_markers_from(lv, parent@, i + 1));
                        assert(prev.push(gm) =~= prev + seq![gm]);
                        assert(prev + (seq![gm] + spec_markers_from(lv, parent@, i + 1)) =~= (prev
                            + seq![gm]) + spec_markers_from(lv, parent@, i + 1));
                    }
                    i = i + 1;
                } else {
                    let mut j: usize = i + 1;
                    let mut body: Vec<&str> = Vec::new();
                    let mut closed = false;
                    proof {
                        assert(body.deep_view() =~= Seq::<Seq<char>>::empty());
                        assert(body.deep_view() =~= spec_body_prefix(
                            lv,
                            k as int,
                            (i + 1) as int,
                            (i + 1) as int,
                        ));
                    }
                    while j < n
                        invariant_except_break
                            !closed,
                            spec_scan_end(lv, k as int, (i + 1) as int) == spec_scan_end(
                                lv,
                                k as int,
                                j as int,
                            ),
                            body.deep_view() == spec_body_prefix(
                                lv,
                                k as int,
                                (i + 1) as int,
                                j as int,
                            ),
                        invariant
                            i + 1 <= j <= n,
                            k < 5,
                            lv == lines.deep_view(),
                            lv.len() == n,
                            n == lines@.len(),
                            "/>"@ =~= spec_close(),
                        ensures
                            i + 1 <= j <= n,
                            spec_scan_end(lv, k as int, (i + 1) as int) == j as int,
                            closed == spec_scan_closed(lv, k as int, (i + 1) as int),
                            closed ==> body.deep_view() == spec_body_lines(
                                lv,
                                k as int,
                                (i + 1) as int,
                            ),
                        decreases n - j,
                    {
                        proof {
                            assert(lv[j as int] == lines@[j as int]@);
                        }
                        match strip_comment_prefix(lines[j], Some(k)) {
                            None => {
                                proof {
                                    assert(spec_scan_end(lv, k as int, j as int) == j as int);
                                    assert(!spec_scan_closed(lv, k as int, (i + 1) as int));
                                }
                                break ;
                            },
                            Some((rest2, _)) => {
                                let t = text::trim(rest2);
                                if text::contains_sub(t, "/>") {
                                    proof {
                                        assert(spec_scan_end(lv, k as int, j as int) == j as int);
                                        assert(spec_cont_trimmed(lv[j as int], k as int) == t@);
                                        assert(spec_scan_closed(lv, k as int, (i + 1) as int));
                                    }
                                    let ghost base = body.deep_view();
                                    let pos = match text::find_sub(t, "/>") {
                                        Some(p2) => p2,
                                        None => {
                                            proof {
                                                text::lemma_find_sub_props(t@, "/>"@);
                                            }
                                            assert(false);
                                            0
                                        },
                                    };
                                    proof {
                                        text::lemma_find_sub_props(t@, "/>"@);
                                        assert(text::occurs_at(t@, "/>"@, pos as int));
                                    }
                                    let b = text::trim(t.substring_char(0, pos));
                                    proof {
                                        assert(t@.take(pos as int) =~= t@.subrange(0, pos as int));
                                    }
                                    if b.unicode_len() > 0 {
                                        let ghost prevb = body.deep_view();
                                        body.push(b);
                                        proof {
                                            assert(body.deep_view() =~= prevb.push(b@));
                                        }
                                    }
                                    closed = true;
                                    proof {
                                        assert(body.deep_view() == spec_body_lines(
                                            lv,
                                            k as int,
                                            (i + 1) as int,
                                        ));
                                    }
                                    break ;
                                } else {
                                    let ghost prevb = body.deep_view();
                                    body.push(t);
                                    proof {
                                        assert(body.deep_view() =~= prevb.push(t@));
                                        assert(spec_scan_end(lv, k as int, j as int)
                                            == spec_scan_end(lv, k as int, (j + 1) as int));
                                        assert(body.deep_view() =~= spec_body_prefix(
                                            lv,
                                            k as int,
                                            (i + 1) as int,
                                            (j + 1) as int,
                                        ));
                                    }
                                    j = j + 1;
                                }
                            },
                        }
                    }
                    let ghost e = spec_scan_end(lv, k as int, (i + 1) as int);
                    if closed {
                        proof {
                            assert(e == j as int);
                            assert(spec_scan_closed(lv, k as int, (i + 1) as int));
                            assert(body.deep_view() == spec_body_lines(lv, k as int, (i + 1) as int));
                        }
                        let mut entry_vec = inline_entries(after_tag, parent);
                        let ghost inline_dv = entry_vec.deep_view();
                        let br = split_body(&body, parent);
                        let body_entries = br.0;
                        let remaining = br.1;
                        let ghost bev = body_entries.deep_view();
                        proof {
                            assert(bev.take(0) =~= Seq::<Seq<char>>::empty());
                            assert(entry_vec.deep_view() =~= inline_dv + bev.take(0));
                        }
                        let mut bi: usize = 0;
                        while bi < body_entries.len()
                            invariant
                                0 <= bi <= body_entries@.len(),
                                bev == body_entries.deep_view(),
                                bev.len() == body_entries@.len(),
                                entry_vec.deep_view() == inline_dv + bev.take(bi as int),
                            decreases body_entries@.len() - bi,
                        {
                            proof {
                                assert(bev[bi as int] == body_entries@[bi as int]@);
                            }
                            let ghost prev_entries = entry_vec.deep_view();
                            entry_vec.push(body_entries[bi].clone());
                            proof {
                                assert(entry_vec.deep_view() =~= prev_entries.push(
                                    bev[bi as int],
                                ));
                                assert(inline_dv + bev.take(bi + 1) =~= (inline_dv + bev.take(
                                    bi as int,
                                )).push(bev[bi as int]));
                            }
                            bi = bi + 1;
                        }
                        proof {
                            assert(bev.take(bev.len() as int) =~= bev);
                        }
                        let parts = filter_nonempty(&remaining);
                        proof {
                            reveal_strlit("\n");
                            assert("\n"@ =~= seq!['\n']);
                        }
                        let instr = text::join_with(&parts, "\n");
                        let m = RawMarker {
                            name: String::from_str(name),
                            line: i + 1,
                            instruction: instr,
                            entries: entry_vec,
                        };
                        let ghost prev = out.deep_view();
                        let ghost gm = m@;
                        out.push(m);
                        proof {
                            assert(out.deep_view() =~= prev.push(gm));
                            assert(spec_markers_from(lv, parent@, i as int) == seq![gm]
                                + spec_markers_from(lv, parent@, e + 1));
                            assert(prev.push(gm) =~= prev + seq![gm]);
                            assert(prev + (seq![gm] + spec_markers_from(lv, parent@, e + 1)) =~= (
                            prev + seq![gm]) + spec_markers_from(lv, parent@, e + 1));
                        }
                        i = j + 1;
                    } else {
                        proof {
                            assert(e == j as int);
                            assert(!spec_scan_closed(lv, k as int, (i + 1) as int));
                            assert(spec_markers_from(lv, parent@, i as int) == spec_markers_from(
                                lv,
                                parent@,
                                e,
                            ));
                        }
                        i = j;
                    }
                }
            },
        }
    }
    proof {
        assert(spec_markers_from(lv, parent@, n as int) =~= Seq::<RawMarkerModel>::empty());
        assert(out.deep_view() + Seq::<RawMarkerModel>::empty() =~= out.deep_view());
    }
    out
}

/// What the parser yields for one file: a pure function of the file's text
/// and its repository-relative path.
pub open spec fn spec_parsed(contents: Seq<char>, rel_path: Seq<char>) -> Seq<RawMarkerModel> {
    spec_markers_from(spec_lines(contents), spec_parent_dir(rel_path), 0)
}

/// Determinism law: what the parser yields is a function of the file's text
/// and path alone, so parsing the same text twice yields identical
/// annotation sequences.
pub proof fn lemma_parse_deterministic(
    r1: Seq<RawMarkerModel>,
    r2: Seq<RawMarkerModel>,
    contents: Seq<char>,
    rel_path: Seq<char>,
)
    requires
        r1 == spec_parsed(contents, rel_path),
        r2 == spec_parsed(contents, rel_path),
    ensures
        r1 == r2,
{
}

/// Broken-chain law: a multi-line annotation whose next line is not a
/// continuation written with the opener's own comment marker yields no
/// annotation at all: scanning simply resumes at that line.
pub proof fn lemma_broken_continuation(lines: Seq<Seq<char>>, parent: Seq<char>, i: int)
    requires
        0 <= i < lines.len(),
        spec_open_line(lines[i]) matches Some((k, after)) && !spec_ends_with(
            spec_after_files(after),
            spec_close(),
        ) && (i + 1 >= lines.len() || spec_strip_comment_expect(lines[i + 1], k) is None),
    ensures
        spec_markers_from(lines, parent, i) == spec_markers_from(lines, parent, i + 1),
{
    let (k, after) = spec_open_line(lines[i])->Some_0;
    assert(spec_scan_end(lines, k, i + 1) == i + 1);
    assert(!spec_scan_closed(lines, k, i + 1));
}

/// Every annotation found scanning from line index `j` opens at 1-based
/// line `j + 1` or later.
pub proof fn lemma_marker_lines_bound(lines: Seq<Seq<char>>, parent: Seq<char>, j: int)
    ensures
        forall|x: int|
            0 <= x < spec_markers_from(lines, parent, j).len() ==> (#[trigger] spec_markers_from(
                lines,
                parent,
                j,
            )[x]).line >= j + 1,
    decreases lines.len() - j,
{
    if 0 <= j < lines.len() {
        let full = spec_markers_from(lines, parent, j);
        match spec_open_line(lines[j]) {
            None => {
                lemma_marker_lines_bound(lines, parent, j + 1);
                let rest = spec_markers_from(lines, parent, j + 1);
                assert forall|x: int| 0 <= x < full.len() implies (#[trigger] full[x]).line >= j
                    + 1 by {
                    assert(full[x] == rest[x]);
                }
            },
            Some((k, after_tag)) => {
                let af = spec_after_files(after_tag);
                if spec_ends_with(af, spec_close()) {
                    lemma_marker_lines_bound(lines, parent, j + 1);
                    let rest = spec_markers_from(lines, parent, j + 1);
                    assert forall|x: int| 0 <= x < full.len() implies (#[trigger] full[x]).line
                        >= j + 1 by {
                        if x > 0 {
                            assert(full[x] == rest[x - 1]);
                        }
                    }
                } else {
                    let e = spec_scan_end(lines, k, j + 1);
                    lemma_scan_end_range(lines, k, j + 1);
                    if spec_scan_closed(lines, k, j + 1) {
                        lemma_marker_lines_bound(lines, parent, e + 1);
                        let rest = spec_markers_from(lines, parent, e + 1);
                        assert forall|x: int| 0 <= x < full.len() implies (#[trigger] full[x]).line
                            >= j + 1 by {
                            if x > 0 {
                                assert(full[x] == rest[x - 1]);
                            }
                        }
                    } else {
                        lemma_marker_lines_bound(lines, parent, e);
                        let rest = spec_markers_from(lines, parent, e);
                        assert forall|x: int| 0 <= x < full.len() implies (#[trigger] full[x]).line
                            >= j + 1 by {
                            assert(full[x] == rest[x]);
                        }
                    }
                }
            },
        }
    }
}

/// Broken-chain law, file-wide: when a line opens a multi-line annotation
/// whose next line is not a continuation written with the opener's own
/// comment marker, no annotation anywhere in the parse opens at that line.
/// Scanning from index `j == 0` covers the whole file.
pub proof fn lemma_no_marker_at_broken_line(
    lines: Seq<Seq<char>>,
    parent: Seq<char>,
    j: int,
    i: int,
)
    requires
        0 <= i < lines.len(),
        spec_open_line(lines[i]) matches Some((k, after)) && !spec_ends_with(
            spec_after_files(after),
            spec_close(),
        ) && (i + 1 >= lines.len() || spec_strip_comment_expect(lines[i + 1], k) is None),
    ensures
        forall|x: int|
            0 <= x < spec_markers_from(lines, parent, j).len() ==> (#[trigger] spec_markers_from(
                lines,
                parent,
                j,
            )[x]).line != i + 1,
    decreases lines.len() - j,
{
    if 0 <= j < lines.len() {
        let full = spec_markers_from(lines, parent, j);
        if j == i {
            lemma_broken_continuation(lines, parent, i);
            lemma_marker_lines_bound(lines, parent, i + 1);
            let rest = spec_markers_from(lines, parent, i + 1);
            assert forall|x: int| 0 <= x < full.len() implies (#[trigger] full[x]).line != i
                + 1 by {
                assert(full[x] == rest[x]);
                assert(rest[x].line >= i + 2);
            }
        } else {
            match spec_open_line(lines[j]) {
                None => {
                    lemma_no_marker_at_broken_line(lines, parent, j + 1, i);
                    let rest = spec_markers_from(lines, parent, j + 1);
                    assert forall|x: int| 0 <= x < full.len() implies (#[trigger] full[x]).line != i
                        + 1 by {
                        assert(full[x] == rest[x]);
                    }
                },
                Some((k2, after2)) => {
                    let af = spec_after_files(after2);
                    if spec_ends_with(af, spec_close()) {
                        lemma_no_marker_at_broken_line(lines, parent, j + 1, i);
                        let rest = spec_markers_from(lines, parent, j + 1);
                        assert forall|x: int| 0 <= x < full.len() implies (#[trigger] full[x]).line
                            != i + 1 by {
                            if x > 0 {
                                assert(full[x] == rest[x - 1]);
                            }
                        }
                    } else {
                        let e = spec_scan_end(lines, k2, j + 1);
                        lemma_scan_end_range(lines, k2, j + 1);
                        if spec_scan_closed(lines, k2, j + 1) {
                            lemma_no_marker_at_broken_line(lines, parent, e + 1, i);
                            let rest = spec_markers_from(lines, parent, e + 1);
                            assert forall|x: int|
                                0 <= x < full.len() implies (#[trigger] full[x]).line != i + 1 by {
                                if x > 0 {
                                    assert(full[x] == rest[x - 1]);
                                }
                            }
                        } else {
                            lemma_no_marker_at_broken_line(lines, parent, e, i);
                            let rest = spec_markers_from(lines, parent, e);
                            assert forall|x: int|
                                0 <= x < full.len() implies (#[trigger] full[x]).line != i + 1 by {
                                assert(full[x] == rest[x]);
                            }
                        }
                    }
                },
            }
        }
    }
}

/// Single-line law: a well-formed single-line tag: a recognized comment
/// marker, the tag opener with a name and an instruction, closed on the
/// same line: yields exactly one annotation carrying that name and
/// instruction and an empty scope, and scanning resumes at the next line.
/// The name must avoid the characters that end a name segment and `]`; the
/// instruction must avoid brackets and line breaks and carry no outer
/// whitespace.
/// The tag-header text of a well-formed single-line tag.
pub open spec fn spec_single_after(name: Seq<char>, instr: Seq<char>) -> Seq<char> {
    seq![':', ' '] + name + seq![' '] + instr + seq![' ', '/', '>']
}

#[verifier::spinoff_prover]
proof fn lemma_single_open(line: Seq<char>, k: int, name: Seq<char>, instr: Seq<char>)
    requires
        0 <= k < 5,
        line == spec_prefix(k) + " <wk: "@ + name + " "@ + instr + " />"@,
        name.len() > 0,
        !is_space(name[0]),
    ensures
        spec_open_line(line) == Some((k, spec_single_after(name, instr))),
{
    reveal_strlit(" <wk: ");
    reveal_strlit(" ");
    reveal_strlit(" />");
    reveal_strlit("<wk");
    let pfx = spec_prefix(k);
    assert(" <wk: "@ =~= seq![' ', '<', 'w', 'k', ':', ' ']);
    assert(" "@ =~= seq![' ']);
    assert(" />"@ =~= seq![' ', '/', '>']);
    assert("<wk"@ =~= seq!['<', 'w', 'k']);
    assert(!is_space(line[0]));
    crate::text::lemma_first_non_space_at(line, 0);
    assert(spec_trim_start(line) =~= line);
    assert(line.subrange(0, pfx.len() as int) =~= pfx);
    assert(spec_starts_with(line, pfx));
    if k > 0 {
        assert(line[0] == '#' || line[0] == '-' || line[0] == '%' || line[0] == ';');
        assert(!spec_starts_with(line, spec_prefix(0)));
    }
    if k > 1 {
        assert(!spec_starts_with(line, spec_prefix(1)));
    }
    if k > 2 {
        assert(!spec_starts_with(line, spec_prefix(2)));
    }
    if k > 3 {
        assert(!spec_starts_with(line, spec_prefix(3)));
    }
    let rest = line.subrange(pfx.len() as int, line.len() as int);
    assert(rest =~= " <wk: "@ + name + " "@ + instr + " />"@);
    assert(spec_strip_comment_any(line) == Some((k, rest)));
    assert(rest[0] == ' ' && !is_space(rest[1]));
    crate::text::lemma_first_non_space_at(rest, 1);
    let t = rest.subrange(1, rest.len() as int);
    assert(spec_trim_start(rest) =~= t);
    assert(t.subrange(0, 3) =~= "<wk"@);
    assert(spec_starts_with(t, spec_tag_short()));
    let after = t.subrange(3, t.len() as int);
    assert(after =~= spec_single_after(name, instr));
    assert(spec_tag_rest(rest) == Some(after));
}

#[verifier::spinoff_prover]
proof fn lemma_single_name(after: Seq<char>, name: Seq<char>, instr: Seq<char>)
    requires
        after == spec_single_after(name, instr),
        name.len() > 0,
        forall|j: int| 0 <= j < name.len() ==> !name_stop(#[trigger] name[j]),
    ensures
        spec_extract_name(after) == name,
{
    assert(after[0] == ':');
    crate::text::lemma_first_non_space_at(after, 0);
    assert(spec_trim_start(after) =~= after);
    let s1 = after.subrange(1, after.len() as int);
    assert(s1[0] == ' ' && !is_space(s1[1]));
    crate::text::lemma_first_non_space_at(s1, 1);
    let s2 = s1.subrange(1, s1.len() as int);
    assert(spec_trim_start(s1) =~= s2);
    assert(s2 =~= name + seq![' '] + instr + seq![' ', '/', '>']);
    assert(forall|j: int| 0 <= j < name.len() ==> !name_stop(#[trigger] s2[j]));
    assert(name_stop(s2[name.len() as int]));
    lemma_name_end_at(s2, name.len() as int);
    assert(s2.take(name.len() as int) =~= name);
}

#[verifier::spinoff_prover]
proof fn lemma_single_brackets(after: Seq<char>, parent: Seq<char>, name: Seq<char>, instr: Seq<char>)
    requires
        after == spec_single_after(name, instr),
        forall|j: int| 0 <= j < name.len() ==> !name_stop(#[trigger] name[j]) && name[j] != ']',
        forall|j: int|
            0 <= j < instr.len() ==> (#[trigger] instr[j]) != '[' && instr[j] != ']',
    ensures
        spec_inline_entries(after, parent) == Seq::<Seq<char>>::empty(),
        spec_after_files(after) == after,
        spec_ends_with(after, spec_close()),
{
    assert(forall|j: int| 0 <= j < after.len() ==> (#[trigger] after[j]) != '[');
    crate::text::lemma_find_char_at(after, '[', after.len() as int);
    assert(spec_inline_entries(after, parent) =~= Seq::<Seq<char>>::empty());
    assert(forall|j: int| 0 <= j < after.len() ==> (#[trigger] after[j]) != ']');
    crate::text::lemma_find_char_at(after, ']', after.len() as int);
    assert(after.subrange(after.len() - 2, after.len() as int) =~= spec_close());
}

#[verifier::rlimit(60)]
#[verifier::spinoff_prover]
proof fn lemma_single_instr(after: Seq<char>, name: Seq<char>, instr: Seq<char>)
    requires
        after == spec_single_after(name, instr),
        name.len() > 0,
        !is_space(name[0]),
        !is_space(name[name.len() - 1]),
        instr.len() > 0 ==> !is_space(instr[0]) && !is_space(instr[instr.len() - 1]),
    ensures
        spec_single_instruction(after.take(after.len() - 2), name) == instr,
{
    let before = after.take(after.len() - 2);
    assert(before =~= seq![':', ' '] + name + seq![' '] + instr + seq![' ']);
    assert(before[0] == ':');
    crate::text::lemma_first_non_space_at(before, 0);
    assert(spec_trim_start(before) =~= before);
    if instr.len() > 0 {
        assert(!is_space(before[before.len() - 2]));
        crate::text::lemma_last_non_space_at(before, before.len() - 1);
        let t0 = before.take(before.len() - 1);
        assert(spec_trim(before) =~= t0);
        assert(t0 =~= seq![':', ' '] + name + seq![' '] + instr);
        let r1 = t0.subrange(1, t0.len() as int);
        assert(r1[0] == ' ' && !is_space(r1[1]));
        crate::text::lemma_first_non_space_at(r1, 1);
        let t1 = r1.subrange(1, r1.len() as int);
        assert(spec_trim_start(r1) =~= t1);
        assert(t1 =~= name + seq![' '] + instr);
        assert(t1.subrange(0, name.len() as int) =~= name);
        assert(spec_starts_with(t1, name));
        let t2 = t1.subrange(name.len() as int, t1.len() as int);
        assert(t2 =~= seq![' '] + instr);
        assert(t2[0] == ' ' && !is_space(t2[1]));
        crate::text::lemma_first_non_space_at(t2, 1);
        let t3 = t2.subrange(1, t2.len() as int);
        assert(spec_trim_start(t2) =~= t3);
        assert(t3 =~= instr);
        assert(!is_space(t3[t3.len() - 1]));
        crate::text::lemma_last_non_space_at(t3, t3.len() as int);
        assert(spec_trim_end(t3) =~= t3);
    } else {
        assert(!is_space(before[before.len() - 3]));
        crate::text::lemma_last_non_space_at(before, before.len() - 2);
        let t0 = before.take(before.len() - 2);
        assert(spec_trim(before) =~= t0);
        assert(t0 =~= seq![':', ' '] + name);
        let r1 = t0.subrange(1, t0.len() as int);
        assert(r1[0] == ' ' && !is_space(r1[1]));
        crate::text::lemma_first_non_space_at(r1, 1);
        let t1 = r1.subrange(1, r1.len() as int);
        assert(spec_trim_start(r1) =~= t1);
        assert(t1 =~= name);
        assert(t1.subrange(0, name.len() as int) =~= name);
        assert(spec_starts_with(t1, name));
        let t2 = t1.subrange(name.len() as int, t1.len() as int);
        assert(t2 =~= Seq::<char>::empty());
        crate::text::lemma_first_non_space_at(t2, 0);
        crate::text::lemma_last_non_space_at(spec_trim_start(t2), 0);
        assert(spec_trim(t2) =~= instr);
    }
}

#[verifier::rlimit(60)]
#[verifier::spinoff_prover]
pub proof fn lemma_single_line_tag(
    lines: Seq<Seq<char>>,
    parent: Seq<char>,
    i: int,
    k: int,
    name: Seq<char>,
    instr: Seq<char>,
)
    requires
        0 <= i < lines.len(),
        0 <= k < 5,
        lines[i] == spec_prefix(k) + " <wk: "@ + name + " "@ + instr + " />"@,
        name.len() > 0,
        forall|j: int| 0 <= j < name.len() ==> !name_stop(#[trigger] name[j]) && name[j] != ']',
        forall|j: int|
            0 <= j < instr.len() ==> (#[trigger] instr[j]) != '[' && instr[j] != ']' && instr[j]
                != '\n' && instr[j] != '\r',
        instr.len() > 0 ==> !is_space(instr[0]) && !is_space(instr[instr.len() - 1]),
    ensures
        spec_markers_from(lines, parent, i) == seq![
            RawMarkerModel {
                name: name,
                line: i + 1,
                instruction: instr,
                entries: Seq::empty(),
            },
        ] + spec_markers_from(lines, parent, i + 1),
{
    let line = lines[i];
    let after = spec_single_after(name, instr);
    assert(!is_space(name[0]) && !is_space(name[name.len() - 1])) by {
        assert(!name_stop(name[0]));
        assert(!name_stop(name[name.len() - 1]));
    }
    lemma_single_open(line, k, name, instr);
    lemma_single_name(after, name, instr);
    lemma_single_brackets(after, parent, name, instr);
    lemma_single_instr(after, name, instr);
    let m = RawMarkerModel {
        name: name,
        line: i + 1,
        instruction: instr,
        entries: Seq::empty(),
    };
    assert(spec_markers_from(lines, parent, i) =~= seq![m] + spec_markers_from(
        lines,
        parent,
        i + 1,
    ));
}

/// Lines that open no annotation contribute nothing: scanning from `j` and
/// from `i` agree when no line in between opens a tag.
pub proof fn lemma_skip_non_openers(lines: Seq<Seq<char>>, parent: Seq<char>, j: int, i: int)
    requires
        0 <= j <= i <= lines.len(),
        forall|x: int| j <= x < i ==> spec_open_line(#[trigger] lines[x]) is None,
    ensures
        spec_markers_from(lines, parent, j) == spec_markers_from(lines, parent, i),
    decreases i - j,
{
    if j < i {
        lemma_skip_non_openers(lines, parent, j + 1, i);
    }
}

/// Single-line law from the top of a file: when no line before `i` opens a
/// tag and line `i` is a well-formed single-line tag, the file's first
/// annotation is exactly the one that tag describes, at 1-based line
/// `i + 1`, with an empty scope; the rest of the parse follows from the
/// next line.
pub proof fn lemma_single_line_first_opener(
    lines: Seq<Seq<char>>,
    parent: Seq<char>,
    i: int,
    k: int,
    name: Seq<char>,
    instr: Seq<char>,
)
    requires
        0 <= i < lines.len(),
        forall|x: int| 0 <= x < i ==> spec_open_line(#[trigger] lines[x]) is None,
        0 <= k < 5,
        lines[i] == spec_prefix(k) + " <wk: "@ + name + " "@ + instr + " />"@,
        name.len() > 0,
        forall|j: int| 0 <= j < name.len() ==> !name_stop(#[trigger] name[j]) && name[j] != ']',
        forall|j: int|
            0 <= j < instr.len() ==> (#[trigger] instr[j]) != '[' && instr[j] != ']' && instr[j]
                != '\n' && instr[j] != '\r',
        instr.len() > 0 ==> !is_space(instr[0]) && !is_space(instr[instr.len() - 1]),
    ensures
        spec_markers_from(lines, parent, 0) == seq![
            RawMarkerModel {
                name: name,
                line: i + 1,
                instruction: instr,
                entries: Seq::empty(),
            },
        ] + spec_markers_from(lines, parent, i + 1),
{
    lemma_skip_non_openers(lines, parent, 0, i);
    lemma_single_line_tag(lines, parent, i, k, name, instr);
}

/// Single-line law for a whole file: a file whose text is one well-formed
/// single-line tag parses to exactly one annotation, with that name and
/// instruction and an empty scope, at line one.
pub proof fn lemma_single_line_file(
    contents: Seq<char>,
    rel_path: Seq<char>,
    k: int,
    name: Seq<char>,
    instr: Seq<char>,
)
    requires
        0 <= k < 5,
        contents == spec_prefix(k) + " <wk: "@ + name + " "@ + instr + " />"@,
        name.len() > 0,
        forall|j: int| 0 <= j < name.len() ==> !name_stop(#[trigger] name[j]) && name[j] != ']',
        forall|j: int|
            0 <= j < instr.len() ==> (#[trigger] instr[j]) != '[' && instr[j] != ']' && instr[j]
                != '\n' && instr[j] != '\r',
        instr.len() > 0 ==> !is_space(instr[0]) && !is_space(instr[instr.len() - 1]),
    ensures
        spec_parsed(contents, rel_path) == seq![
            RawMarkerModel {
                name: name,
                line: 1,
                instruction: instr,
                entries: Seq::empty(),
            },
        ],
{
    reveal_strlit(" <wk: ");
    reveal_strlit(" ");
    reveal_strlit(" />");
    assert(" <wk: "@ =~= seq![' ', '<', 'w', 'k', ':', ' ']);
    assert(" "@ =~= seq![' ']);
    assert(" />"@ =~= seq![' ', '/', '>']);
    assert(contents.len() > 0);
    assert(forall|j: int| 0 <= j < contents.len() ==> (#[trigger] contents[j]) != '\n') by {
        assert(forall|j: int| 0 <= j < spec_prefix(k).len() ==> (#[trigger] spec_prefix(k)[j])
            != '\n');
    }
    crate::text::lemma_split_no_sep(contents, '\n');
    let lines = spec_lines(contents);
    assert(contents[contents.len() - 1] == '>');
    assert(lines =~= seq![contents].map_values(|l: Seq<char>| crate::text::spec_strip_cr(l)));
    assert(contents[contents.len() - 1] != '\r');
    assert(crate::text::spec_strip_cr(contents) == contents);
    assert(lines =~= seq![contents]);
    lemma_single_line_tag(lines, spec_parent_dir(rel_path), 0, k, name, instr);
    assert(spec_markers_from(lines, spec_parent_dir(rel_path), 1) =~= Seq::<
        RawMarkerModel,
    >::empty());
    assert(spec_parsed(contents, rel_path) =~= seq![
        RawMarkerModel { name: name, line: 1, instruction: instr, entries: Seq::empty() },
    ]);
}

/// Parses one file's text and resolves every scope entry against the
/// repository root. Names, lines and instructions are exactly what the pure
/// parser yields; the files of each annotation come from glob expansion, so
/// only their shape is promised: nothing for an empty scope list, and at
/// least one path or pattern per written entry.
pub fn parse_markers(contents: &str, rel_path: &str, repo_root: &str) -> (r: Vec<Marker>)
    ensures
        r@.len() == spec_parsed(contents@, rel_path@).len(),
        forall|x: int|
            0 <= x < r@.len() ==> {
                &&& (#[trigger] r@[x])@.name == spec_parsed(contents@, rel_path@)[x].name
                &&& r@[x]@.rel_path == rel_path@
                &&& r@[x]@.line == spec_parsed(contents@, rel_path@)[x].line
                &&& r@[x]@.instruction == spec_parsed(contents@, rel_path@)[x].instruction
                &&& (spec_parsed(contents@, rel_path@)[x].entries.len() == 0 ==> r@[x]@.files.len()
                    == 0)
                &&& r@[x]@.files.len() >= spec_parsed(contents@, rel_path@)[x].entries.len()
                &&& scope::spec_resolution_of(
                    spec_parsed(contents@, rel_path@)[x].entries,
                    repo_root@,
                    r@[x]@.files,
                )
            },
{
    let raws = parse_marker_patterns(contents, rel_path);
    let ghost gs = spec_parsed(contents@, rel_path@);
    let mut out: Vec<Marker> = Vec::new();
    let mut x: usize = 0;
    while x < raws.len()
        invariant
            0 <= x <= raws@.len(),
            raws.deep_view() == gs,
            gs.len() == raws@.len(),
            out@.len() == x,
            forall|w: int|
                0 <= w < x ==> {
                    &&& (#[trigger] out@[w])@.name == gs[w].name
                    &&& out@[w]@.rel_path == rel_path@
                    &&& out@[w]@.line == gs[w].line
                    &&& out@[w]@.instruction == gs[w].instruction
                    &&& (gs[w].entries.len() == 0 ==> out@[w]@.files.len() == 0)
                    &&& out@[w]@.files.len() >= gs[w].entries.len()
                    &&& scope::spec_resolution_of(gs[w].entries, repo_root@, out@[w]@.files)
                },
        decreases raws@.len() - x,
    {
        proof {
            assert(gs[x as int] == raws@[x as int].deep_view());
        }
        let raw = &raws[x];
        let files = scope::resolve_patterns(&raw.entries, repo_root);
        let m = Marker {
            name: raw.name.clone(),
            rel_path: String::from_str(rel_path),
            line: raw.line,
            instruction: raw.instruction.clone(),
            files,
        };
        proof {
            assert(m@.name == gs[x as int].name);
            assert(m@.files.len() == m.files@.len());
        }
        out.push(m);
        x = x + 1;
    }
    out
}

} // verus!
