//! Verified utilities over `&str` and its `Seq<char>` view: trimming,
//! prefix/suffix tests, substring search and splitting. The parser and the
//! report builder are specified in terms of the spec functions defined here.
use vstd::prelude::*;

verus! {

/// The whitespace characters this library trims: the Unicode `White_Space`
/// set, the one `char::is_whitespace` and `str::trim_start` recognize.
pub open spec fn is_space(c: char) -> bool {
    c == ' ' || c == '\t' || c == '\n' || c == '\u{000b}' || c == '\u{000c}' || c == '\r' || c
        == '\u{0085}' || c == '\u{00a0}' || c == '\u{1680}' || c == '\u{2000}' || c == '\u{2001}'
        || c == '\u{2002}' || c == '\u{2003}' || c == '\u{2004}' || c == '\u{2005}' || c
        == '\u{2006}' || c == '\u{2007}' || c == '\u{2008}' || c == '\u{2009}' || c == '\u{200a}'
        || c == '\u{2028}' || c == '\u{2029}' || c == '\u{202f}' || c == '\u{205f}' || c
        == '\u{3000}'
}

pub fn is_space_exec(c: char) -> (r: bool)
    ensures
        r == is_space(c),
{
    c == ' ' || c == '\t' || c == '\n' || c == '\u{000b}' || c == '\u{000c}' || c == '\r' || c
        == '\u{0085}' || c == '\u{00a0}' || c == '\u{1680}' || c == '\u{2000}' || c == '\u{2001}'
        || c == '\u{2002}' || c == '\u{2003}' || c == '\u{2004}' || c == '\u{2005}' || c
        == '\u{2006}' || c == '\u{2007}' || c == '\u{2008}' || c == '\u{2009}' || c == '\u{200a}'
        || c == '\u{2028}' || c == '\u{2029}' || c == '\u{202f}' || c == '\u{205f}' || c
        == '\u{3000}'
}

/// Index of the first character that is not whitespace (the length if all are).
pub open spec fn first_non_space(s: Seq<char>) -> int
    decreases s.len(),
{
    if s.len() > 0 && is_space(s[0]) {
        1 + first_non_space(s.subrange(1, s.len() as int))
    } else {
        0
    }
}

pub proof fn lemma_first_non_space_at(s: Seq<char>, i: int)
    requires
        0 <= i <= s.len(),
        forall|j: int| 0 <= j < i ==> is_space(s[j]),
        i == s.len() || !is_space(s[i]),
    ensures
        first_non_space(s) == i,
    decreases s.len(),
{
    if s.len() > 0 && is_space(s[0]) {
        let t = s.subrange(1, s.len() as int);
        assert(forall|j: int| 0 <= j < i - 1 ==> is_space(t[j]));
        lemma_first_non_space_at(t, i - 1);
    }
}

pub open spec fn spec_trim_start(s: Seq<char>) -> Seq<char> {
    s.subrange(first_non_space(s), s.len() as int)
}

/// Index just past the last character that is not whitespace (0 if all are).
pub open spec fn last_non_space(s: Seq<char>) -> int
    decreases s.len(),
{
    if s.len() > 0 && is_space(s[s.len() - 1]) {
        last_non_space(s.take(s.len() - 1))
    } else {
        s.len() as int
    }
}

pub proof fn lemma_last_non_space_at(s: Seq<char>, i: int)
    requires
        0 <= i <= s.len(),
        forall|j: int| i <= j < s.len() ==> is_space(s[j]),
        i == 0 || !is_space(s[i - 1]),
    ensures
        last_non_space(s) == i,
    decreases s.len(),
{
    if s.len() > 0 && is_space(s[s.len() - 1]) {
        let t = s.take(s.len() - 1);
        assert(forall|j: int| i <= j < t.len() ==> t[j] == s[j] && is_space(s[j]));
        lemma_last_non_space_at(t, i);
    }
}

pub open spec fn spec_trim_end(s: Seq<char>) -> Seq<char> {
    s.take(last_non_space(s))
}

pub open spec fn spec_trim(s: Seq<char>) -> Seq<char> {
    spec_trim_end(spec_trim_start(s))
}

pub fn trim_start(s: &str) -> (r: &str)
    ensures
        r@ == spec_trim_start(s@),
{
    let n: usize = s.unicode_len();
    let mut i: usize = 0;
    while i < n && is_space_exec(s.get_char(i))
        invariant
            0 <= i <= n,
            n == s@.len(),
            forall|j: int| 0 <= j < i ==> is_space(s@[j]),
        decreases n - i,
    {
        i = i + 1;
    }
    proof {
        lemma_first_non_space_at(s@, i as int);
    }
    s.substring_char(i, n)
}

pub fn trim_end(s: &str) -> (r: &str)
    ensures
        r@ == spec_trim_end(s@),
{
    let n: usize = s.unicode_len();
    let mut i: usize = n;
    while i > 0 && is_space_exec(s.get_char(i - 1))
        invariant
            0 <= i <= n,
            n == s@.len(),
            forall|j: int| i <= j < n ==> is_space(s@[j]),
        decreases i,
    {
        i = i - 1;
    }
    proof {
        lemma_last_non_space_at(s@, i as int);
    }
    s.substring_char(0, i)
}

pub fn trim(s: &str) -> (r: &str)
    ensures
        r@ == spec_trim(s@),
{
    trim_end(trim_start(s))
}

pub open spec fn spec_starts_with(s: Seq<char>, p: Seq<char>) -> bool {
    p.len() <= s.len() && s.subrange(0, p.len() as int) == p
}

pub fn starts_with(s: &str, p: &str) -> (r: bool)
    ensures
        r == spec_starts_with(s@, p@),
{
    let n: usize = s.unicode_len();
    let m: usize = p.unicode_len();
    if m > n {
        return false;
    }
    let mut i: usize = 0;
    while i < m
        invariant
            0 <= i <= m <= n,
            n == s@.len(),
            m == p@.len(),
            forall|j: int| 0 <= j < i ==> s@[j] == p@[j],
        decreases m - i,
    {
        if s.get_char(i) != p.get_char(i) {
            assert(s@.subrange(0, m as int)[i as int] != p@[i as int]);
            return false;
        }
        i = i + 1;
    }
    assert(s@.subrange(0, m as int) =~= p@);
    true
}

pub open spec fn spec_ends_with(s: Seq<char>, p: Seq<char>) -> bool {
    p.len() <= s.len() && s.subrange(s.len() - p.len(), s.len() as int) == p
}

pub fn ends_with(s: &str, p: &str) -> (r: bool)
    ensures
        r == spec_ends_with(s@, p@),
{
    let n: usize = s.unicode_len();
    let m: usize = p.unicode_len();
    if m > n {
        return false;
    }
    let mut i: usize = 0;
    while i < m
        invariant
            0 <= i <= m <= n,
            n == s@.len(),
            m == p@.len(),
            forall|j: int| 0 <= j < i ==> s@[n - m + j] == p@[j],
        decreases m - i,
    {
        if s.get_char(n - m + i) != p.get_char(i) {
            assert(s@.subrange(n - m, n as int)[i as int] != p@[i as int]);
            return false;
        }
        i = i + 1;
    }
    assert(s@.subrange(n - m, n as int) =~= p@);
    true
}

/// The pattern `p` occurs in `s` at position `i`.
pub open spec fn occurs_at(s: Seq<char>, p: Seq<char>, i: int) -> bool {
    0 <= i && i + p.len() <= s.len() && s.subrange(i, i + p.len()) == p
}

pub open spec fn spec_contains(s: Seq<char>, p: Seq<char>) -> bool {
    exists|i: int| occurs_at(s, p, i)
}

pub fn contains_sub(s: &str, p: &str) -> (r: bool)
    ensures
        r == spec_contains(s@, p@),
{
    let n: usize = s.unicode_len();
    let m: usize = p.unicode_len();
    if m > n {
        assert(forall|i: int| !occurs_at(s@, p@, i));
        return false;
    }
    if m == 0 {
        assert(s@.subrange(0, 0) =~= p@);
        assert(occurs_at(s@, p@, 0));
        return true;
    }
    let mut i: usize = 0;
    while i <= n - m
        invariant
            0 <= i <= n - m + 1,
            1 <= m <= n,
            n == s@.len(),
            m == p@.len(),
            forall|k: int| 0 <= k < i ==> !occurs_at(s@, p@, k),
        decreases n - i,
    {
        let piece = s.substring_char(i, i + m);
        if str_eq(piece, p) {
            assert(occurs_at(s@, p@, i as int));
            return true;
        }
        assert(!occurs_at(s@, p@, i as int));
        i = i + 1;
    }
    assert(forall|k: int| 0 <= k && k + p@.len() <= s@.len() ==> !occurs_at(s@, p@, k));
    false
}

/// Position of the first occurrence of the pattern `p`, if any.
pub open spec fn spec_find_sub(s: Seq<char>, p: Seq<char>) -> Option<int>
    decreases s.len(),
{
    if occurs_at(s, p, 0) {
        Some(0)
    } else if s.len() == 0 {
        None
    } else {
        match spec_find_sub(s.subrange(1, s.len() as int), p) {
            Some(i) => Some(i + 1),
            None => None,
        }
    }
}

pub proof fn lemma_find_sub_props(s: Seq<char>, p: Seq<char>)
    ensures
        spec_find_sub(s, p) matches Some(i) ==> occurs_at(s, p, i) && forall|k: int|
            0 <= k < i ==> !occurs_at(s, p, k),
        spec_find_sub(s, p) is None ==> !spec_contains(s, p),
    decreases s.len(),
{
    if !occurs_at(s, p, 0) && s.len() > 0 {
        let t = s.subrange(1, s.len() as int);
        lemma_find_sub_props(t, p);
        match spec_find_sub(t, p) {
            Some(i) => {
                assert(t.subrange(i, i + p.len() as int) =~= s.subrange(
                    i + 1,
                    i + 1 + p.len() as int,
                ));
                assert(occurs_at(s, p, i + 1));
                assert forall|k: int| 0 <= k < i + 1 implies !occurs_at(s, p, k) by {
                    if k >= 1 && occurs_at(s, p, k) {
                        assert(t.subrange(k - 1, k - 1 + p.len() as int) =~= s.subrange(
                            k,
                            k + p.len() as int,
                        ));
                        assert(occurs_at(t, p, k - 1));
                    }
                }
            },
            None => {
                assert(forall|k: int| !occurs_at(t, p, k));
                assert forall|k: int| !occurs_at(s, p, k) by {
                    if k >= 1 && occurs_at(s, p, k) {
                        assert(t.subrange(k - 1, k - 1 + p.len() as int) =~= s.subrange(
                            k,
                            k + p.len() as int,
                        ));
                        assert(occurs_at(t, p, k - 1));
                    }
                }
            },
        }
    }
}

pub proof fn lemma_find_sub_at(s: Seq<char>, p: Seq<char>, i: int)
    requires
        occurs_at(s, p, i),
        forall|k: int| 0 <= k < i ==> !occurs_at(s, p, k),
    ensures
        spec_find_sub(s, p) == Some(i),
    decreases s.len(),
{
    if i > 0 {
        assert(s.len() > 0);
        let t = s.subrange(1, s.len() as int);
        assert(t.subrange(i - 1, i - 1 + p.len() as int) =~= s.subrange(i, i + p.len() as int));
        assert(occurs_at(t, p, i - 1));
        assert forall|k: int| 0 <= k < i - 1 implies !occurs_at(t, p, k) by {
            if occurs_at(t, p, k) {
                assert(s.subrange(k + 1, k + 1 + p.len() as int) =~= t.subrange(
                    k,
                    k + p.len() as int,
                ));
                assert(occurs_at(s, p, k + 1));
            }
        }
        lemma_find_sub_at(t, p, i - 1);
    }
}

/// Finds the first occurrence of the pattern `p`.
pub fn find_sub(s: &str, p: &str) -> (r: Option<usize>)
    ensures
        match r {
            Some(i) => spec_find_sub(s@, p@) == Some(i as int),
            None => spec_find_sub(s@, p@) is None,
        },
{
    let n: usize = s.unicode_len();
    let m: usize = p.unicode_len();
    if m > n {
        proof {
            assert(forall|i: int| !occurs_at(s@, p@, i));
            lemma_find_sub_props(s@, p@);
            match spec_find_sub(s@, p@) {
                Some(w) => {
                    assert(occurs_at(s@, p@, w));
                },
                None => {},
            }
        }
        return None;
    }
    if m == 0 {
        proof {
            assert(s@.subrange(0, 0) =~= p@);
            assert(occurs_at(s@, p@, 0));
            lemma_find_sub_at(s@, p@, 0);
        }
        return Some(0);
    }
    let mut i: usize = 0;
    while i <= n - m
        invariant
            0 <= i <= n - m + 1,
            1 <= m <= n,
            n == s@.len(),
            m == p@.len(),
            forall|k: int| 0 <= k < i ==> !occurs_at(s@, p@, k),
        decreases n - i,
    {
        let piece = s.substring_char(i, i + m);
        if str_eq(piece, p) {
            proof {
                assert(occurs_at(s@, p@, i as int));
                lemma_find_sub_at(s@, p@, i as int);
            }
            return Some(i);
        }
        assert(!occurs_at(s@, p@, i as int));
        i = i + 1;
    }
    proof {
        assert(forall|k: int| !occurs_at(s@, p@, k));
        lemma_find_sub_props(s@, p@);
        match spec_find_sub(s@, p@) {
            Some(w) => {
                assert(occurs_at(s@, p@, w));
            },
            None => {},
        }
    }
    None
}

pub fn str_eq(a: &str, b: &str) -> (r: bool)
    ensures
        r == (a@ == b@),
{
    let n: usize = a.unicode_len();
    let m: usize = b.unicode_len();
    if n != m {
        return false;
    }
    let mut i: usize = 0;
    while i < n
        invariant
            0 <= i <= n,
            n == a@.len(),
            n == b@.len(),
            forall|j: int| 0 <= j < i ==> a@[j] == b@[j],
        decreases n - i,
    {
        if a.get_char(i) != b.get_char(i) {
            return false;
        }
        i = i + 1;
    }
    assert(a@ =~= b@);
    true
}

/// Position of the first occurrence of character `c`, if any.
pub open spec fn spec_find_char(s: Seq<char>, c: char) -> Option<int>
    decreases s.len(),
{
    if s.len() == 0 {
        None
    } else if s[0] == c {
        Some(0)
    } else {
        match spec_find_char(s.subrange(1, s.len() as int), c) {
            Some(i) => Some(i + 1),
            None => None,
        }
    }
}

pub proof fn lemma_find_char_at(s: Seq<char>, c: char, i: int)
    requires
        0 <= i <= s.len(),
        forall|j: int| 0 <= j < i ==> s[j] != c,
        i == s.len() || s[i] == c,
    ensures
        i < s.len() ==> spec_find_char(s, c) == Some(i),
        i == s.len() ==> spec_find_char(s, c) is None,
    decreases s.len(),
{
    if s.len() > 0 && s[0] != c {
        let t = s.subrange(1, s.len() as int);
        assert(forall|j: int| 0 <= j < i - 1 ==> t[j] != c);
        lemma_find_char_at(t, c, if i == 0 { 0 } else { i - 1 });
    }
}

pub proof fn lemma_find_char_some_bounds(s: Seq<char>, c: char)
    ensures
        spec_find_char(s, c) matches Some(p) ==> 0 <= p < s.len(),
    decreases s.len(),
{
    if s.len() > 0 && s[0] != c {
        lemma_find_char_some_bounds(s.subrange(1, s.len() as int), c);
    }
}

pub fn find_char(s: &str, c: char) -> (r: Option<usize>)
    ensures
        match r {
            Some(i) => spec_find_char(s@, c) == Some(i as int) && 0 <= i < s@.len() && s@[i as int]
                == c,
            None => spec_find_char(s@, c) is None,
        },
{
    let n: usize = s.unicode_len();
    let mut i: usize = 0;
    while i < n
        invariant
            0 <= i <= n,
            n == s@.len(),
            forall|j: int| 0 <= j < i ==> s@[j] != c,
        decreases n - i,
    {
        if s.get_char(i) == c {
            proof {
                lemma_find_char_at(s@, c, i as int);
            }
            return Some(i);
        }
        i = i + 1;
    }
    proof {
        lemma_find_char_at(s@, c, n as int);
    }
    None
}

/// Pieces of `s` between occurrences of the separator `c`; always nonempty.
pub open spec fn spec_split(s: Seq<char>, c: char) -> Seq<Seq<char>>
    decreases s.len(),
    via spec_split_decreases
{
    match spec_find_char(s, c) {
        None => seq![s],
        Some(p) => seq![s.subrange(0, p)] + spec_split(s.subrange(p + 1, s.len() as int), c),
    }
}

#[via_fn]
proof fn spec_split_decreases(s: Seq<char>, c: char) {
    lemma_find_char_some_bounds(s, c);
}

pub proof fn lemma_split_len(s: Seq<char>, c: char)
    ensures
        spec_split(s, c).len() >= 1,
{
    match spec_find_char(s, c) {
        None => {}
        Some(p) => {}
    }
}

/// Splitting a text whose first separator sits at `p`.
pub proof fn lemma_split_at_sep(s: Seq<char>, c: char, p: int)
    requires
        0 <= p < s.len(),
        s[p] == c,
        forall|j: int| 0 <= j < p ==> s[j] != c,
    ensures
        spec_split(s, c) == seq![s.subrange(0, p)] + spec_split(
            s.subrange(p + 1, s.len() as int),
            c,
        ),
{
    lemma_find_char_at(s, c, p);
}

pub proof fn lemma_split_no_sep(s: Seq<char>, c: char)
    requires
        forall|j: int| 0 <= j < s.len() ==> s[j] != c,
    ensures
        spec_split(s, c) == seq![s],
{
    lemma_find_char_at(s, c, s.len() as int);
}

pub fn split_char<'a>(s: &'a str, c: char) -> (r: Vec<&'a str>)
    ensures
        r.deep_view() == spec_split(s@, c),
{
    let n: usize = s.unicode_len();
    let mut r: Vec<&'a str> = Vec::new();
    let mut start: usize = 0;
    let mut i: usize = 0;
    proof {
        assert(s@.subrange(0, n as int) =~= s@);
        assert(r.deep_view() =~= Seq::<Seq<char>>::empty());
        assert(r.deep_view() + spec_split(s@, c) =~= spec_split(s@, c));
    }
    while i < n
        invariant
            0 <= start <= i <= n,
            n == s@.len(),
            forall|j: int| start <= j < i ==> s@[j] != c,
            spec_split(s@, c) == r.deep_view() + spec_split(s@.subrange(start as int, n as int), c),
        decreases n - i,
    {
        if s.get_char(i) == c {
            let piece = s.substring_char(start, i);
            proof {
                let tail = s@.subrange(start as int, n as int);
                assert(tail[i - start] == c);
                assert(forall|j: int| 0 <= j < i - start ==> tail[j] != c);
                lemma_split_at_sep(tail, c, i - start);
                assert(tail.subrange(0, i - start) =~= s@.subrange(start as int, i as int));
                assert(tail.subrange(i - start + 1, tail.len() as int) =~= s@.subrange(
                    i + 1,
                    n as int,
                ));
            }
            let ghost prev = r.deep_view();
            r.push(piece);
            proof {
                assert(r.deep_view() =~= prev.push(piece@));
            }
            start = i + 1;
        }
        i = i + 1;
    }
    let last = s.substring_char(start, n);
    proof {
        let tail = s@.subrange(start as int, n as int);
        lemma_split_no_sep(tail, c);
    }
    r.push(last);
    r
}

/// A line with a trailing carriage return removed.
pub open spec fn spec_strip_cr(l: Seq<char>) -> Seq<char> {
    if l.len() > 0 && l[l.len() - 1] == '\r' {
        l.take(l.len() - 1)
    } else {
        l
    }
}

/// The lines of a text: pieces between newlines, without a final empty piece
/// after a terminating newline, each with a trailing carriage return removed.
pub open spec fn spec_lines(s: Seq<char>) -> Seq<Seq<char>> {
    if s.len() == 0 {
        Seq::empty()
    } else {
        let parts = spec_split(s, '\n');
        let kept = if s[s.len() - 1] == '\n' {
            parts.drop_last()
        } else {
            parts
        };
        kept.map_values(|l: Seq<char>| spec_strip_cr(l))
    }
}

pub fn split_lines<'a>(s: &'a str) -> (r: Vec<&'a str>)
    ensures
        r.deep_view() == spec_lines(s@),
{
    let n: usize = s.unicode_len();
    let mut out: Vec<&'a str> = Vec::new();
    if n == 0 {
        proof {
            assert(out.deep_view() =~= spec_lines(s@));
        }
        return out;
    }
    let mut parts = split_char(s, '\n');
    if s.get_char(n - 1) == '\n' {
        let ghost prev = parts.deep_view();
        proof {
            lemma_split_len(s@, '\n');
        }
        parts.pop();
        proof {
            assert(parts.deep_view() =~= prev.drop_last());
        }
    }
    let ghost kept = parts.deep_view();
    let mut k: usize = 0;
    while k < parts.len()
        invariant
            0 <= k <= parts@.len(),
            kept == parts.deep_view(),
            kept.len() == parts@.len(),
            out.deep_view() == kept.take(k as int).map_values(|l: Seq<char>| spec_strip_cr(l)),
        decreases parts@.len() - k,
    {
        let p = parts[k];
        proof {
            assert(kept[k as int] == p@);
        }
        let m: usize = p.unicode_len();
        let ghost prev_out = out.deep_view();
        if m > 0 && p.get_char(m - 1) == '\r' {
            out.push(p.substring_char(0, m - 1));
        } else {
            out.push(p);
        }
        proof {
            assert(out.deep_view() =~= prev_out.push(spec_strip_cr(kept[k as int])));
            assert(kept.take(k + 1) =~= kept.take(k as int).push(kept[k as int]));
            assert(kept.take(k + 1).map_values(|l: Seq<char>| spec_strip_cr(l)) =~= kept.take(
                k as int,
            ).map_values(|l: Seq<char>| spec_strip_cr(l)).push(spec_strip_cr(kept[k as int])));
        }
        k = k + 1;
    }
    proof {
        assert(kept.take(kept.len() as int) =~= kept);
    }
    out
}

/// The decimal digit character for a value below ten.
pub open spec fn spec_digit(d: int) -> char {
    if d == 0 {
        '0'
    } else if d == 1 {
        '1'
    } else if d == 2 {
        '2'
    } else if d == 3 {
        '3'
    } else if d == 4 {
        '4'
    } else if d == 5 {
        '5'
    } else if d == 6 {
        '6'
    } else if d == 7 {
        '7'
    } else if d == 8 {
        '8'
    } else {
        '9'
    }
}

/// The decimal rendering of a number, most significant digit first.
pub open spec fn spec_dec(n: nat) -> Seq<char>
    decreases n,
{
    if n < 10 {
        seq![spec_digit(n as int)]
    } else {
        spec_dec(n / 10).push(spec_digit((n % 10) as int))
    }
}

fn digit_str(d: usize) -> (r: &'static str)
    requires
        d < 10,
    ensures
        r@ == seq![spec_digit(d as int)],
{
    if d == 0 {
        proof {
            reveal_strlit("0");
            assert("0"@ =~= seq![spec_digit(0)]);
        }
        "0"
    } else if d == 1 {
        proof {
            reveal_strlit("1");
            assert("1"@ =~= seq![spec_digit(1)]);
        }
        "1"
    } else if d == 2 {
        proof {
            reveal_strlit("2");
            assert("2"@ =~= seq![spec_digit(2)]);
        }
        "2"
    } else if d == 3 {
        proof {
            reveal_strlit("3");
            assert("3"@ =~= seq![spec_digit(3)]);
        }
        "3"
    } else if d == 4 {
        proof {
            reveal_strlit("4");
            assert("4"@ =~= seq![spec_digit(4)]);
        }
        "4"
    } else if d == 5 {
        proof {
            reveal_strlit("5");
            assert("5"@ =~= seq![spec_digit(5)]);
        }
        "5"
    } else if d == 6 {
        proof {
            reveal_strlit("6");
            assert("6"@ =~= seq![spec_digit(6)]);
        }
        "6"
    } else if d == 7 {
        proof {
            reveal_strlit("7");
            assert("7"@ =~= seq![spec_digit(7)]);
        }
        "7"
    } else if d == 8 {
        proof {
            reveal_strlit("8");
            assert("8"@ =~= seq![spec_digit(8)]);
        }
        "8"
    } else {
        proof {
            reveal_strlit("9");
            assert("9"@ =~= seq![spec_digit(9)]);
        }
        "9"
    }
}

/// Renders a number in decimal.
pub fn usize_to_string(n: usize) -> (r: String)
    ensures
        r@ == spec_dec(n as nat),
    decreases n,
{
    if n < 10 {
        String::from_str(digit_str(n))
    } else {
        let mut s = usize_to_string(n / 10);
        s.append(digit_str(n % 10));
        proof {
            assert(spec_dec((n / 10) as nat) + seq![spec_digit((n % 10) as int)] =~= spec_dec(
                (n / 10) as nat,
            ).push(spec_digit((n % 10) as int)));
            assert((n as nat) / 10 == (n / 10) as nat);
            assert((n as nat) % 10 == (n % 10) as nat);
        }
        s
    }
}

/// The pieces joined with the separator text `sep` between them.
pub open spec fn spec_join(ss: Seq<Seq<char>>, sep: Seq<char>) -> Seq<char>
    decreases ss.len(),
{
    if ss.len() == 0 {
        Seq::empty()
    } else if ss.len() == 1 {
        ss[0]
    } else {
        ss[0] + sep + spec_join(ss.subrange(1, ss.len() as int), sep)
    }
}

pub proof fn lemma_join_push(ss: Seq<Seq<char>>, sep: Seq<char>, x: Seq<char>)
    ensures
        spec_join(ss.push(x), sep) == if ss.len() == 0 {
            x
        } else {
            spec_join(ss, sep) + sep + x
        },
    decreases ss.len(),
{
    let p = ss.push(x);
    if ss.len() == 0 {
        assert(p.len() == 1);
        assert(spec_join(p, sep) == p[0]);
    } else if ss.len() == 1 {
        assert(p.len() == 2);
        assert(p.subrange(1, 2) =~= seq![x]);
        assert(spec_join(p.subrange(1, 2), sep) == x);
    } else {
        assert(p.subrange(1, p.len() as int) =~= ss.subrange(1, ss.len() as int).push(x));
        lemma_join_push(ss.subrange(1, ss.len() as int), sep, x);
        assert(spec_join(ss.subrange(1, ss.len() as int).push(x), sep) == spec_join(
            ss.subrange(1, ss.len() as int),
            sep,
        ) + sep + x);
    }
}

pub fn join_with(parts: &Vec<&str>, sep: &str) -> (r: String)
    ensures
        r@ == spec_join(parts.deep_view(), sep@),
{
    let mut out = String::new();
    let mut k: usize = 0;
    while k < parts.len()
        invariant
            0 <= k <= parts.deep_view().len(),
            parts.deep_view().len() == parts@.len(),
            out@ == spec_join(parts.deep_view().take(k as int), sep@),
        decreases parts@.len() - k,
    {
        proof {
            assert(parts.deep_view()[k as int] == parts@[k as int]@);
        }
        if k > 0 {
            out.append(sep);
        }
        out.append(parts[k]);
        proof {
            let dv = parts.deep_view();
            assert(dv.take(k + 1) =~= dv.take(k as int).push(dv[k as int]));
            lemma_join_push(dv.take(k as int), sep@, dv[k as int]);
        }
        k = k + 1;
    }
    proof {
        assert(parts.deep_view().take(parts.deep_view().len() as int) =~= parts.deep_view());
    }
    out
}

} // verus!
