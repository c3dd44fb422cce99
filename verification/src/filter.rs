//! The relevance filter: an annotation is kept when it declares no file
//! scope at all, or when some scope entry names a file changed in the
//! current diff.
use vstd::prelude::*;

use crate::marker::Marker;
use crate::text;

verus! {

/// An annotation with scope `files` is relevant to the change set `changed`:
/// either the scope is empty (always relevant) or some entry equals some
/// changed path.
pub open spec fn spec_relevant(files: Seq<Seq<char>>, changed: Seq<Seq<char>>) -> bool {
    files.len() == 0 || exists|i: int, j: int|
        0 <= i < files.len() && 0 <= j < changed.len() && files[i] == changed[j]
}

pub fn is_relevant(m: &Marker, changed: &Vec<String>) -> (r: bool)
    ensures
        r == spec_relevant(m@.files, changed.deep_view()),
{
    let ghost fv = m@.files;
    let ghost cv = changed.deep_view();
    if m.files.len() == 0 {
        return true;
    }
    let mut i: usize = 0;
    while i < m.files.len()
        invariant
            0 <= i <= m.files@.len(),
            fv == m@.files,
            cv == changed.deep_view(),
            fv.len() == m.files@.len(),
            cv.len() == changed@.len(),
            forall|a: int, b: int|
                0 <= a < i && 0 <= b < cv.len() ==> fv[a] != cv[b],
        decreases m.files@.len() - i,
    {
        let mut j: usize = 0;
        while j < changed.len()
            invariant
                0 <= i < m.files@.len(),
                0 <= j <= changed@.len(),
                fv == m@.files,
                cv == changed.deep_view(),
                fv.len() == m.files@.len(),
                cv.len() == changed@.len(),
                forall|b: int| 0 <= b < j ==> fv[i as int] != cv[b],
            decreases changed@.len() - j,
        {
            proof {
                assert(fv[i as int] == m.files@[i as int]@);
                assert(cv[j as int] == changed@[j as int]@);
            }
            if text::str_eq(m.files[i].as_str(), changed[j].as_str()) {
                return true;
            }
            j = j + 1;
        }
        i = i + 1;
    }
    false
}

/// The relevant annotations of `ms`, in their original order.
pub open spec fn spec_filter_markers(ms: Seq<Marker>, changed: Seq<Seq<char>>) -> Seq<Marker>
    decreases ms.len(),
{
    if ms.len() == 0 {
        Seq::empty()
    } else {
        let pre = spec_filter_markers(ms.drop_last(), changed);
        if spec_relevant(ms.last()@.files, changed) {
            pre.push(ms.last())
        } else {
            pre
        }
    }
}

/// Keeps the annotations whose scope is empty or intersects the change set.
pub fn filter_relevant(markers: Vec<Marker>, changed: &Vec<String>) -> (r: Vec<Marker>)
    ensures
        r@ == spec_filter_markers(markers@, changed.deep_view()),
{
    let ghost orig = markers@;
    let ghost cv = changed.deep_view();
    let n_total: usize = markers.len();
    let mut rest = markers;
    let mut out: Vec<Marker> = Vec::new();
    proof {
        assert(orig.take(0) =~= Seq::<Marker>::empty());
        assert(spec_filter_markers(orig.take(0), cv) =~= Seq::<Marker>::empty());
    }
    let mut k: usize = 0;
    while rest.len() > 0
        invariant
            0 <= k <= orig.len(),
            cv == changed.deep_view(),
            orig.len() == n_total,
            rest@ =~= orig.subrange(k as int, orig.len() as int),
            rest@.len() == orig.len() - k,
            out@ == spec_filter_markers(orig.take(k as int), cv),
        decreases rest@.len(),
    {
        let m = rest.remove(0);
        proof {
            assert(m == orig[k as int]);
            assert(rest@ =~= orig.subrange(k + 1, orig.len() as int));
            assert(orig.take(k + 1).drop_last() =~= orig.take(k as int));
            assert(orig.take(k + 1).last() == orig[k as int]);
        }
        if is_relevant(&m, changed) {
            out.push(m);
        }
        k = k + 1;
    }
    proof {
        assert(orig.take(orig.len() as int) =~= orig);
    }
    out
}

/// Retention law: the filter keeps exactly the relevant annotations: every
/// annotation with empty scope is kept whatever the change set, an
/// annotation with nonempty scope is kept exactly when its scope intersects
/// the change set, and everything kept comes from the input.
pub proof fn lemma_filter_relevant(ms: Seq<Marker>, changed: Seq<Seq<char>>)
    ensures
        forall|i: int|
            0 <= i < ms.len() && spec_relevant((#[trigger] ms[i])@.files, changed)
                ==> spec_filter_markers(ms, changed).contains(ms[i]),
        forall|j: int|
            0 <= j < spec_filter_markers(ms, changed).len() ==> spec_relevant(
                (#[trigger] spec_filter_markers(ms, changed)[j])@.files,
                changed,
            ) && ms.contains(spec_filter_markers(ms, changed)[j]),
        spec_filter_markers(ms, changed).len() <= ms.len(),
    decreases ms.len(),
{
    if ms.len() > 0 {
        let pre = spec_filter_markers(ms.drop_last(), changed);
        lemma_filter_relevant(ms.drop_last(), changed);
        assert forall|i: int|
            0 <= i < ms.len() && spec_relevant((#[trigger] ms[i])@.files, changed) implies
            spec_filter_markers(ms, changed).contains(ms[i]) by {
            if i < ms.len() - 1 {
                assert(ms.drop_last()[i] == ms[i]);
                assert(pre.contains(ms[i]));
                let w = choose|w: int| 0 <= w < pre.len() && pre[w] == ms[i];
                assert(spec_filter_markers(ms, changed)[w] == ms[i]);
            } else {
                assert(ms.last() == ms[i]);
                let fs = spec_filter_markers(ms, changed);
                assert(fs[fs.len() - 1] == ms[i]);
            }
        }
        assert forall|j: int|
            0 <= j < spec_filter_markers(ms, changed).len() implies spec_relevant(
            (#[trigger] spec_filter_markers(ms, changed)[j])@.files,
            changed,
        ) && ms.contains(spec_filter_markers(ms, changed)[j]) by {
            let fs = spec_filter_markers(ms, changed);
            if j < pre.len() {
                assert(fs[j] == pre[j]);
                assert(ms.drop_last().contains(pre[j]));
                let w = choose|w: int| 0 <= w < ms.drop_last().len() && ms.drop_last()[w] == pre[j];
                assert(ms[w] == pre[j]);
            } else {
                assert(fs[j] == ms.last());
                assert(ms[ms.len() - 1] == ms.last());
            }
        }
    }
}

} // verus!
