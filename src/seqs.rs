//! Facts about filtering sequences of index rows.
use vstd::prelude::*;
use crate::index::RowView;

verus! {

/// Newest first: creation times never increase along the sequence.
pub open spec fn newest_first(v: Seq<RowView>) -> bool {
    forall|i: int, j: int| 0 <= i < j < v.len() ==> v[i].1.created_at >= v[j].1.created_at
}

pub proof fn lemma_filter_members(v: Seq<RowView>, f: spec_fn(RowView) -> bool)
    ensures
        forall|i: int| 0 <= i < v.filter(f).len() ==> v.contains(#[trigger] v.filter(f)[i]),
        forall|i: int| 0 <= i < v.filter(f).len() ==> f(#[trigger] v.filter(f)[i]),
    decreases v.len(),
{
    reveal(Seq::filter);
    if v.len() > 0 {
        let w = v.drop_last();
        lemma_filter_members(w, f);
        let out = v.filter(f);
        assert forall|i: int| 0 <= i < out.len() implies v.contains(#[trigger] out[i]) && f(out[i]) by {
            if i < w.filter(f).len() {
                assert(out[i] == w.filter(f)[i]);
                let j = choose|j: int| 0 <= j < w.len() && w[j] == out[i];
                assert(v[j] == out[i]);
            } else {
                assert(out[i] == v[v.len() - 1]);
            }
        }
    }
}

pub proof fn lemma_filter_newest_first(v: Seq<RowView>, f: spec_fn(RowView) -> bool)
    requires
        newest_first(v),
    ensures
        newest_first(v.filter(f)),
    decreases v.len(),
{
    reveal(Seq::filter);
    if v.len() > 0 {
        let w = v.drop_last();
        lemma_filter_newest_first(w, f);
        lemma_filter_members(w, f);
        let out = v.filter(f);
        let sub = w.filter(f);
        if f(v.last()) {
            assert forall|i: int, j: int| 0 <= i < j < out.len() implies out[i].1.created_at
                >= out[j].1.created_at by {
                if j == out.len() - 1 {
                    assert(out[i] == sub[i]);
                    assert(w.contains(sub[i]));
                    let m = choose|m: int| 0 <= m < w.len() && w[m] == sub[i];
                    assert(v[m] == w[m]);
                } else {
                    assert(out[i] == sub[i]);
                    assert(out[j] == sub[j]);
                }
            }
        }
    }
}

pub proof fn lemma_filter_no_duplicates(v: Seq<RowView>, f: spec_fn(RowView) -> bool)
    requires
        v.no_duplicates(),
    ensures
        v.filter(f).no_duplicates(),
    decreases v.len(),
{
    reveal(Seq::filter);
    if v.len() > 0 {
        let w = v.drop_last();
        assert(w.no_duplicates()) by {
            assert forall|i: int, j: int| 0 <= i < w.len() && 0 <= j < w.len() && i != j implies w[i] != w[j] by {
                assert(w[i] == v[i] && w[j] == v[j]);
            }
        }
        lemma_filter_no_duplicates(w, f);
        lemma_filter_members(w, f);
        let out = v.filter(f);
        let sub = w.filter(f);
        if f(v.last()) {
            assert forall|i: int, j: int| 0 <= i < out.len() && 0 <= j < out.len() && i != j
                implies out[i] != out[j] by {
                if i == out.len() - 1 || j == out.len() - 1 {
                    let k = if i == out.len() - 1 { j } else { i };
                    assert(out[k] == sub[k]);
                    assert(w.contains(sub[k]));
                    let m = choose|m: int| 0 <= m < w.len() && w[m] == sub[k];
                    assert(v[m] == w[m]);
                } else {
                    assert(out[i] == sub[i]);
                    assert(out[j] == sub[j]);
                }
            }
        }
    }
}

/// Filtering by a predicate that holds of every element changes nothing.
pub proof fn lemma_filter_all(v: Seq<RowView>, f: spec_fn(RowView) -> bool)
    requires
        forall|i: int| 0 <= i < v.len() ==> f(#[trigger] v[i]),
    ensures
        v.filter(f) == v,
    decreases v.len(),
{
    reveal(Seq::filter);
    if v.len() > 0 {
        lemma_filter_all(v.drop_last(), f);
        assert(v.drop_last().push(v.last()) =~= v);
    }
}

/// One element that fails the predicate makes the filtered sequence shorter.
pub proof fn lemma_filter_shorter(v: Seq<RowView>, f: spec_fn(RowView) -> bool, i: int)
    requires
        0 <= i < v.len(),
        !f(v[i]),
    ensures
        v.filter(f).len() < v.len(),
    decreases v.len(),
{
    reveal(Seq::filter);
    v.drop_last().lemma_filter_len(f);
    if i < v.len() - 1 {
        lemma_filter_shorter(v.drop_last(), f, i);
    }
}

/// Filtering by a disjoint union adds up the two filtered lengths.
pub proof fn lemma_filter_union_len(
    v: Seq<RowView>,
    a: spec_fn(RowView) -> bool,
    b: spec_fn(RowView) -> bool,
    c: spec_fn(RowView) -> bool,
)
    requires
        forall|r: RowView| !(#[trigger] a(r) && b(r)),
        forall|r: RowView| #[trigger] c(r) == (a(r) || b(r)),
    ensures
        v.filter(c).len() == v.filter(a).len() + v.filter(b).len(),
    decreases v.len(),
{
    reveal(Seq::filter);
    if v.len() > 0 {
        lemma_filter_union_len(v.drop_last(), a, b, c);
        assert(c(v.last()) == (a(v.last()) || b(v.last())));
    }
}

pub proof fn lemma_filter_step_any<A>(v: Seq<A>, f: spec_fn(A) -> bool, i: int)
    requires
        0 <= i < v.len(),
    ensures
        v.take(i + 1).filter(f) == if f(v[i]) {
            v.take(i).filter(f).push(v[i])
        } else {
            v.take(i).filter(f)
        },
{
    reveal(Seq::filter);
    assert(v.take(i + 1).drop_last() =~= v.take(i));
}

pub proof fn lemma_filter_members_any<A>(v: Seq<A>, f: spec_fn(A) -> bool)
    ensures
        forall|i: int| 0 <= i < v.filter(f).len() ==> f(#[trigger] v.filter(f)[i]),
    decreases v.len(),
{
    reveal(Seq::filter);
    if v.len() > 0 {
        let w = v.drop_last();
        lemma_filter_members_any(w, f);
        let out = v.filter(f);
        assert forall|i: int| 0 <= i < out.len() implies f(#[trigger] out[i]) by {
            if i < w.filter(f).len() {
                assert(out[i] == w.filter(f)[i]);
            }
        }
    }
}

} // verus!
