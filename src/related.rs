//! Related posts: published posts other than the target, ranked by shared
//! tags and category, then padded with the newest unrelated ones.
use vstd::prelude::*;
use crate::index::{RowView, rows_view, row_view, lemma_filter_step, copy_row};
use crate::post::{BlogPost, PostView, opt_view, strings_view};
use crate::text::str_eq;
use crate::index::{contains_str, rows_wf};
use crate::seqs::{
    lemma_filter_members, lemma_filter_newest_first, lemma_filter_no_duplicates,
    lemma_filter_union_len, lemma_filter_all,
};

verus! {

/// A row can be offered: published, and not the target post itself.
pub open spec fn eligible(r: RowView, post_id: Seq<char>) -> bool {
    r.1.published && r.1.id != post_id
}

/// How many distinct tags of `target` also appear in `tags`.
pub open spec fn shared_tags(target: Seq<Seq<char>>, tags: Seq<Seq<char>>) -> nat
    decreases target.len(),
{
    if target.len() == 0 {
        0
    } else {
        let t = target.last();
        shared_tags(target.drop_last(), tags) + if tags.contains(t) && !target.drop_last().contains(
            t,
        ) {
            1nat
        } else {
            0nat
        }
    }
}

/// Two points per shared tag, one more when a given category matches.
pub open spec fn relevance(target: Seq<Seq<char>>, category: Option<Seq<char>>, p: PostView) -> nat {
    2 * shared_tags(target, p.tags) + if category.is_some() && p.category == category {
        1nat
    } else {
        0nat
    }
}

/// The highest score any post can reach.
pub open spec fn top_score(target: Seq<Seq<char>>) -> nat {
    2 * target.len() + 1
}

/// The eligible rows with exactly score `s`, newest first.
pub open spec fn at_score(
    v: Seq<RowView>,
    post_id: Seq<char>,
    target: Seq<Seq<char>>,
    category: Option<Seq<char>>,
    s: int,
) -> Seq<RowView> {
    v.filter(score_is(post_id, target, category, s))
}

pub open spec fn score_is(
    post_id: Seq<char>,
    target: Seq<Seq<char>>,
    category: Option<Seq<char>>,
    s: int,
) -> spec_fn(RowView) -> bool {
    |r: RowView| eligible(r, post_id) && relevance(target, category, r.1) == s
}

/// The eligible rows scoring above `s` (and at most `top`): highest score
/// first, newest first within one score.
pub open spec fn above(
    v: Seq<RowView>,
    post_id: Seq<char>,
    target: Seq<Seq<char>>,
    category: Option<Seq<char>>,
    top: int,
    s: int,
) -> Seq<RowView>
    decreases top - s,
{
    if s >= top {
        Seq::empty()
    } else {
        above(v, post_id, target, category, top, s + 1) + at_score(v, post_id, target, category, s + 1)
    }
}

/// Every eligible row in offer order: positive scores by rank, then the
/// zero-score rows by recency.
pub open spec fn ranked(
    v: Seq<RowView>,
    post_id: Seq<char>,
    target: Seq<Seq<char>>,
    category: Option<Seq<char>>,
) -> Seq<RowView> {
    above(v, post_id, target, category, top_score(target) as int, -1)
}

/// What a related-posts query returns: the first `limit` rows in offer order.
pub open spec fn related(
    v: Seq<RowView>,
    post_id: Seq<char>,
    target: Seq<Seq<char>>,
    category: Option<Seq<char>>,
    limit: nat,
) -> Seq<RowView> {
    let all = ranked(v, post_id, target, category);
    if all.len() <= limit { all } else { all.take(limit as int) }
}

fn count_shared(target: &Vec<String>, tags: &Vec<String>) -> (r: usize)
    ensures
        r == shared_tags(strings_view(target@), strings_view(tags@)),
        r <= target@.len(),
{
    let mut n: usize = 0;
    let mut j: usize = 0;
    while j < target.len()
        invariant
            j <= target.len(),
            n <= j,
            n == shared_tags(strings_view(target@.take(j as int)), strings_view(tags@)),
        decreases target.len() - j,
    {
        let t = target[j].as_str();
        let mut earlier = false;
        let mut k: usize = 0;
        while k < j
            invariant
                k <= j,
                j < target.len(),
                earlier == exists|m: int| 0 <= m < k && target@[m]@ == t@,
            decreases j - k,
        {
            if str_eq(target[k].as_str(), t) {
                earlier = true;
            }
            k += 1;
        }
        let here = contains_str(tags, t);
        proof {
            let tv = strings_view(target@.take(j + 1));
            assert(tv.drop_last() =~= strings_view(target@.take(j as int)));
            assert(tv.last() == t@);
            if earlier {
                let m = choose|m: int| 0 <= m < j && target@[m]@ == t@;
                assert(tv.drop_last()[m] == t@);
            }
            if tv.drop_last().contains(t@) {
                let m = choose|m: int| 0 <= m < tv.drop_last().len() && tv.drop_last()[m] == t@;
                assert(target@[m]@ == t@);
            }
        }
        if here && !earlier {
            n += 1;
        }
        j += 1;
    }
    assert(target@.take(target.len() as int) =~= target@);
    n
}

fn category_matches(category: &Option<String>, p: &BlogPost) -> (r: bool)
    ensures
        r == (opt_view(*category).is_some() && opt_view(p.category) == opt_view(*category)),
{
    match (category, &p.category) {
        (Some(c), Some(d)) => str_eq(c.as_str(), d.as_str()),
        _ => false,
    }
}

/// The relevance of one post to the target's tags and category.
pub fn relevance_of(p: &BlogPost, tags: &Vec<String>, category: &Option<String>) -> (r: u128)
    ensures
        r == relevance(strings_view(tags@), opt_view(*category), p@),
{
    let shared = count_shared(tags, &p.tags);
    let bonus: u128 = if category_matches(category, p) { 1 } else { 0 };
    2 * (shared as u128) + bonus
}

/// Related posts among `rows`: see [`related`].
pub fn select_related(
    rows: &Vec<(String, BlogPost)>,
    post_id: &str,
    tags: &Vec<String>,
    category: &Option<String>,
    limit: usize,
) -> (r: Vec<(String, BlogPost)>)
    ensures
        rows_view(r@) == related(rows_view(rows@), post_id@, strings_view(tags@), opt_view(*category), limit as nat),
{
    let ghost v = rows_view(rows@);
    let ghost target = strings_view(tags@);
    let ghost cat = opt_view(*category);
    let mut scores: Vec<u128> = Vec::new();
    let mut i: usize = 0;
    while i < rows.len()
        invariant
            i <= rows.len(),
            v == rows_view(rows@),
            target == strings_view(tags@),
            cat == opt_view(*category),
            scores@.len() == i,
            forall|k: int| 0 <= k < i ==> scores@[k] == relevance(target, cat, #[trigger] v[k].1),
        decreases rows.len() - i,
    {
        let sc = relevance_of(&rows[i].1, tags, category);
        scores.push(sc);
        i += 1;
    }
    let top: u128 = 2 * (tags.len() as u128) + 1;
    let mut all: Vec<(String, BlogPost)> = Vec::new();
    let mut s: u128 = top;
    loop
        invariant_except_break
            rows_view(all@) == above(v, post_id@, target, cat, top as int, s as int),
        invariant
            v == rows_view(rows@),
            target == strings_view(tags@),
            cat == opt_view(*category),
            top == top_score(target),
            s <= top,
            scores@.len() == rows@.len(),
            forall|k: int| 0 <= k < rows@.len() ==> scores@[k] == relevance(target, cat, #[trigger] v[k].1),
        ensures
            rows_view(all@) == above(v, post_id@, target, cat, top as int, -1),
        decreases s,
    {
        let ghost f = score_is(post_id@, target, cat, s as int);
        let ghost base = rows_view(all@);
        let mut i: usize = 0;
        while i < rows.len()
            invariant
                i <= rows.len(),
                v == rows_view(rows@),
                scores@.len() == rows@.len(),
                forall|k: int| 0 <= k < rows@.len() ==> scores@[k] == relevance(target, cat, #[trigger] v[k].1),
                f == score_is(post_id@, target, cat, s as int),
                rows_view(all@) == base + v.take(i as int).filter(f),
            decreases rows.len() - i,
        {
            proof {
                lemma_filter_step(v, f, i as int);
            }
            assert(v[i as int] == row_view(rows@[i as int]));
            if rows[i].1.published && !str_eq(rows[i].1.id.as_str(), post_id) && scores[i] == s {
                let c = copy_row(&rows[i]);
                let ghost prev = all@;
                all.push(c);
                assert(rows_view(all@) =~= rows_view(prev).push(row_view(c)));
                assert(f(v[i as int]));
                assert(rows_view(all@) =~= base + v.take(i as int).filter(f).push(v[i as int]));
            } else {
                assert(!f(v[i as int]));
            }
            i += 1;
        }
        proof {
            assert(v.take(rows.len() as int) =~= v);
            assert(above(v, post_id@, target, cat, top as int, s - 1) == base + at_score(v, post_id@, target, cat, s as int));
        }
        if s == 0 {
            break;
        }
        s = s - 1;
    }
    all.truncate(limit);
    proof {
        let a = above(v, post_id@, target, cat, top as int, -1);
        if a.len() > limit {
            assert(rows_view(all@) =~= a.take(limit as int));
        }
    }
    all
}

/// Offer order: a higher score first, and within one score the newer post first.
pub open spec fn offer_ordered(
    a: Seq<RowView>,
    target: Seq<Seq<char>>,
    category: Option<Seq<char>>,
) -> bool {
    forall|i: int, j: int|
        0 <= i < j < a.len() ==> #[trigger] offered_before(a[i], a[j], target, category)
}

/// `x` may come before `y`: a higher score, or the same score and not older.
pub open spec fn offered_before(
    x: RowView,
    y: RowView,
    target: Seq<Seq<char>>,
    category: Option<Seq<char>>,
) -> bool {
    let sx = relevance(target, category, x.1);
    let sy = relevance(target, category, y.1);
    sx > sy || (sx == sy && x.1.created_at >= y.1.created_at)
}

pub open spec fn scored_above(
    post_id: Seq<char>,
    target: Seq<Seq<char>>,
    category: Option<Seq<char>>,
    top: int,
    s: int,
) -> spec_fn(RowView) -> bool {
    |r: RowView|
        eligible(r, post_id) && s < relevance(target, category, r.1) && relevance(target, category, r.1)
            <= top
}

pub proof fn lemma_shared_tags_bound(target: Seq<Seq<char>>, tags: Seq<Seq<char>>)
    ensures
        shared_tags(target, tags) <= target.len(),
    decreases target.len(),
{
    if target.len() > 0 {
        lemma_shared_tags_bound(target.drop_last(), tags);
    }
}

proof fn lemma_above(
    v: Seq<RowView>,
    post_id: Seq<char>,
    target: Seq<Seq<char>>,
    category: Option<Seq<char>>,
    top: int,
    s: int,
)
    requires
        rows_wf(v),
        -1 <= s <= top,
    ensures
        above(v, post_id, target, category, top, s).len() == v.filter(
            scored_above(post_id, target, category, top, s),
        ).len(),
        forall|i: int|
            0 <= i < above(v, post_id, target, category, top, s).len() ==> {
                let x = #[trigger] above(v, post_id, target, category, top, s)[i];
                &&& v.contains(x)
                &&& scored_above(post_id, target, category, top, s)(x)
            },
        offer_ordered(above(v, post_id, target, category, top, s), target, category),
        above(v, post_id, target, category, top, s).no_duplicates(),
    decreases top - s,
{
    let a = above(v, post_id, target, category, top, s);
    if s >= top {
        let g = scored_above(post_id, target, category, top, s);
        let none = |r: RowView| false;
        assert forall|r: RowView| #[trigger] g(r) == (none(r) || none(r)) by {}
        lemma_filter_union_len(v, none, none, g);
        lemma_filter_all(Seq::<RowView>::empty(), none);
        reveal(Seq::filter);
        assert(v.filter(none).len() == 0) by {
            lemma_filter_members(v, none);
            if v.filter(none).len() > 0 {
                assert(none(v.filter(none)[0]));
            }
        }
    } else {
        lemma_above(v, post_id, target, category, top, s + 1);
        let hi = above(v, post_id, target, category, top, s + 1);
        let h = score_is(post_id, target, category, s + 1);
        let at = v.filter(h);
        let g0 = scored_above(post_id, target, category, top, s + 1);
        let g = scored_above(post_id, target, category, top, s);
        assert(a == hi + at);
        assert forall|r: RowView| !(#[trigger] g0(r) && h(r)) by {}
        assert forall|r: RowView| #[trigger] g(r) == (g0(r) || h(r)) by {}
        lemma_filter_union_len(v, g0, h, g);
        lemma_filter_members(v, h);
        lemma_filter_newest_first(v, h);
        assert(v.no_duplicates()) by {
            assert forall|i: int, j: int| 0 <= i < v.len() && 0 <= j < v.len() && i != j implies v[i] != v[j] by {
                assert(v[i].0 != v[j].0);
            }
        }
        lemma_filter_no_duplicates(v, h);
        assert forall|i: int| 0 <= i < a.len() implies {
            let x = #[trigger] a[i];
            &&& v.contains(x)
            &&& g(x)
        } by {
            if i < hi.len() {
                assert(a[i] == hi[i]);
            } else {
                assert(a[i] == at[i - hi.len()]);
            }
        }
        assert forall|i: int, j: int| 0 <= i < j < a.len() implies #[trigger] offered_before(
            a[i],
            a[j],
            target,
            category,
        ) by {
            if j < hi.len() {
                assert(a[i] == hi[i] && a[j] == hi[j]);
            } else if i >= hi.len() {
                assert(a[i] == at[i - hi.len()] && a[j] == at[j - hi.len()]);
            } else {
                assert(a[i] == hi[i] && a[j] == at[j - hi.len()]);
                assert(g0(hi[i]));
                assert(h(at[j - hi.len()]));
            }
        }
        assert forall|i: int, j: int| 0 <= i < a.len() && 0 <= j < a.len() && i != j implies a[i] != a[j] by {
            if i < hi.len() && j < hi.len() {
                assert(a[i] == hi[i] && a[j] == hi[j]);
            } else if i >= hi.len() && j >= hi.len() {
                assert(a[i] == at[i - hi.len()] && a[j] == at[j - hi.len()]);
            } else if i < hi.len() {
                assert(a[i] == hi[i] && a[j] == at[j - hi.len()]);
                assert(g0(hi[i]));
                assert(h(at[j - hi.len()]));
            } else {
                assert(a[j] == hi[j] && a[i] == at[i - hi.len()]);
                assert(g0(hi[j]));
                assert(h(at[i - hi.len()]));
            }
        }
    }
}

/// Related posts: exactly `min(limit, number of eligible posts)` of them,
/// every one published and other than the target, no row twice, ordered by
/// score and then by recency; so the scored posts come first and the padding
/// of unscored posts follows, newest first.
pub proof fn related_posts_padding(
    v: Seq<RowView>,
    post_id: Seq<char>,
    target: Seq<Seq<char>>,
    category: Option<Seq<char>>,
    limit: nat,
)
    requires
        rows_wf(v),
    ensures
        ({
            let r = related(v, post_id, target, category, limit);
            let n = v.filter(|x: RowView| eligible(x, post_id)).len();
            &&& r.len() == if n < limit { n } else { limit }
            &&& forall|i: int| 0 <= i < r.len() ==> #[trigger] eligible(r[i], post_id)
            &&& forall|i: int| 0 <= i < r.len() ==> v.contains(#[trigger] r[i])
            &&& forall|i: int, j: int| 0 <= i < r.len() && 0 <= j < r.len() && i != j ==> r[i].0 != r[j].0
            &&& offer_ordered(r, target, category)
        }),
{
    let top = top_score(target) as int;
    lemma_above(v, post_id, target, category, top, -1);
    let e = |x: RowView| eligible(x, post_id);
    let g = scored_above(post_id, target, category, top, -1);
    assert forall|x: RowView| #[trigger] g(x) == e(x) by {
        lemma_shared_tags_bound(target, x.1.tags);
    }
    assert(g =~= e);
    let all = ranked(v, post_id, target, category);
    let r = related(v, post_id, target, category, limit);
    assert forall|i: int| 0 <= i < r.len() implies #[trigger] eligible(r[i], post_id) && v.contains(r[i]) by {
        assert(r[i] == all[i]);
        assert(g(all[i]));
    }
    assert forall|i: int, j: int| 0 <= i < r.len() && 0 <= j < r.len() && i != j implies r[i].0 != r[j].0 by {
        assert(r[i] == all[i] && r[j] == all[j]);
        assert(all[i] != all[j]);
        let a = choose|a: int| 0 <= a < v.len() && v[a] == all[i];
        let b = choose|b: int| 0 <= b < v.len() && v[b] == all[j];
    }
    assert forall|i: int, j: int| 0 <= i < j < r.len() implies #[trigger] offered_before(
        r[i],
        r[j],
        target,
        category,
    ) by {
        assert(r[i] == all[i] && r[j] == all[j]);
    }
}

} // verus!
