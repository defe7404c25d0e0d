//! Tag aggregates: how many published posts carry each tag, most used first.
use vstd::prelude::*;
use crate::index::{RowView, rows_wf};
use crate::post::{BlogPost, strings_view};
use crate::index::{rows_view, row_view, row_ok};
use crate::text::{chars_of, str_eq};

verus! {

/// How many published rows carry tag `t`.
pub open spec fn tag_count(v: Seq<RowView>, t: Seq<char>) -> nat
    decreases v.len(),
{
    if v.len() == 0 {
        0
    } else {
        tag_count(v.drop_last(), t) + if v.last().1.published && v.last().1.tags.contains(t) {
            1nat
        } else {
            0nat
        }
    }
}

/// Lexicographic order of texts by code point.
pub open spec fn name_less(a: Seq<char>, b: Seq<char>) -> bool
    decreases a.len(),
{
    if a.len() == 0 {
        b.len() > 0
    } else if b.len() == 0 {
        false
    } else if a[0] != b[0] {
        a[0] < b[0]
    } else {
        name_less(a.drop_first(), b.drop_first())
    }
}

/// Tag order: more posts first, then by name.
pub open spec fn tag_before(x: (Seq<char>, nat), y: (Seq<char>, nat)) -> bool {
    x.1 > y.1 || (x.1 == y.1 && name_less(x.0, y.0))
}

pub open spec fn entries_view(v: Seq<(String, usize)>) -> Seq<(Seq<char>, nat)> {
    v.map_values(|e: (String, usize)| (e.0@, e.1 as nat))
}

/// The exact tag listing of rows `v`: every tag of a published post once,
/// with its count, each entry before the next in tag order.
pub open spec fn is_tag_listing(v: Seq<RowView>, t: Seq<(Seq<char>, nat)>) -> bool {
    &&& forall|i: int| 0 <= i < t.len() ==> #[trigger] t[i].1 == tag_count(v, t[i].0) && t[i].1 > 0
    &&& forall|name: Seq<char>| tag_count(v, name) > 0 ==> exists|i: int| 0 <= i < t.len() && #[trigger] t[i].0 == name
    &&& forall|i: int, j: int| 0 <= i < t.len() && 0 <= j < t.len() && i != j ==> t[i].0 != t[j].0
    &&& forall|i: int| 0 <= i < t.len() - 1 ==> tag_before(#[trigger] t[i], t[i + 1])
}

pub proof fn lemma_name_less_total(a: Seq<char>, b: Seq<char>)
    ensures
        a != b ==> name_less(a, b) || name_less(b, a),
        !(name_less(a, b) && name_less(b, a)),
    decreases a.len(),
{
    if a.len() > 0 && b.len() > 0 && a[0] == b[0] {
        lemma_name_less_total(a.drop_first(), b.drop_first());
        if a != b {
            assert(a =~= seq![a[0]] + a.drop_first());
            assert(b =~= seq![b[0]] + b.drop_first());
        }
    } else if a.len() == 0 && b.len() == 0 {
        assert(a =~= b);
    }
}

fn name_less_exec(a: &str, b: &str) -> (r: bool)
    ensures
        r == name_less(a@, b@),
{
    let x = chars_of(a);
    let y = chars_of(b);
    let mut k: usize = 0;
    assert(x@.skip(0) =~= x@);
    assert(y@.skip(0) =~= y@);
    while k < x.len() && k < y.len() && x[k] == y[k]
        invariant
            k <= x@.len(),
            k <= y@.len(),
            name_less(x@, y@) == name_less(x@.skip(k as int), y@.skip(k as int)),
        decreases x.len() - k,
    {
        proof {
            let xs = x@.skip(k as int);
            let ys = y@.skip(k as int);
            assert(xs.drop_first() =~= x@.skip(k + 1));
            assert(ys.drop_first() =~= y@.skip(k + 1));
        }
        k += 1;
    }
    proof {
        assert(x@.skip(k as int).len() == x.len() - k);
        if k < x.len() && k < y.len() {
            assert(x@.skip(k as int)[0] == x@[k as int]);
            assert(y@.skip(k as int)[0] == y@[k as int]);
        }
    }
    if k == x.len() {
        k < y.len()
    } else if k == y.len() {
        false
    } else {
        x[k] < y[k]
    }
}

fn tag_before_exec(x: &(String, usize), y: &(String, usize)) -> (r: bool)
    ensures
        r == tag_before((x.0@, x.1 as nat), (y.0@, y.1 as nat)),
{
    x.1 > y.1 || (x.1 == y.1 && name_less_exec(x.0.as_str(), y.0.as_str()))
}

proof fn lemma_take_step(v: Seq<RowView>, i: int, t: Seq<char>)
    requires
        0 <= i < v.len(),
    ensures
        tag_count(v.take(i + 1), t) == tag_count(v.take(i), t) + if v[i].1.published
            && v[i].1.tags.contains(t) {
            1nat
        } else {
            0nat
        },
{
    assert(v.take(i + 1).drop_last() =~= v.take(i));
}

proof fn lemma_contains_push(s: Seq<Seq<char>>, y: Seq<char>)
    ensures
        forall|x: Seq<char>| #[trigger] s.push(y).contains(x) == (s.contains(x) || x == y),
{
    assert forall|x: Seq<char>| #[trigger] s.push(y).contains(x) == (s.contains(x) || x == y) by {
        if s.contains(x) {
            let m = choose|m: int| 0 <= m < s.len() && s[m] == x;
            assert(s.push(y)[m] == x);
        }
        if x == y {
            assert(s.push(y)[s.len() as int] == x);
        }
        if s.push(y).contains(x) && x != y {
            let m = choose|m: int| 0 <= m < s.len() + 1 && s.push(y)[m] == x;
            assert(s[m] == x);
        }
    }
}

proof fn lemma_tag_count_bound(v: Seq<RowView>, t: Seq<char>)
    ensures
        tag_count(v, t) <= v.len(),
    decreases v.len(),
{
    if v.len() > 0 {
        lemma_tag_count_bound(v.drop_last(), t);
    }
}

fn find_name(out: &Vec<String>, t: &str) -> (k: usize)
    ensures
        k <= out@.len(),
        k < out@.len() ==> out@[k as int]@ == t@,
        forall|m: int| 0 <= m < k ==> out@[m]@ != t@,
{
    let mut k: usize = 0;
    while k < out.len() && !str_eq(out[k].as_str(), t)
        invariant
            k <= out@.len(),
            forall|m: int| 0 <= m < k ==> out@[m]@ != t@,
        decreases out.len() - k,
    {
        k += 1;
    }
    k
}

/// Names and counts of the tags of published rows, in order of first appearance.
fn count_tags(rows: &Vec<(String, BlogPost)>, v: Ghost<Seq<RowView>>) -> (r: (Vec<String>, Vec<usize>))
    requires
        rows_wf(v@),
        v@ == rows_view(rows@),
    ensures
        r.0@.len() == r.1@.len(),
        forall|a: int| 0 <= a < r.1@.len() ==> #[trigger] r.1@[a] == tag_count(v@, r.0@[a]@) && r.1@[a] > 0,
        forall|name: Seq<char>| tag_count(v@, name) > 0 ==> #[trigger] strings_view(r.0@).contains(name),
        strings_view(r.0@).no_duplicates(),
{
    let mut names: Vec<String> = Vec::new();
    let mut counts: Vec<usize> = Vec::new();
    let mut i: usize = 0;
    while i < rows.len()
        invariant
            i <= rows.len(),
            rows_wf(v@),
            v@ == rows_view(rows@),
            names@.len() == counts@.len(),
            forall|a: int| 0 <= a < counts@.len() ==> #[trigger] counts@[a] == tag_count(v@.take(i as int), names@[a]@),
            forall|a: int| 0 <= a < counts@.len() ==> 0 < #[trigger] counts@[a] <= i,
            forall|name: Seq<char>| tag_count(v@.take(i as int), name) > 0 ==> #[trigger] strings_view(names@).contains(name),
            strings_view(names@).no_duplicates(),
        decreases rows.len() - i,
    {
        let post = &rows[i].1;
        let ghost row = v@[i as int];
        assert(row == row_view(rows@[i as int]));
        assert(row_ok(v@[i as int]));
        let ghost tv = strings_view(post.tags@);
        if post.published {
            assert(rows@.len() <= usize::MAX);
            let mut j: usize = 0;
            while j < post.tags.len()
                invariant
                    j <= post.tags@.len(),
                    i < rows@.len(),
                    rows@.len() <= usize::MAX,
                    v@.len() == rows@.len(),
                    tv == strings_view(post.tags@),
                    tv.no_duplicates(),
                    names@.len() == counts@.len(),
                    forall|a: int| 0 <= a < counts@.len() ==> #[trigger] counts@[a] == tag_count(v@.take(i as int), names@[a]@) + if tv.take(j as int).contains(names@[a]@) { 1nat } else { 0nat },
                    forall|a: int| 0 <= a < counts@.len() ==> 0 < #[trigger] counts@[a] <= i + 1,
                    forall|name: Seq<char>| tag_count(v@.take(i as int), name) > 0 ==> #[trigger] strings_view(names@).contains(name),
                    forall|name: Seq<char>| tv.take(j as int).contains(name) ==> #[trigger] strings_view(names@).contains(name),
                    strings_view(names@).no_duplicates(),
                decreases post.tags.len() - j,
            {
                let tg = &post.tags[j];
                let ghost nv = strings_view(names@);
                proof {
                    assert(tv[j as int] == tg@);
                    assert(tv.take(j + 1) =~= tv.take(j as int).push(tg@));
                    lemma_contains_push(tv.take(j as int), tg@);
                    lemma_tag_count_bound(v@.take(i as int), tg@);
                    if tv.take(j as int).contains(tg@) {
                        let m = choose|m: int| 0 <= m < j && tv.take(j as int)[m] == tg@;
                        assert(tv[m] == tv[j as int]);
                    }
                }
                let k = find_name(&names, tg.as_str());
                if k < names.len() {
                    let c = counts[k];
                    assert(0 < counts@[k as int] <= i + 1);
                    assert(counts@[k as int] == tag_count(v@.take(i as int), names@[k as int]@));
                    proof {
                        assert(names@[k as int]@ == tg@);
                        assert(!tv.take(j as int).contains(names@[k as int]@));
                        assert(v@.take(i as int).len() == i);
                        assert(c <= i);
                    }
                    counts.set(k, c + 1);
                    proof {
                        assert forall|a: int| 0 <= a < counts@.len() implies #[trigger] counts@[a] == tag_count(v@.take(i as int), names@[a]@) + if tv.take(j + 1).contains(names@[a]@) { 1nat } else { 0nat } by {
                            if a != k {
                                assert(names@[a]@ != tg@) by {
                                    assert(nv[a] == names@[a]@);
                                    assert(nv[k as int] == names@[k as int]@);
                                }
                            }
                        }
                        assert forall|name: Seq<char>| tv.take(j + 1).contains(name) implies #[trigger] strings_view(names@).contains(name) by {
                            if name == tg@ {
                                assert(nv[k as int] == name);
                            } else {
                                let t1 = tv.take(j + 1);
                                let m = choose|m: int| 0 <= m < t1.len() && t1[m] == name;
                                assert(tv.take(j as int)[m] == name);
                            }
                        }
                    }
                } else {
                    proof {
                        if tag_count(v@.take(i as int), tg@) > 0 {
                            assert(nv.contains(tg@));
                            let a = choose|a: int| 0 <= a < nv.len() && nv[a] == tg@;
                            assert(names@[a]@ == tg@);
                        }
                        if nv.contains(tg@) {
                            let a = choose|a: int| 0 <= a < nv.len() && nv[a] == tg@;
                            assert(names@[a]@ == tg@);
                        }
                    }
                    names.push(tg.clone());
                    counts.push(1);
                    proof {
                        assert(strings_view(names@) =~= nv.push(tg@));
                        assert forall|a: int| 0 <= a < counts@.len() implies #[trigger] counts@[a] == tag_count(v@.take(i as int), names@[a]@) + if tv.take(j + 1).contains(names@[a]@) { 1nat } else { 0nat } by {
                            if a < nv.len() {
                                assert(names@[a]@ == nv[a]);
                                assert(nv[a] != tg@);
                            }
                        }
                        assert forall|name: Seq<char>| tv.take(j + 1).contains(name) implies #[trigger] strings_view(names@).contains(name) by {
                            if name == tg@ {
                                assert(strings_view(names@)[nv.len() as int] == name);
                            } else {
                                let t1 = tv.take(j + 1);
                                let m = choose|m: int| 0 <= m < t1.len() && t1[m] == name;
                                assert(tv.take(j as int)[m] == name);
                                assert(nv.contains(name));
                                let a = choose|a: int| 0 <= a < nv.len() && nv[a] == name;
                                assert(strings_view(names@)[a] == name);
                            }
                        }
                        assert forall|name: Seq<char>| tag_count(v@.take(i as int), name) > 0 implies #[trigger] strings_view(names@).contains(name) by {
                            assert(nv.contains(name));
                            let a = choose|a: int| 0 <= a < nv.len() && nv[a] == name;
                            assert(strings_view(names@)[a] == name);
                        }
                    }
                }
                j += 1;
            }
            proof {
                assert(tv.take(post.tags.len() as int) =~= tv);
                assert forall|name: Seq<char>| #[trigger] tag_count(v@.take(i + 1), name) == tag_count(v@.take(i as int), name) + if tv.contains(name) { 1nat } else { 0nat } by {
                    lemma_take_step(v@, i as int, name);
                }
            }
        } else {
            proof {
                assert forall|name: Seq<char>| #[trigger] tag_count(v@.take(i + 1), name) == tag_count(v@.take(i as int), name) by {
                    lemma_take_step(v@, i as int, name);
                }
            }
        }
        i += 1;
    }
    assert(v@.take(rows.len() as int) =~= v@);
    (names, counts)
}

pub open spec fn pairs_of(names: Seq<String>, counts: Seq<usize>) -> Seq<(Seq<char>, nat)> {
    Seq::new(names.len(), |k: int| (names[k]@, counts[k] as nat))
}

proof fn lemma_tag_before_total(x: (Seq<char>, nat), y: (Seq<char>, nat))
    requires
        x.0 != y.0,
    ensures
        tag_before(x, y) || tag_before(y, x),
{
    lemma_name_less_total(x.0, y.0);
}

fn insert_position(out: &Vec<(String, usize)>, e: &(String, usize)) -> (p: usize)
    ensures
        p <= out@.len(),
        forall|a: int| 0 <= a < p ==> !tag_before((e.0@, e.1 as nat), #[trigger] entries_view(out@)[a]),
        p < out@.len() ==> tag_before((e.0@, e.1 as nat), entries_view(out@)[p as int]),
{
    let mut p: usize = 0;
    while p < out.len() && !tag_before_exec(e, &out[p])
        invariant
            p <= out@.len(),
            forall|a: int| 0 <= a < p ==> !tag_before((e.0@, e.1 as nat), #[trigger] entries_view(out@)[a]),
        decreases out.len() - p,
    {
        p += 1;
    }
    p
}

/// The tags of published rows with their counts, in tag order.
#[verifier::rlimit(50)]
pub fn tag_listing(rows: &Vec<(String, BlogPost)>, v: Ghost<Seq<RowView>>) -> (r: Vec<(String, usize)>)
    requires
        rows_wf(v@),
        v@ == rows_view(rows@),
    ensures
        is_tag_listing(v@, entries_view(r@)),
{
    let (names, counts) = count_tags(rows, v);
    let ghost pairs = pairs_of(names@, counts@);
    let mut out: Vec<(String, usize)> = Vec::new();
    let mut idx: usize = 0;
    while idx < names.len()
        invariant
            idx <= names@.len(),
            names@.len() == counts@.len(),
            pairs == pairs_of(names@, counts@),
            strings_view(names@).no_duplicates(),
            entries_view(out@).len() == idx,
            forall|a: int| 0 <= a < idx ==> #[trigger] pairs.take(idx as int).contains(entries_view(out@)[a]),
            forall|k: int| 0 <= k < idx ==> #[trigger] entries_view(out@).contains(pairs[k]),
            forall|a: int, b: int| 0 <= a < idx && 0 <= b < idx && a != b ==> entries_view(out@)[a].0 != entries_view(out@)[b].0,
            forall|a: int| 0 <= a < idx - 1 ==> tag_before(#[trigger] entries_view(out@)[a], entries_view(out@)[a + 1]),
        decreases names.len() - idx,
    {
        let e = (names[idx].clone(), counts[idx]);
        let ghost ev = (e.0@, e.1 as nat);
        let ghost ov = entries_view(out@);
        assert(ev == pairs[idx as int]);
        proof {
            assert forall|a: int| 0 <= a < idx implies #[trigger] ov[a].0 != ev.0 by {
                let t = pairs.take(idx as int);
                assert(t.contains(ov[a]));
                let k = choose|k: int| 0 <= k < t.len() && t[k] == ov[a];
                assert(strings_view(names@)[k] == names@[k]@);
                assert(strings_view(names@)[idx as int] == names@[idx as int]@);
            }
        }
        let p = insert_position(&out, &e);
        out.insert(p, e);
        proof {
            let nv = entries_view(out@);
            assert(nv =~= ov.insert(p as int, ev));
            let t1 = pairs.take(idx + 1);
            assert(t1 =~= pairs.take(idx as int).push(ev));
            assert forall|a: int| 0 <= a < idx + 1 implies #[trigger] t1.contains(nv[a]) by {
                if a < p {
                    assert(nv[a] == ov[a]);
                    let t = pairs.take(idx as int);
                    assert(t.contains(ov[a]));
                    let k = choose|k: int| 0 <= k < t.len() && t[k] == ov[a];
                    assert(t1[k] == nv[a]);
                } else if a == p {
                    assert(t1[idx as int] == nv[a]);
                } else {
                    assert(nv[a] == ov[a - 1]);
                    let t = pairs.take(idx as int);
                    assert(t.contains(ov[a - 1]));
                    let k = choose|k: int| 0 <= k < t.len() && t[k] == ov[a - 1];
                    assert(t1[k] == nv[a]);
                }
            }
            assert forall|k: int| 0 <= k < idx + 1 implies #[trigger] nv.contains(pairs[k]) by {
                if k == idx {
                    assert(nv[p as int] == pairs[k]);
                } else {
                    assert(ov.contains(pairs[k]));
                    let a = choose|a: int| 0 <= a < ov.len() && ov[a] == pairs[k];
                    if a < p {
                        assert(nv[a] == pairs[k]);
                    } else {
                        assert(nv[a + 1] == pairs[k]);
                    }
                }
            }
            assert forall|a: int, b: int| 0 <= a < idx + 1 && 0 <= b < idx + 1 && a != b implies nv[a].0 != nv[b].0 by {
                let oa = if a < p { a } else { a - 1 };
                let ob = if b < p { b } else { b - 1 };
                if a != p && b != p {
                    assert(nv[a] == ov[oa]);
                    assert(nv[b] == ov[ob]);
                } else if a == p {
                    assert(nv[b] == ov[ob]);
                } else {
                    assert(nv[a] == ov[oa]);
                }
            }
            assert forall|a: int| 0 <= a < idx implies tag_before(#[trigger] nv[a], nv[a + 1]) by {
                if a + 1 < p {
                    assert(nv[a] == ov[a] && nv[a + 1] == ov[a + 1]);
                } else if a + 1 == p {
                    assert(nv[a] == ov[a]);
                    assert(!tag_before(ev, ov[a]));
                    lemma_tag_before_total(ev, ov[a]);
                } else if a == p {
                    assert(nv[a + 1] == ov[a]);
                } else {
                    assert(nv[a] == ov[a - 1] && nv[a + 1] == ov[a]);
                }
            }
        }
        idx += 1;
    }
    proof {
        let t = entries_view(out@);
        assert(pairs.take(names@.len() as int) =~= pairs);
        assert forall|i: int| 0 <= i < t.len() implies #[trigger] t[i].1 == tag_count(v@, t[i].0) && t[i].1 > 0 by {
            assert(pairs.contains(t[i]));
            let k = choose|k: int| 0 <= k < pairs.len() && pairs[k] == t[i];
            assert(counts@[k] == tag_count(v@, names@[k]@));
        }
        assert forall|name: Seq<char>| tag_count(v@, name) > 0 implies exists|i: int| 0 <= i < t.len() && #[trigger] t[i].0 == name by {
            assert(strings_view(names@).contains(name));
            let k = choose|k: int| 0 <= k < names@.len() && strings_view(names@)[k] == name;
            assert(t.contains(pairs[k]));
            let i = choose|i: int| 0 <= i < t.len() && t[i] == pairs[k];
            assert(t[i].0 == name);
        }
    }
    out
}

} // verus!
