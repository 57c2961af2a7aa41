use vstd::prelude::*;

use crate::chapter::ChapterView;
use crate::chapter::DecryptedChapter;

verus! {

/// The views of a sequence of decrypted chapters, element by element.
pub open spec fn views_of(s: Seq<DecryptedChapter>) -> Seq<ChapterView> {
    Seq::new(s.len(), |i: int| s[i]@)
}

/// Inserts `x` behind every element of `s` whose sequence index is at
/// most `x`'s and ahead of the rest: the insertion step of a stable
/// sort.
pub open spec fn insert_ordered(s: Seq<ChapterView>, x: ChapterView) -> Seq<ChapterView>
    decreases s.len(),
{
    if s.len() == 0 {
        seq![x]
    } else if s.last().sequence_index <= x.sequence_index {
        s.push(x)
    } else {
        insert_ordered(s.drop_last(), x).push(s.last())
    }
}

/// The stable sort of `s` by ascending sequence index: elements with
/// equal indices keep their relative order.
pub open spec fn stable_sort(s: Seq<ChapterView>) -> Seq<ChapterView>
    decreases s.len(),
{
    if s.len() == 0 {
        Seq::empty()
    } else {
        insert_ordered(stable_sort(s.drop_last()), s.last())
    }
}

/// Non-decreasing sequence indices.
pub open spec fn sorted_by_index(s: Seq<ChapterView>) -> bool {
    forall|i: int, j: int| 0 <= i <= j < s.len() ==> s[i].sequence_index <= s[j].sequence_index
}

/// Strictly increasing sequence indices.
pub open spec fn strictly_sorted_by_index(s: Seq<ChapterView>) -> bool {
    forall|i: int, j: int| 0 <= i < j < s.len() ==> s[i].sequence_index < s[j].sequence_index
}

/// No two elements share a sequence index.
pub open spec fn distinct_indices(s: Seq<ChapterView>) -> bool {
    forall|i: int, j: int| 0 <= i < j < s.len() ==> s[i].sequence_index != s[j].sequence_index
}

/// Picks out the elements that carry one given sequence index.
pub open spec fn index_is(k: i32) -> spec_fn(ChapterView) -> bool {
    |c: ChapterView| c.sequence_index == k
}

proof fn lemma_insert_ordered_len(s: Seq<ChapterView>, x: ChapterView)
    ensures
        insert_ordered(s, x).len() == s.len() + 1,
    decreases s.len(),
{
    if s.len() > 0 && !(s.last().sequence_index <= x.sequence_index) {
        lemma_insert_ordered_len(s.drop_last(), x);
    }
}

/// The sorted arrangement has exactly the elements it was given.
pub proof fn lemma_stable_sort_len(s: Seq<ChapterView>)
    ensures
        stable_sort(s).len() == s.len(),
    decreases s.len(),
{
    if s.len() > 0 {
        lemma_stable_sort_len(s.drop_last());
        lemma_insert_ordered_len(stable_sort(s.drop_last()), s.last());
    }
}

proof fn lemma_insert_ordered_bound(s: Seq<ChapterView>, x: ChapterView, b: i32)
    requires
        forall|i: int| 0 <= i < s.len() ==> s[i].sequence_index <= b,
        x.sequence_index <= b,
    ensures
        forall|i: int|
            0 <= i < insert_ordered(s, x).len() ==> #[trigger] insert_ordered(
                s,
                x,
            )[i].sequence_index <= b,
    decreases s.len(),
{
    lemma_insert_ordered_len(s, x);
    let t = insert_ordered(s, x);
    if s.len() == 0 {
        assert forall|i: int| 0 <= i < t.len() implies #[trigger] t[i].sequence_index <= b by {
            assert(t[i] == x);
        }
    } else if s.last().sequence_index <= x.sequence_index {
        assert forall|i: int| 0 <= i < t.len() implies #[trigger] t[i].sequence_index <= b by {
            if i < s.len() {
                assert(t[i] == s[i]);
            } else {
                assert(t[i] == x);
            }
        }
    } else {
        lemma_insert_ordered_bound(s.drop_last(), x, b);
        let inner = insert_ordered(s.drop_last(), x);
        lemma_insert_ordered_len(s.drop_last(), x);
        assert forall|i: int| 0 <= i < t.len() implies #[trigger] t[i].sequence_index <= b by {
            if i < inner.len() {
                assert(t[i] == inner[i]);
            } else {
                assert(t[i] == s.last());
                assert(s[s.len() - 1].sequence_index <= b);
            }
        }
    }
}

proof fn lemma_insert_ordered_sorted(s: Seq<ChapterView>, x: ChapterView)
    requires
        sorted_by_index(s),
    ensures
        sorted_by_index(insert_ordered(s, x)),
    decreases s.len(),
{
    lemma_insert_ordered_len(s, x);
    if s.len() == 0 {
    } else if s.last().sequence_index <= x.sequence_index {
        let t = s.push(x);
        assert forall|i: int, j: int|
            0 <= i <= j < t.len() implies t[i].sequence_index <= t[j].sequence_index by {
            if j == s.len() as int {
                if i < s.len() {
                    assert(s[i].sequence_index <= s[s.len() - 1].sequence_index);
                }
            }
        }
    } else {
        let inner = insert_ordered(s.drop_last(), x);
        assert(sorted_by_index(s.drop_last())) by {
            assert forall|i: int, j: int|
                0 <= i <= j < s.drop_last().len() implies s.drop_last()[i].sequence_index
                <= s.drop_last()[j].sequence_index by {
                assert(s[i].sequence_index <= s[j].sequence_index);
            }
        }
        lemma_insert_ordered_sorted(s.drop_last(), x);
        lemma_insert_ordered_len(s.drop_last(), x);
        assert forall|i: int|
            0 <= i < s.drop_last().len() implies s.drop_last()[i].sequence_index
            <= s.last().sequence_index by {
            assert(s[i].sequence_index <= s[s.len() - 1].sequence_index);
        }
        lemma_insert_ordered_bound(s.drop_last(), x, s.last().sequence_index);
        let t = inner.push(s.last());
        assert forall|i: int, j: int|
            0 <= i <= j < t.len() implies t[i].sequence_index <= t[j].sequence_index by {
            if j == inner.len() as int {
                if i < inner.len() {
                    assert(inner[i].sequence_index <= s.last().sequence_index);
                }
            }
        }
    }
}

/// The sorted arrangement is non-decreasing in the sequence index.
pub proof fn lemma_stable_sort_sorted(s: Seq<ChapterView>)
    ensures
        sorted_by_index(stable_sort(s)),
    decreases s.len(),
{
    if s.len() > 0 {
        lemma_stable_sort_sorted(s.drop_last());
        lemma_insert_ordered_sorted(stable_sort(s.drop_last()), s.last());
    }
}

proof fn lemma_insert_ordered_multiset(s: Seq<ChapterView>, x: ChapterView)
    ensures
        insert_ordered(s, x).to_multiset() == s.to_multiset().insert(x),
    decreases s.len(),
{
    broadcast use vstd::seq_lib::to_multiset_build;

    if s.len() == 0 {
        assert(s =~= Seq::<ChapterView>::empty());
        assert(seq![x] =~= s.push(x));
        assert(s.push(x).to_multiset() =~= s.to_multiset().insert(x));
        assert(insert_ordered(s, x).to_multiset() == s.push(x).to_multiset());
    } else if s.last().sequence_index <= x.sequence_index {
        assert(s.push(x).to_multiset() =~= s.to_multiset().insert(x));
    } else {
        let inner = insert_ordered(s.drop_last(), x);
        lemma_insert_ordered_multiset(s.drop_last(), x);
        assert(inner.push(s.last()).to_multiset() =~= inner.to_multiset().insert(s.last()));
        assert(s =~= s.drop_last().push(s.last()));
        assert(s.drop_last().push(s.last()).to_multiset() =~= s.drop_last().to_multiset().insert(
            s.last(),
        ));
        assert(s.to_multiset() == s.drop_last().push(s.last()).to_multiset());
        assert(s.drop_last().to_multiset().insert(x).insert(s.last()) =~= s.drop_last()
            .to_multiset()
            .insert(s.last())
            .insert(x));
    }
}

/// The sorted arrangement is a permutation of what was given.
pub proof fn lemma_stable_sort_multiset(s: Seq<ChapterView>)
    ensures
        stable_sort(s).to_multiset() == s.to_multiset(),
    decreases s.len(),
{
    broadcast use vstd::seq_lib::to_multiset_build;

    if s.len() > 0 {
        lemma_stable_sort_multiset(s.drop_last());
        lemma_insert_ordered_multiset(stable_sort(s.drop_last()), s.last());
        assert(stable_sort(s) == insert_ordered(stable_sort(s.drop_last()), s.last()));
        assert(insert_ordered(stable_sort(s.drop_last()), s.last()).to_multiset() == stable_sort(
            s.drop_last(),
        ).to_multiset().insert(s.last()));
        assert(s =~= s.drop_last().push(s.last()));
        assert(s.drop_last().push(s.last()).to_multiset() =~= s.drop_last().to_multiset().insert(
            s.last(),
        ));
        assert(s.to_multiset() == s.drop_last().push(s.last()).to_multiset());
    } else {
        assert(s =~= Seq::<ChapterView>::empty());
    }
}

proof fn lemma_insert_ordered_filter(s: Seq<ChapterView>, x: ChapterView, k: i32)
    ensures
        insert_ordered(s, x).filter(index_is(k)) == if x.sequence_index == k {
            s.filter(index_is(k)).push(x)
        } else {
            s.filter(index_is(k))
        },
    decreases s.len(),
{
    let p = index_is(k);
    if s.len() == 0 {
        assert(s.filter(p).len() <= s.len()) by {
            s.lemma_filter_len(p);
        }
        assert(s.filter(p) =~= Seq::<ChapterView>::empty());
        assert(seq![x] =~= Seq::<ChapterView>::empty().push(x));
        Seq::<ChapterView>::empty().lemma_filter_push(x, p);
    } else if s.last().sequence_index <= x.sequence_index {
        s.lemma_filter_push(x, p);
    } else {
        let inner = insert_ordered(s.drop_last(), x);
        lemma_insert_ordered_filter(s.drop_last(), x, k);
        inner.lemma_filter_push(s.last(), p);
        assert(s =~= s.drop_last().push(s.last()));
        s.drop_last().lemma_filter_push(s.last(), p);
    }
}

/// Stability: among the elements that share one sequence index, the
/// sorted arrangement keeps exactly the original subsequence.
pub proof fn lemma_stable_sort_stable(s: Seq<ChapterView>, k: i32)
    ensures
        stable_sort(s).filter(index_is(k)) == s.filter(index_is(k)),
    decreases s.len(),
{
    if s.len() > 0 {
        lemma_stable_sort_stable(s.drop_last(), k);
        lemma_insert_ordered_filter(stable_sort(s.drop_last()), s.last(), k);
        assert(s =~= s.drop_last().push(s.last()));
        s.drop_last().lemma_filter_push(s.last(), index_is(k));
    }
}

proof fn lemma_two_positions_filter(s: Seq<ChapterView>, i: int, j: int, k: i32)
    requires
        0 <= i < j < s.len(),
        s[i].sequence_index == k,
        s[j].sequence_index == k,
    ensures
        s.filter(index_is(k)).len() >= 2,
{
    let p = index_is(k);
    let a = s.take(j);
    let b = s.skip(j);
    assert(s =~= a + b);
    Seq::<ChapterView>::filter_distributes_over_add(a, b, p);
    assert(a.filter(p).contains(a[i])) by {
        a.lemma_filter_contains(p, i);
    }
    assert(a.filter(p).len() >= 1);
    assert(b.filter(p).contains(b[0])) by {
        b.lemma_filter_contains(p, 0);
    }
    assert(b.filter(p).len() >= 1);
}

proof fn lemma_distinct_filter_short(s: Seq<ChapterView>, k: i32)
    requires
        distinct_indices(s),
    ensures
        s.filter(index_is(k)).len() <= 1,
    decreases s.len(),
{
    let p = index_is(k);
    if s.len() == 0 {
        s.lemma_filter_len(p);
    } else {
        let d = s.drop_last();
        assert(distinct_indices(d)) by {
            assert forall|i: int, j: int|
                0 <= i < j < d.len() implies d[i].sequence_index != d[j].sequence_index by {
                assert(s[i].sequence_index != s[j].sequence_index);
            }
        }
        lemma_distinct_filter_short(d, k);
        assert(s =~= d.push(s.last()));
        d.lemma_filter_push(s.last(), p);
        if s.last().sequence_index == k {
            assert(d.filter(p).len() == 0) by {
                if d.filter(p).len() > 0 {
                    let e = d.filter(p)[0];
                    assert(d.filter(p).contains(e));
                    d.lemma_filter_contains_rev(p, e);
                    assert(d.contains(e));
                    let m = choose|m: int| 0 <= m < d.len() && d[m] == e;
                    assert(p(e)) by {
                        d.lemma_filter_pred(p, 0);
                    }
                    assert(s[m].sequence_index == s[s.len() - 1].sequence_index);
                    assert(false);
                }
            }
        }
    }
}

/// With pairwise distinct sequence indices, the sorted arrangement is
/// strictly ascending: the one order the indices admit, whatever order
/// the elements arrived in.
pub proof fn lemma_stable_sort_distinct(s: Seq<ChapterView>)
    requires
        distinct_indices(s),
    ensures
        strictly_sorted_by_index(stable_sort(s)),
        stable_sort(s).to_multiset() == s.to_multiset(),
        stable_sort(s).len() == s.len(),
{
    lemma_stable_sort_sorted(s);
    lemma_stable_sort_multiset(s);
    lemma_stable_sort_len(s);
    let t = stable_sort(s);
    assert forall|i: int, j: int|
        0 <= i < j < t.len() implies t[i].sequence_index < t[j].sequence_index by {
        assert(t[i].sequence_index <= t[j].sequence_index);
        if t[i].sequence_index == t[j].sequence_index {
            let k = t[i].sequence_index;
            lemma_two_positions_filter(t, i, j, k);
            lemma_stable_sort_stable(s, k);
            lemma_distinct_filter_short(s, k);
            assert(false);
        }
    }
}

proof fn lemma_sorted_multiset_unique(t1: Seq<ChapterView>, t2: Seq<ChapterView>)
    requires
        strictly_sorted_by_index(t1),
        sorted_by_index(t2),
        t1.to_multiset() == t2.to_multiset(),
    ensures
        t1 == t2,
    decreases t1.len(),
{
    broadcast use vstd::seq_lib::group_to_multiset_ensures;

    assert(t1.to_multiset().len() == t1.len());
    assert(t2.to_multiset().len() == t2.len());
    if t1.len() == 0 {
        assert(t1 =~= t2);
    } else {
        assert(t2.len() == t1.len());
        assert(t2.contains(t2[0]));
        assert(t1.to_multiset().count(t2[0]) > 0);
        assert(t1.contains(t2[0]));
        let m = choose|m: int| 0 <= m < t1.len() && t1[m] == t2[0];
        assert(t1[0].sequence_index <= t1[m].sequence_index);
        assert(t1.contains(t1[0]));
        assert(t2.to_multiset().count(t1[0]) > 0);
        assert(t2.contains(t1[0]));
        let w = choose|w: int| 0 <= w < t2.len() && t2[w] == t1[0];
        assert(t2[0].sequence_index <= t2[w].sequence_index);
        assert(t1[0].sequence_index == t2[0].sequence_index);
        assert(t1[0] == t2[0]) by {
            if m > 0 {
                assert(t1[0].sequence_index < t1[m].sequence_index);
                assert(false);
            }
        }
        assert(t1.remove(0).to_multiset() == t1.to_multiset().remove(t1[0]));
        assert(t2.remove(0).to_multiset() == t2.to_multiset().remove(t2[0]));
        assert(t1.remove(0) =~= t1.drop_first());
        assert(t2.remove(0) =~= t2.drop_first());
        assert(strictly_sorted_by_index(t1.drop_first())) by {
            assert forall|i: int, j: int|
                0 <= i < j < t1.drop_first().len() implies t1.drop_first()[i].sequence_index < t1.drop_first()[j].sequence_index by {
                assert(t1[i + 1].sequence_index < t1[j + 1].sequence_index);
            }
        }
        assert(sorted_by_index(t2.drop_first())) by {
            assert forall|i: int, j: int|
                0 <= i <= j < t2.drop_first().len() implies t2.drop_first()[i].sequence_index <= t2.drop_first()[j].sequence_index by {
                assert(t2[i + 1].sequence_index <= t2[j + 1].sequence_index);
            }
        }
        lemma_sorted_multiset_unique(t1.drop_first(), t2.drop_first());
        assert(t1 =~= t2) by {
            assert forall|i: int| 0 <= i < t1.len() implies t1[i] == t2[i] by {
                if i > 0 {
                    assert(t1.drop_first()[i - 1] == t2.drop_first()[i - 1]);
                }
            }
        }
    }
}

/// Presenting the same chapters in any arrival order yields the same
/// sorted arrangement, when no two of them share a sequence index: only
/// the indices govern the final order.
pub proof fn lemma_stable_sort_shuffle_independent(s1: Seq<ChapterView>, s2: Seq<ChapterView>)
    requires
        distinct_indices(s1),
        s1.to_multiset() == s2.to_multiset(),
    ensures
        stable_sort(s1) == stable_sort(s2),
{
    lemma_stable_sort_distinct(s1);
    lemma_stable_sort_sorted(s2);
    lemma_stable_sort_multiset(s2);
    lemma_sorted_multiset_unique(stable_sort(s1), stable_sort(s2));
}

/// Stable-sorts the chapters in place by ascending sequence index.
pub fn sort_chapters(v: &mut Vec<DecryptedChapter>)
    ensures
        views_of(final(v)@) == stable_sort(views_of(old(v)@)),
{
    let ghost vs0 = views_of(old(v)@);
    let n = v.len();
    let mut i: usize = 0;
    while i < n
        invariant
            i <= n,
            n == v@.len(),
            n == vs0.len(),
            vs0 == views_of(old(v)@),
            views_of(v@) == stable_sort(vs0.take(i as int)) + vs0.skip(i as int),
        decreases n - i,
    {
        proof {
            lemma_stable_sort_len(vs0.take(i as int));
        }
        let ghost pre = v@;
        let x = v.remove(i);
        let ghost xv = x@;
        let ghost p = stable_sort(vs0.take(i as int));
        proof {
            assert(p.len() == i);
            assert(xv == vs0[i as int]) by {
                assert(views_of(pre)[i as int] == xv);
                assert(views_of(pre)[i as int] == (p + vs0.skip(i as int))[i as int]);
                assert((p + vs0.skip(i as int))[i as int] == vs0.skip(i as int)[0]);
            }
            assert(views_of(v@) =~= p + vs0.skip(i as int + 1)) by {
                assert(v@ == pre.remove(i as int));
                assert forall|m: int| 0 <= m < v@.len() implies views_of(v@)[m] == (p + vs0.skip(
                    i as int + 1,
                ))[m] by {
                    assert(views_of(pre) == p + vs0.skip(i as int));
                    if m < i as int {
                        assert(v@[m] == pre[m]);
                        assert(views_of(pre)[m] == p[m]);
                    } else {
                        assert(v@[m] == pre[m + 1]);
                        assert(views_of(pre)[m + 1] == vs0.skip(i as int)[m + 1 - i]);
                    }
                }
            }
        }
        let mut j: usize = i;
        proof {
            assert(p.take(i as int) =~= p);
            assert(p.skip(i as int) =~= Seq::<ChapterView>::empty());
            assert(insert_ordered(p.take(i as int), xv) + p.skip(i as int) =~= insert_ordered(
                p,
                xv,
            ));
        }
        while j > 0 && v[j - 1].sequence_index > x.sequence_index
            invariant
                j <= i,
                i < n,
                n == v@.len() + 1,
                p.len() == i,
                p == stable_sort(vs0.take(i as int)),
                xv == x@,
                views_of(v@) == p + vs0.skip(i as int + 1),
                insert_ordered(p, xv) == insert_ordered(p.take(j as int), xv) + p.skip(j as int),
            decreases j,
        {
            proof {
                assert(v@[j - 1]@ == p[j - 1]) by {
                    assert(views_of(v@)[j - 1] == p[j - 1]);
                }
                let jj = j as int;
                assert(p.take(jj).len() == jj);
                assert(p.take(jj).last() == p[jj - 1]);
                assert(p.take(jj).drop_last() =~= p.take(jj - 1));
                lemma_insert_ordered_len(p.take(jj - 1), xv);
                assert(insert_ordered(p.take(jj), xv) == insert_ordered(p.take(jj - 1), xv).push(
                    p[jj - 1],
                ));
                assert(insert_ordered(p.take(jj - 1), xv).push(p[jj - 1]) + p.skip(jj)
                    =~= insert_ordered(p.take(jj - 1), xv) + p.skip(jj - 1));
            }
            j = j - 1;
        }
        proof {
            let jj = j as int;
            assert(insert_ordered(p.take(jj), xv) == p.take(jj).push(xv)) by {
                if j == 0 {
                    assert(p.take(0) =~= Seq::<ChapterView>::empty());
                    assert(Seq::<ChapterView>::empty().push(xv) =~= seq![xv]);
                } else {
                    assert(v@[jj - 1]@ == p[jj - 1]) by {
                        assert(views_of(v@)[jj - 1] == p[jj - 1]);
                    }
                    assert(p.take(jj).last() == p[jj - 1]);
                }
            }
        }
        let ghost pre2 = v@;
        v.insert(j, x);
        proof {
            let jj = j as int;
            let ii = i as int;
            assert(views_of(v@) =~= (p + vs0.skip(ii + 1)).insert(jj, xv)) by {
                assert(v@ == pre2.insert(jj, x));
                assert(views_of(pre2) == p + vs0.skip(ii + 1));
                assert forall|m: int| 0 <= m < v@.len() implies views_of(v@)[m] == (p + vs0.skip(
                    ii + 1,
                )).insert(jj, xv)[m] by {
                    if m < jj {
                        assert(v@[m] == pre2[m]);
                        assert(views_of(pre2)[m] == (p + vs0.skip(ii + 1))[m]);
                    } else if m == jj {
                        assert(v@[m] == x);
                    } else {
                        assert(v@[m] == pre2[m - 1]);
                        assert(views_of(pre2)[m - 1] == (p + vs0.skip(ii + 1))[m - 1]);
                    }
                }
            }
            assert((p + vs0.skip(ii + 1)).insert(jj, xv) =~= (p.take(jj).push(xv) + p.skip(jj))
                + vs0.skip(ii + 1));
            assert(views_of(v@) =~= insert_ordered(p, xv) + vs0.skip(ii + 1));
            assert(vs0.take(ii + 1).drop_last() =~= vs0.take(ii));
            assert(vs0.take(ii + 1).last() == vs0[ii]);
            assert(stable_sort(vs0.take(ii + 1)) == insert_ordered(p, xv));
            assert(views_of(v@) == stable_sort(vs0.take(ii + 1)) + vs0.skip(ii + 1));
        }
        i = i + 1;
    }
    proof {
        assert(vs0.take(n as int) =~= vs0);
        assert(vs0.skip(n as int) =~= Seq::<ChapterView>::empty());
        assert(stable_sort(vs0.take(n as int)) + vs0.skip(n as int) =~= stable_sort(vs0));
    }
}

} // verus!
