//! Stable sorting by rank.

use vstd::prelude::*;

verus! {

broadcast use vstd::seq_lib::group_to_multiset_ensures;

/// Values with a rank. Two different values may share a rank.
pub trait Ranked: Sized {
    /// The rank of `a` is at most that of `b`.
    spec fn rank_le(a: Self, b: Self) -> bool;

    proof fn rank_total(a: Self, b: Self)
        ensures
            Self::rank_le(a, b) || Self::rank_le(b, a),
    ;

    proof fn rank_transitive(a: Self, b: Self, c: Self)
        requires
            Self::rank_le(a, b),
            Self::rank_le(b, c),
        ensures
            Self::rank_le(a, c),
    ;
}

/// Ranked values whose ranks can be compared at run time, by the rank of what they
/// stand for.
pub trait Rankable: DeepView where <Self as DeepView>::V: Ranked {
    fn rank_at_most(&self, other: &Self) -> (r: bool)
        ensures
            r == <<Self as DeepView>::V as Ranked>::rank_le(self.deep_view(), other.deep_view()),
    ;
}

pub open spec fn same_rank<T: Ranked>(a: T, b: T) -> bool {
    T::rank_le(a, b) && T::rank_le(b, a)
}

/// The values of `s` that share the rank of `x`, in the order in which they stand.
pub open spec fn ties<T: Ranked>(s: Seq<T>, x: T) -> Seq<T> {
    s.filter(|y: T| same_rank(x, y))
}

/// No value stands behind one of a higher rank.
pub open spec fn is_sorted<T: Ranked>(s: Seq<T>) -> bool {
    forall|i: int, j: int| 0 <= i <= j < s.len() ==> T::rank_le(#[trigger] s[i], #[trigger] s[j])
}

/// `output` holds the values of `input` by ascending rank, and values of one rank in
/// the order in which `input` holds them.
pub open spec fn is_stable_sort<T: Ranked>(input: Seq<T>, output: Seq<T>) -> bool {
    &&& is_sorted(output)
    &&& forall|x: T| #[trigger] ties(output, x) == ties(input, x)
}

/// The stable sort of `s`.
pub open spec fn stable_sorted<T: Ranked>(s: Seq<T>) -> Seq<T> {
    choose|o: Seq<T>| is_stable_sort(s, o)
}

// --- Inserting by rank ---

/// Inserting a value behind all of at most its rank and before all of a higher one
/// extends a stable sort by that value.
proof fn lemma_insert_keeps_sort<T: Ranked>(input: Seq<T>, output: Seq<T>, p: int, x: T)
    requires
        is_stable_sort(input, output),
        0 <= p <= output.len(),
        forall|i: int| 0 <= i < p ==> T::rank_le(#[trigger] output[i], x),
        forall|i: int| p <= i < output.len() ==> !T::rank_le(#[trigger] output[i], x),
    ensures
        is_stable_sort(input.push(x), output.insert(p, x)),
{
    let o = output.insert(p, x);
    assert forall|i: int, j: int| 0 <= i <= j < o.len() implies T::rank_le(
        #[trigger] o[i],
        #[trigger] o[j],
    ) by {
        T::rank_total(x, x);
        if i < p {
            assert(o[i] == output[i]);
        } else if i > p {
            assert(o[i] == output[i - 1]);
        }
        if j < p {
            assert(o[j] == output[j]);
        } else if j > p {
            assert(o[j] == output[j - 1]);
            T::rank_total(x, output[j - 1]);
        }
    }
    assert forall|y: T| #[trigger] ties(o, y) == ties(input.push(x), y) by {
        let same = |z: T| same_rank(y, z);
        let front = output.take(p);
        let back = output.skip(p);
        assert(output =~= front + back);
        assert(o =~= front.push(x) + back);
        Seq::filter_distributes_over_add(front, back, same);
        Seq::filter_distributes_over_add(front.push(x), back, same);
        front.lemma_filter_push(x, same);
        input.lemma_filter_push(x, same);
        assert(ties(output, y) == ties(input, y));
        if same(x) {
            assert forall|i: int| 0 <= i < back.len() implies !same(#[trigger] back[i]) by {
                assert(back[i] == output[p + i]);
                if same(back[i]) {
                    T::rank_transitive(back[i], y, x);
                }
            }
            lemma_filter_none(back, same);
            assert(ties(o, y) =~= ties(output, y).push(x));
        } else {
            assert(ties(o, y) =~= ties(output, y));
        }
    }
}

proof fn lemma_filter_none<T>(s: Seq<T>, p: spec_fn(T) -> bool)
    requires
        forall|i: int| 0 <= i < s.len() ==> !p(#[trigger] s[i]),
    ensures
        s.filter(p) == Seq::<T>::empty(),
    decreases s.len(),
{
    reveal(Seq::filter);
    if s.len() > 0 {
        lemma_filter_none(s.drop_last(), p);
    }
}

/// The place of `x` in a sorted sequence, behind all of at most its rank.
spec fn place<T: Ranked>(s: Seq<T>, x: T) -> int
    decreases s.len(),
{
    if s.len() == 0 || T::rank_le(s.last(), x) {
        s.len() as int
    } else {
        place(s.drop_last(), x)
    }
}

proof fn lemma_place<T: Ranked>(s: Seq<T>, x: T)
    requires
        is_sorted(s),
    ensures
        0 <= place(s, x) <= s.len(),
        forall|i: int| 0 <= i < place(s, x) ==> T::rank_le(#[trigger] s[i], x),
        forall|i: int| place(s, x) <= i < s.len() ==> !T::rank_le(#[trigger] s[i], x),
    decreases s.len(),
{
    if s.len() == 0 {
    } else if T::rank_le(s.last(), x) {
        assert forall|i: int| 0 <= i < s.len() implies T::rank_le(#[trigger] s[i], x) by {
            assert(T::rank_le(s[i], s[s.len() - 1]));
            T::rank_transitive(s[i], s.last(), x);
        }
    } else {
        let t = s.drop_last();
        assert forall|i: int, j: int| 0 <= i <= j < t.len() implies T::rank_le(
            #[trigger] t[i],
            #[trigger] t[j],
        ) by {
            assert(T::rank_le(s[i], s[j]));
        }
        lemma_place(t, x);
        assert forall|i: int| 0 <= i < place(s, x) implies T::rank_le(#[trigger] s[i], x) by {
            assert(t[i] == s[i]);
        }
        assert forall|i: int| place(s, x) <= i < s.len() implies !T::rank_le(
            #[trigger] s[i],
            x,
        ) by {
            if i < t.len() {
                assert(t[i] == s[i]);
            }
        }
    }
}

// --- Laws ---

/// Every sequence has a stable sort, and `stable_sorted` is one.
pub proof fn lemma_stable_sort_exists<T: Ranked>(s: Seq<T>)
    ensures
        is_stable_sort(s, stable_sorted(s)),
    decreases s.len(),
{
    if s.len() == 0 {
        assert(is_stable_sort(s, s));
    } else {
        lemma_stable_sort_exists(s.drop_last());
        let o = stable_sorted(s.drop_last());
        lemma_place(o, s.last());
        lemma_insert_keeps_sort(s.drop_last(), o, place(o, s.last()), s.last());
        assert(s.drop_last().push(s.last()) =~= s);
    }
}

proof fn lemma_ties_member<T: Ranked>(s: Seq<T>, x: T)
    ensures
        ties(s, x).contains(x) <==> s.contains(x),
        ties(s, x).len() > 0 ==> exists|i: int| 0 <= i < s.len() && #[trigger] s[i] == ties(s, x)[0]
            && same_rank(x, s[i]),
{
    broadcast use vstd::seq_lib::group_filter_ensures;

    T::rank_total(x, x);
    let p = |y: T| same_rank(x, y);
    if s.contains(x) {
        let i = choose|i: int| 0 <= i < s.len() && s[i] == x;
        assert(p(s[i]));
        s.lemma_filter_contains(p, i);
    }
    if ties(s, x).contains(x) {
        s.lemma_filter_contains_rev(p, x);
    }
    if ties(s, x).len() > 0 {
        let y = ties(s, x)[0];
        assert(s.filter(p).contains(y));
        s.lemma_filter_contains_rev(p, y);
        s.lemma_filter_pred(p, 0);
        let i = choose|i: int| 0 <= i < s.len() && s[i] == y;
        assert(s[i] == y && same_rank(x, s[i]));
    }
}

proof fn lemma_ties_first<T: Ranked>(s: Seq<T>, x: T)
    requires
        s.len() > 0,
    ensures
        same_rank(x, s[0]) ==> ties(s, x) == seq![s[0]] + ties(s.drop_first(), x),
        !same_rank(x, s[0]) ==> ties(s, x) == ties(s.drop_first(), x),
{
    let p = |y: T| same_rank(x, y);
    let head = seq![s[0]];
    assert(s =~= head + s.drop_first());
    Seq::filter_distributes_over_add(head, s.drop_first(), p);
    reveal_with_fuel(Seq::filter, 2);
    assert(head.drop_last() =~= Seq::<T>::empty());
    if same_rank(x, s[0]) {
        assert(head.filter(p) =~= head);
    } else {
        assert(head.filter(p) =~= Seq::<T>::empty());
        assert(Seq::<T>::empty() + s.drop_first().filter(p) =~= s.drop_first().filter(p));
    }
}

/// A sequence has one stable sort only.
pub proof fn lemma_stable_sort_unique<T: Ranked>(s: Seq<T>, a: Seq<T>, b: Seq<T>)
    requires
        is_stable_sort(s, a),
        is_stable_sort(s, b),
    ensures
        a == b,
{
    assert forall|x: T| #[trigger] ties(a, x) == ties(b, x) by {
        assert(ties(a, x) == ties(s, x));
        assert(ties(b, x) == ties(s, x));
    }
    lemma_sorted_by_ties(a, b);
}

proof fn lemma_sorted_by_ties<T: Ranked>(a: Seq<T>, b: Seq<T>)
    requires
        is_sorted(a),
        is_sorted(b),
        forall|x: T| #[trigger] ties(a, x) == ties(b, x),
    ensures
        a == b,
    decreases a.len(),
{
    if a.len() == 0 {
        if b.len() > 0 {
            lemma_ties_member(b, b[0]);
            lemma_ties_member(a, b[0]);
            assert(ties(a, b[0]) == ties(b, b[0]));
            assert(b.contains(b[0]));
            assert(false);
        }
        assert(a =~= b);
    } else {
        let x = a[0];
        lemma_ties_member(a, x);
        lemma_ties_member(b, x);
        assert(a.contains(x));
        assert(ties(a, x) == ties(b, x));
        assert(b.contains(x));
        let y = b[0];
        lemma_ties_member(a, y);
        lemma_ties_member(b, y);
        assert(b.contains(y));
        assert(ties(a, y) == ties(b, y));
        assert(a.contains(y));
        let i = choose|i: int| 0 <= i < a.len() && a[i] == y;
        assert(T::rank_le(a[0], a[i]));
        let j = choose|j: int| 0 <= j < b.len() && b[j] == x;
        assert(T::rank_le(b[0], b[j]));
        assert(same_rank(x, y));
        T::rank_total(x, x);
        lemma_ties_first(a, x);
        lemma_ties_first(b, x);
        assert((seq![a[0]] + ties(a.drop_first(), x))[0] == x);
        assert((seq![b[0]] + ties(b.drop_first(), x))[0] == y);
        assert(x == y);
        let at = a.drop_first();
        let bt = b.drop_first();
        assert forall|z: T| #[trigger] ties(at, z) == ties(bt, z) by {
            assert(ties(a, z) == ties(b, z));
            lemma_ties_first(a, z);
            lemma_ties_first(b, z);
            if same_rank(z, x) {
                assert(ties(a, z).drop_first() =~= ties(at, z));
                assert(ties(b, z).drop_first() =~= ties(bt, z));
            }
        }
        assert(is_sorted(at)) by {
            assert forall|k: int, l: int| 0 <= k <= l < at.len() implies T::rank_le(
                #[trigger] at[k],
                #[trigger] at[l],
            ) by {
                assert(T::rank_le(a[k + 1], a[l + 1]));
            }
        }
        assert(is_sorted(bt)) by {
            assert forall|k: int, l: int| 0 <= k <= l < bt.len() implies T::rank_le(
                #[trigger] bt[k],
                #[trigger] bt[l],
            ) by {
                assert(T::rank_le(b[k + 1], b[l + 1]));
            }
        }
        lemma_sorted_by_ties(at, bt);
        assert(a =~= seq![x] + at);
        assert(b =~= seq![y] + bt);
    }
}

/// Sorting neither adds nor loses a value.
pub proof fn lemma_stable_sort_multiset<T: Ranked>(s: Seq<T>)
    ensures
        stable_sorted(s).to_multiset() == s.to_multiset(),
        stable_sorted(s).len() == s.len(),
    decreases s.len(),
{
    broadcast use vstd::seq_lib::group_to_multiset_ensures;

    lemma_stable_sort_exists(s);
    if s.len() == 0 {
        assert(is_stable_sort(s, s));
        lemma_stable_sort_unique(s, stable_sorted(s), s);
    } else {
        let t = s.drop_last();
        lemma_stable_sort_exists(t);
        lemma_stable_sort_multiset(t);
        let o = stable_sorted(t);
        lemma_place(o, s.last());
        lemma_insert_keeps_sort(t, o, place(o, s.last()), s.last());
        assert(t.push(s.last()) =~= s);
        lemma_stable_sort_unique(s, stable_sorted(s), o.insert(place(o, s.last()), s.last()));
        assert(s.to_multiset() =~= t.to_multiset().insert(s.last()));
    }
}

proof fn lemma_sorted_by_insertion<T: Ranked>(s: Seq<T>)
    requires
        s.len() > 0,
    ensures
        ({
            let front = stable_sorted(s.drop_last());
            &&& 0 <= place(front, s.last()) <= front.len()
            &&& stable_sorted(s) == front.insert(place(front, s.last()), s.last())
        }),
{
    let front = stable_sorted(s.drop_last());
    lemma_stable_sort_exists(s);
    lemma_stable_sort_exists(s.drop_last());
    lemma_place(front, s.last());
    lemma_insert_keeps_sort(s.drop_last(), front, place(front, s.last()), s.last());
    assert(s.drop_last().push(s.last()) =~= s);
    lemma_stable_sort_unique(
        s,
        stable_sorted(s),
        front.insert(place(front, s.last()), s.last()),
    );
}

/// A relation between values that tells nothing of their ranks apart.
pub open spec fn keeps_ranks<T: Ranked>(related: spec_fn(T, T) -> bool) -> bool {
    forall|a: T, b: T, x: T, y: T|
        #![trigger related(a, x), related(b, y)]
        related(a, x) && related(b, y) ==> T::rank_le(a, b) == T::rank_le(x, y)
}

/// Each value of `s` is related to the value at the same place in `t`.
pub open spec fn related_by_place<T>(related: spec_fn(T, T) -> bool, s: Seq<T>, t: Seq<T>) -> bool {
    &&& s.len() == t.len()
    &&& forall|i: int| 0 <= i < s.len() ==> related(#[trigger] s[i], t[i])
}

proof fn lemma_place_by_rank<T: Ranked>(
    related: spec_fn(T, T) -> bool,
    s: Seq<T>,
    t: Seq<T>,
    x: T,
    y: T,
)
    requires
        keeps_ranks(related),
        related_by_place(related, s, t),
        related(x, y),
    ensures
        place(s, x) == place(t, y),
    decreases s.len(),
{
    if s.len() > 0 {
        assert(related(s[s.len() - 1], t[t.len() - 1]));
        assert(T::rank_le(s.last(), x) == T::rank_le(t.last(), y));
        assert forall|i: int| 0 <= i < s.len() - 1 implies related(
            #[trigger] s.drop_last()[i],
            t.drop_last()[i],
        ) by {
            assert(related(s[i], t[i]));
        }
        lemma_place_by_rank(related, s.drop_last(), t.drop_last(), x, y);
    }
}

/// Sorting goes by ranks alone: values that are related place by place, by a relation
/// that keeps ranks, are so after sorting too.
pub proof fn lemma_stable_sort_by_rank<T: Ranked>(
    related: spec_fn(T, T) -> bool,
    s: Seq<T>,
    t: Seq<T>,
)
    requires
        keeps_ranks(related),
        related_by_place(related, s, t),
    ensures
        related_by_place(related, stable_sorted(s), stable_sorted(t)),
    decreases s.len(),
{
    lemma_stable_sort_multiset(s);
    lemma_stable_sort_multiset(t);
    if s.len() > 0 {
        let sf = s.drop_last();
        let tf = t.drop_last();
        assert forall|i: int| 0 <= i < sf.len() implies related(#[trigger] sf[i], tf[i]) by {
            assert(related(s[i], t[i]));
        }
        lemma_stable_sort_by_rank(related, sf, tf);
        lemma_sorted_by_insertion(s);
        lemma_sorted_by_insertion(t);
        assert(related(s[s.len() - 1], t[t.len() - 1]));
        let so = stable_sorted(sf);
        let to = stable_sorted(tf);
        lemma_place_by_rank(related, so, to, s.last(), t.last());
        let p = place(so, s.last());
        let sa = stable_sorted(s);
        let ta = stable_sorted(t);
        assert forall|i: int| 0 <= i < sa.len() implies related(#[trigger] sa[i], ta[i]) by {
            if i < p {
                assert(sa[i] == so[i] && ta[i] == to[i]);
            } else if i > p {
                assert(sa[i] == so[i - 1] && ta[i] == to[i - 1]);
            }
        }
    }
}

/// `perm` lists the places of `s` by rank, places of one rank in ascending order.
pub open spec fn lists_by_rank<T: Ranked>(s: Seq<T>, perm: Seq<int>) -> bool {
    &&& perm.len() == s.len()
    &&& forall|i: int| 0 <= i < perm.len() ==> 0 <= #[trigger] perm[i] < s.len()
    &&& forall|i: int, j: int|
        0 <= i < j < perm.len() ==> {
            &&& #[trigger] perm[i] != #[trigger] perm[j]
            &&& T::rank_le(s[perm[i]], s[perm[j]])
            &&& T::rank_le(s[perm[j]], s[perm[i]]) ==> perm[i] < perm[j]
        }
}

/// A stable sort shows the values of each place once, by rank, and those of one rank in
/// the order of their places.
pub proof fn lemma_stable_sort_lists<T: Ranked>(s: Seq<T>) -> (perm: Seq<int>)
    ensures
        stable_sorted(s).len() == s.len(),
        lists_by_rank(s, perm),
        forall|i: int| 0 <= i < s.len() ==> #[trigger] stable_sorted(s)[i] == s[perm[i]],
        forall|k: int| 0 <= k < s.len() ==> #[trigger] perm.contains(k),
    decreases s.len(),
{
    lemma_stable_sort_multiset(s);
    if s.len() == 0 {
        Seq::empty()
    } else {
        let front = s.drop_last();
        let x = s.last();
        let last = s.len() - 1;
        let before = lemma_stable_sort_lists(front);
        lemma_sorted_by_insertion(s);
        lemma_stable_sort_exists(front);
        let o = stable_sorted(front);
        lemma_place(o, x);
        let p = place(o, x);
        let perm = before.insert(p, last);
        assert forall|i: int| 0 <= i < perm.len() implies 0 <= #[trigger] perm[i] < s.len() by {
            if i < p {
                assert(perm[i] == before[i]);
            } else if i > p {
                assert(perm[i] == before[i - 1]);
            }
        }
        assert forall|i: int| 0 <= i < s.len() implies #[trigger] stable_sorted(s)[i]
            == s[perm[i]] by {
            if i < p {
                assert(perm[i] == before[i]);
                assert(o[i] == front[before[i]]);
            } else if i > p {
                assert(perm[i] == before[i - 1]);
                assert(o[i - 1] == front[before[i - 1]]);
            }
        }
        assert forall|i: int, j: int| 0 <= i < j < perm.len() implies {
            &&& #[trigger] perm[i] != #[trigger] perm[j]
            &&& T::rank_le(s[perm[i]], s[perm[j]])
            &&& T::rank_le(s[perm[j]], s[perm[i]]) ==> perm[i] < perm[j]
        } by {
            let a = if i < p {
                i
            } else {
                i - 1
            };
            let b = if j < p {
                j
            } else {
                j - 1
            };
            if i == p {
                assert(perm[j] == before[b]);
                assert(o[b] == front[before[b]]);
                assert(!T::rank_le(o[b], x));
                T::rank_total(o[b], x);
            } else if j == p {
                assert(perm[i] == before[a]);
                assert(o[a] == front[before[a]]);
                assert(T::rank_le(o[a], x));
            } else {
                assert(perm[i] == before[a] && perm[j] == before[b]);
                assert(front[before[a]] == s[before[a]] && front[before[b]] == s[before[b]]);
            }
        }
        assert forall|k: int| 0 <= k < s.len() implies #[trigger] perm.contains(k) by {
            if k == last {
                assert(perm[p] == k);
            } else {
                assert(before.contains(k));
                let i = choose|i: int| 0 <= i < before.len() && before[i] == k;
                if i < p {
                    assert(perm[i] == k);
                } else {
                    assert(perm[i + 1] == k);
                }
            }
        }
        perm
    }
}

// --- Sorting ---

/// Sorts `v` by ascending rank; values of one rank keep their order.
pub fn stable_sort<T: Rankable>(v: Vec<T>) -> (r: Vec<T>) where <T as DeepView>::V: Ranked
    ensures
        is_stable_sort(v.deep_view(), r.deep_view()),
        r.deep_view() == stable_sorted(v.deep_view()),
{
    let ghost all = v.deep_view();
    let mut out: Vec<T> = Vec::new();
    assert(out.deep_view() =~= all.take(0));
    assert(is_stable_sort(all.take(0), out.deep_view()));
    for x in it: v
        invariant
            it.seq() == v@,
            all == v.deep_view(),
            is_stable_sort(all.take(it.index()), out.deep_view()),
    {
        let ghost before = out.deep_view();
        let mut p: usize = out.len();
        while p > 0 && !out[p - 1].rank_at_most(&x)
            invariant
                p <= out@.len(),
                before == out.deep_view(),
                forall|i: int|
                    p <= i < before.len() ==> !<T as DeepView>::V::rank_le(
                        #[trigger] before[i],
                        x.deep_view(),
                    ),
            decreases p,
        {
            assert(before[p - 1] == out@[p - 1].deep_view());
            p = p - 1;
        }
        proof {
            assert(is_sorted(before));
            assert forall|i: int| 0 <= i < p implies <T as DeepView>::V::rank_le(
                #[trigger] before[i],
                x.deep_view(),
            ) by {
                assert(before[p - 1] == out@[p - 1].deep_view());
                assert(<T as DeepView>::V::rank_le(before[i], before[p - 1]));
                <T as DeepView>::V::rank_transitive(before[i], before[p - 1], x.deep_view());
            }
            lemma_insert_keeps_sort(all.take(it.index()), before, p as int, x.deep_view());
            assert(all.take(it.index() + 1) =~= all.take(it.index()).push(x.deep_view()));
        }
        out.insert(p, x);
        assert(out.deep_view() =~= before.insert(p as int, x.deep_view()));
    }
    proof {
        assert(all.take(all.len() as int) =~= all);
        lemma_stable_sort_exists(all);
        lemma_stable_sort_unique(all, stable_sorted(all), out.deep_view());
    }
    out
}

/// What comes out of a sort is what went in, each place once, by rank, and of one rank
/// in the order of the places.
pub proof fn lemma_stable_sort_of<T: Rankable>(v: Vec<T>, r: Vec<T>) -> (perm: Seq<int>) where
    <T as DeepView>::V: Ranked,

    requires
        call_ensures(stable_sort::<T>, (v,), r),
    ensures
        r.deep_view().len() == v.deep_view().len(),
        lists_by_rank(v.deep_view(), perm),
        forall|i: int|
            0 <= i < perm.len() ==> #[trigger] r.deep_view()[i] == v.deep_view()[perm[i]],
        forall|k: int| 0 <= k < v.deep_view().len() ==> #[trigger] perm.contains(k),
{
    lemma_stable_sort_lists(v.deep_view())
}

}
