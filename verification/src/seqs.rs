//! Searching and stable ordering of sequences, as specifications with their
//! lemmas, and the executable sort that the store's listings use.

use vstd::prelude::*;

verus! {

/// The index of the first element of `s` that satisfies `p`, or the length
/// of `s` if none does.
pub open spec fn first_index<T>(s: Seq<T>, p: spec_fn(T) -> bool) -> int
    decreases s.len(),
{
    if s.len() == 0 {
        0
    } else {
        let before = first_index(s.drop_last(), p);
        if before < s.len() - 1 {
            before
        } else if p(s.last()) {
            s.len() - 1
        } else {
            s.len() as int
        }
    }
}

/// The first element of `s` that satisfies `p`.
pub open spec fn find_first<T>(s: Seq<T>, p: spec_fn(T) -> bool) -> Option<T> {
    let i = first_index(s, p);
    if i < s.len() {
        Some(s[i])
    } else {
        None
    }
}

/// `first_index` is in range, nothing before it satisfies `p`, and the
/// element at it does.
pub proof fn lemma_first_index<T>(s: Seq<T>, p: spec_fn(T) -> bool)
    ensures
        0 <= first_index(s, p) <= s.len(),
        forall|j: int| 0 <= j < first_index(s, p) ==> !p(#[trigger] s[j]),
        first_index(s, p) < s.len() ==> p(s[first_index(s, p)]),
    decreases s.len(),
{
    if s.len() > 0 {
        lemma_first_index(s.drop_last(), p);
        let before = first_index(s.drop_last(), p);
        assert forall|j: int| 0 <= j < first_index(s, p) implies !p(#[trigger] s[j]) by {
            if j < s.len() - 1 {
                assert(s[j] == s.drop_last()[j]);
            }
        }
        if before < s.len() - 1 {
            assert(s[before] == s.drop_last()[before]);
        }
    }
}

/// An index with nothing satisfying `p` before it, and `p` at it unless it
/// is the length, is `first_index`.
pub proof fn lemma_first_index_is<T>(s: Seq<T>, p: spec_fn(T) -> bool, i: int)
    requires
        0 <= i <= s.len(),
        forall|j: int| 0 <= j < i ==> !p(#[trigger] s[j]),
        i < s.len() ==> p(s[i]),
    ensures
        first_index(s, p) == i,
{
    lemma_first_index(s, p);
    let f = first_index(s, p);
    if f < i {
        assert(!p(s[f]));
    } else if i < f {
        assert(!p(s[i]));
    }
}

/// `find_first` is `None` exactly when no element of `s` satisfies `p`.
pub proof fn lemma_find_first_none<T>(s: Seq<T>, p: spec_fn(T) -> bool)
    ensures
        find_first(s, p) is None <==> forall|j: int| 0 <= j < s.len() ==> !p(#[trigger] s[j]),
{
    lemma_first_index(s, p);
    if find_first(s, p) is Some {
        assert(p(s[first_index(s, p)]));
    }
}

/// Extending a sequence keeps an earlier first match.
pub proof fn lemma_first_index_push<T>(s: Seq<T>, x: T, p: spec_fn(T) -> bool)
    ensures
        first_index(s.push(x), p) == (if first_index(s, p) < s.len() {
            first_index(s, p)
        } else if p(x) {
            s.len() as int
        } else {
            s.len() as int + 1
        }),
{
    assert(s.push(x).drop_last() =~= s);
}

/// What the search for a first match finds in an extended sequence.
pub proof fn lemma_find_first_push<T>(s: Seq<T>, x: T, p: spec_fn(T) -> bool)
    ensures
        find_first(s.push(x), p) == (if find_first(s, p) is Some {
            find_first(s, p)
        } else if p(x) {
            Some(x)
        } else {
            None
        }),
{
    lemma_first_index_push(s, x, p);
    lemma_first_index(s, p);
}

/// Whether no two elements of `s` have the same `key`.
pub open spec fn distinct_by<T, K>(s: Seq<T>, key: spec_fn(T) -> K) -> bool {
    forall|i: int, j: int| 0 <= i < j < s.len() ==> key(#[trigger] s[i]) != key(#[trigger] s[j])
}

/// Filtering keeps keys distinct.
pub proof fn lemma_filter_distinct<T, K>(s: Seq<T>, p: spec_fn(T) -> bool, key: spec_fn(T) -> K)
    requires
        distinct_by(s, key),
    ensures
        distinct_by(s.filter(p), key),
    decreases s.len(),
{
    reveal(Seq::filter);
    if s.len() > 0 {
        let front = s.drop_last();
        assert(distinct_by(front, key)) by {
            assert forall|i: int, j: int| 0 <= i < j < front.len() implies key(
                #[trigger] front[i],
            ) != key(#[trigger] front[j]) by {
                assert(front[i] == s[i] && front[j] == s[j]);
            }
        }
        lemma_filter_distinct(front, p, key);
        let kept = front.filter(p);
        if p(s.last()) {
            let r = s.filter(p);
            assert(r =~= kept.push(s.last()));
            assert forall|i: int, j: int| 0 <= i < j < r.len() implies key(#[trigger] r[i]) != key(
                #[trigger] r[j],
            ) by {
                if j == r.len() - 1 {
                    lemma_filter_member(front, p, kept[i]);
                    let k = choose|k: int| 0 <= k < front.len() && front[k] == kept[i];
                    assert(s[k] == kept[i]);
                    assert(key(s[k]) != key(s[s.len() - 1]));
                } else {
                    assert(r[i] == kept[i] && r[j] == kept[j]);
                }
            }
        }
    }
}

/// The elements of `s.filter(p)` are the elements of `s` that satisfy `p`.
pub proof fn lemma_filter_member<T>(s: Seq<T>, p: spec_fn(T) -> bool, x: T)
    ensures
        s.filter(p).contains(x) <==> s.contains(x) && p(x),
    decreases s.len(),
{
    reveal(Seq::filter);
    if s.len() > 0 {
        let front = s.drop_last();
        lemma_filter_member(front, p, x);
        let kept = front.filter(p);
        if s.filter(p).contains(x) {
            let i = choose|i: int| 0 <= i < s.filter(p).len() && s.filter(p)[i] == x;
            if p(s.last()) && i == kept.len() {
                assert(s[s.len() - 1] == x);
            } else {
                assert(kept[i] == x);
                let k = choose|k: int| 0 <= k < front.len() && front[k] == x;
                assert(s[k] == x);
            }
        }
        if s.contains(x) && p(x) {
            let k = choose|k: int| 0 <= k < s.len() && s[k] == x;
            if k == s.len() - 1 {
                assert(s.filter(p)[kept.len() as int] == x);
            } else {
                assert(front[k] == x);
                let i = choose|i: int| 0 <= i < kept.len() && kept[i] == x;
                assert(s.filter(p)[i] == x);
            }
        }
    }
}

/// Searching a filtered sequence for `q` finds what searching the whole
/// sequence for "`p` and `q`" finds.
pub proof fn lemma_find_first_filter<T>(s: Seq<T>, p: spec_fn(T) -> bool, q: spec_fn(T) -> bool)
    ensures
        find_first(s.filter(p), q) == find_first(s, |x: T| p(x) && q(x)),
    decreases s.len(),
{
    reveal(Seq::filter);
    let pq = |x: T| p(x) && q(x);
    if s.len() == 0 {
    } else {
        let front = s.drop_last();
        lemma_find_first_filter(front, p, q);
        assert(front.push(s.last()) =~= s);
        lemma_find_first_push(front, s.last(), pq);
        if p(s.last()) {
            assert(s.filter(p) =~= front.filter(p).push(s.last()));
            lemma_find_first_push(front.filter(p), s.last(), q);
        }
    }
}

/// Where the first match of `q` in `s` satisfies `p`, filtering by `p`
/// leaves the search for `q` as it was.
pub proof fn lemma_find_first_kept<T>(s: Seq<T>, p: spec_fn(T) -> bool, q: spec_fn(T) -> bool)
    requires
        find_first(s, q) matches Some(x) && p(x),
    ensures
        find_first(s.filter(p), q) == find_first(s, q),
{
    let pq = |x: T| p(x) && q(x);
    lemma_find_first_filter(s, p, q);
    lemma_first_index(s, q);
    let k = first_index(s, q);
    assert forall|j: int| 0 <= j < k implies !pq(#[trigger] s[j]) by {
        assert(!q(s[j]));
    }
    assert(pq(s[k]));
    lemma_first_index_is(s, pq, k);
}

/// Where nothing that satisfies `q` satisfies `p`, the search for `q` finds
/// nothing among what `p` keeps.
pub proof fn lemma_find_first_dropped<T>(s: Seq<T>, p: spec_fn(T) -> bool, q: spec_fn(T) -> bool)
    requires
        forall|x: T| #[trigger] q(x) ==> !p(x),
    ensures
        find_first(s.filter(p), q) is None,
{
    let pq = |x: T| p(x) && q(x);
    lemma_find_first_filter(s, p, q);
    assert forall|j: int| 0 <= j < s.len() implies !pq(#[trigger] s[j]) by {
        if q(s[j]) {
            assert(!p(s[j]));
        }
    }
    lemma_find_first_none(s, pq);
}

/// Where no element satisfies `p`, filtering by `p` leaves nothing.
pub proof fn lemma_filter_none<T>(s: Seq<T>, p: spec_fn(T) -> bool)
    requires
        forall|j: int| 0 <= j < s.len() ==> !p(#[trigger] s[j]),
    ensures
        s.filter(p) == Seq::<T>::empty(),
{
    let kept = s.filter(p);
    if kept.len() > 0 {
        assert(kept.contains(kept[0]));
        lemma_filter_member(s, p, kept[0]);
        let k = choose|k: int| 0 <= k < s.len() && s[k] == kept[0];
        assert(!p(s[k]));
    }
    assert(kept =~= Seq::<T>::empty());
}

/// An element of `s.filter(p)` stands somewhere in `s` and satisfies `p`.
pub proof fn lemma_filter_origin<T>(s: Seq<T>, p: spec_fn(T) -> bool, i: int) -> (k: int)
    requires
        0 <= i < s.filter(p).len(),
    ensures
        0 <= k < s.len(),
        s[k] == s.filter(p)[i],
        p(s[k]),
{
    let kept = s.filter(p);
    assert(kept.contains(kept[i]));
    lemma_filter_member(s, p, kept[i]);
    choose|k: int| 0 <= k < s.len() && s[k] == kept[i]
}

/// Where every element satisfies `p`, filtering by `p` changes nothing.
pub proof fn lemma_filter_all<T>(s: Seq<T>, p: spec_fn(T) -> bool)
    requires
        forall|j: int| 0 <= j < s.len() ==> p(#[trigger] s[j]),
    ensures
        s.filter(p) == s,
    decreases s.len(),
{
    reveal(Seq::filter);
    if s.len() > 0 {
        let front = s.drop_last();
        assert forall|j: int| 0 <= j < front.len() implies p(#[trigger] front[j]) by {
            assert(front[j] == s[j]);
        }
        lemma_filter_all(front, p);
        assert(front.push(s.last()) =~= s);
    }
}

/// The predicate "ranks above `bound`" under `rank`.
pub open spec fn above<T>(rank: spec_fn(T) -> int, bound: int) -> spec_fn(T) -> bool {
    |x: T| rank(x) > bound
}

/// Whether `s` ascends, not strictly, under `rank`.
pub open spec fn ascending<T>(s: Seq<T>, rank: spec_fn(T) -> int) -> bool {
    forall|i: int, j: int| 0 <= i < j < s.len() ==> rank(#[trigger] s[i]) <= rank(#[trigger] s[j])
}

/// `s` with `x` put behind every element that does not rank above it.
pub open spec fn insert_ranked<T>(s: Seq<T>, x: T, rank: spec_fn(T) -> int) -> Seq<T> {
    s.insert(first_index(s, above(rank, rank(x))), x)
}

/// `s` in ascending order of `rank`; elements of equal rank keep the order
/// they have in `s`.
pub open spec fn sort_by_rank<T>(s: Seq<T>, rank: spec_fn(T) -> int) -> Seq<T>
    decreases s.len(),
{
    if s.len() == 0 {
        s
    } else {
        insert_ranked(sort_by_rank(s.drop_last(), rank), s.last(), rank)
    }
}

/// Inserting by rank keeps an ascending sequence ascending, and adds `x`
/// and nothing else.
pub proof fn lemma_insert_ranked<T>(s: Seq<T>, x: T, rank: spec_fn(T) -> int)
    requires
        ascending(s, rank),
    ensures
        ascending(insert_ranked(s, x, rank), rank),
        insert_ranked(s, x, rank).len() == s.len() + 1,
        insert_ranked(s, x, rank).to_multiset() == s.to_multiset().insert(x),
{
    let p = above(rank, rank(x));
    let i = first_index(s, p);
    lemma_first_index(s, p);
    let r = s.insert(i, x);
    assert forall|a: int, b: int| 0 <= a < b < r.len() implies rank(#[trigger] r[a]) <= rank(
        #[trigger] r[b],
    ) by {
        if b == i {
            assert(r[a] == s[a]);
            assert(!p(s[a]));
        } else if a == i {
            assert(r[b] == s[b - 1]);
            if b - 1 > i {
                assert(rank(s[i]) <= rank(s[b - 1]));
            }
            assert(p(s[i]));
        } else {
            let a0 = if a < i { a } else { a - 1 };
            let b0 = if b < i { b } else { b - 1 };
            assert(r[a] == s[a0]);
            assert(r[b] == s[b0]);
        }
    }
    s.to_multiset_ensures();
    vstd::seq_lib::to_multiset_insert(s, i, x);
}

/// `sort_by_rank` ascends and is a rearrangement of its argument.
pub proof fn lemma_sort_by_rank<T>(s: Seq<T>, rank: spec_fn(T) -> int)
    ensures
        ascending(sort_by_rank(s, rank), rank),
        sort_by_rank(s, rank).len() == s.len(),
        sort_by_rank(s, rank).to_multiset() == s.to_multiset(),
    decreases s.len(),
{
    if s.len() > 0 {
        let front = s.drop_last();
        lemma_sort_by_rank(front, rank);
        lemma_insert_ranked(sort_by_rank(front, rank), s.last(), rank);
        assert(front.push(s.last()) =~= s);
        front.to_multiset_ensures();
    }
}

/// Sorting keeps keys distinct.
pub proof fn lemma_sort_by_rank_distinct<T, K>(s: Seq<T>, rank: spec_fn(T) -> int, key: spec_fn(T) -> K)
    requires
        distinct_by(s, key),
    ensures
        distinct_by(sort_by_rank(s, rank), key),
    decreases s.len(),
{
    if s.len() > 0 {
        let front = s.drop_last();
        let x = s.last();
        assert(distinct_by(front, key)) by {
            assert forall|i: int, j: int| 0 <= i < j < front.len() implies key(
                #[trigger] front[i],
            ) != key(#[trigger] front[j]) by {
                assert(front[i] == s[i] && front[j] == s[j]);
            }
        }
        lemma_sort_by_rank_distinct(front, rank, key);
        let sorted = sort_by_rank(front, rank);
        let at = first_index(sorted, above(rank, rank(x)));
        lemma_first_index(sorted, above(rank, rank(x)));
        let r = sorted.insert(at, x);
        assert forall|k: int| 0 <= k < sorted.len() implies key(#[trigger] sorted[k]) != key(x) by {
            assert(sorted.contains(sorted[k]));
            lemma_sort_by_rank_contains(front, rank, sorted[k]);
            let o = choose|o: int| 0 <= o < front.len() && front[o] == sorted[k];
            assert(key(s[o]) != key(s[s.len() - 1]));
        }
        assert forall|i: int, j: int| 0 <= i < j < r.len() implies key(#[trigger] r[i]) != key(
            #[trigger] r[j],
        ) by {
            let i0 = if i < at { i } else { i - 1 };
            let j0 = if j < at { j } else { j - 1 };
            if i == at {
                assert(r[j] == sorted[j0]);
            } else if j == at {
                assert(r[i] == sorted[i0]);
            } else {
                assert(r[i] == sorted[i0] && r[j] == sorted[j0]);
            }
        }
    }
}

/// Sorting a sequence that ascends already changes nothing.
pub proof fn lemma_sort_by_rank_ascending<T>(s: Seq<T>, rank: spec_fn(T) -> int)
    requires
        ascending(s, rank),
    ensures
        sort_by_rank(s, rank) == s,
    decreases s.len(),
{
    if s.len() > 0 {
        let front = s.drop_last();
        let x = s.last();
        assert(ascending(front, rank)) by {
            assert forall|i: int, j: int| 0 <= i < j < front.len() implies rank(
                #[trigger] front[i],
            ) <= rank(#[trigger] front[j]) by {
                assert(front[i] == s[i] && front[j] == s[j]);
            }
        }
        lemma_sort_by_rank_ascending(front, rank);
        assert forall|j: int| 0 <= j < front.len() implies !above(rank, rank(x))(
            #[trigger] front[j],
        ) by {
            assert(rank(s[j]) <= rank(s[s.len() - 1]));
        }
        lemma_first_index_is(front, above(rank, rank(x)), front.len() as int);
        assert(front.insert(front.len() as int, x) =~= s);
    }
}

/// Sorting an extended sequence inserts the new element into the sorted
/// rest.
pub proof fn lemma_sort_by_rank_push<T>(s: Seq<T>, x: T, rank: spec_fn(T) -> int)
    ensures
        sort_by_rank(s.push(x), rank) == insert_ranked(sort_by_rank(s, rank), x, rank),
{
    assert(s.push(x).drop_last() =~= s);
}

/// Every element of `sort_by_rank(s)` is an element of `s`, and the other
/// way round.
pub proof fn lemma_sort_by_rank_contains<T>(s: Seq<T>, rank: spec_fn(T) -> int, x: T)
    ensures
        sort_by_rank(s, rank).contains(x) <==> s.contains(x),
{
    lemma_sort_by_rank(s, rank);
    let sorted = sort_by_rank(s, rank);
    s.to_multiset_ensures();
    sorted.to_multiset_ensures();
    assert(s.contains(x) <==> s.to_multiset().count(x) > 0);
    assert(sorted.contains(x) <==> sorted.to_multiset().count(x) > 0);
}

/// Mapping commutes with the search for a first match when the predicates
/// agree through the map.
pub proof fn lemma_first_index_map<T, U>(
    s: Seq<T>,
    f: spec_fn(T) -> U,
    p: spec_fn(T) -> bool,
    q: spec_fn(U) -> bool,
)
    requires
        forall|x: T| #[trigger] p(x) == q(f(x)),
    ensures
        first_index(s.map_values(f), q) == first_index(s, p),
{
    let m = s.map_values(f);
    lemma_first_index(s, p);
    let i = first_index(s, p);
    assert forall|j: int| 0 <= j < i implies !q(#[trigger] m[j]) by {
        assert(!p(s[j]));
    }
    if i < s.len() {
        assert(p(s[i]));
    }
    lemma_first_index_is(m, q, i);
}

/// Mapping commutes with sorting when the ranks agree through the map.
pub proof fn lemma_sort_by_rank_map<T, U>(
    s: Seq<T>,
    f: spec_fn(T) -> U,
    rank_t: spec_fn(T) -> int,
    rank_u: spec_fn(U) -> int,
)
    requires
        forall|x: T| #[trigger] rank_t(x) == rank_u(f(x)),
    ensures
        sort_by_rank(s.map_values(f), rank_u) == sort_by_rank(s, rank_t).map_values(f),
    decreases s.len(),
{
    let m = s.map_values(f);
    if s.len() == 0 {
        assert(sort_by_rank(m, rank_u) =~= sort_by_rank(s, rank_t).map_values(f));
    } else {
        let front = s.drop_last();
        lemma_sort_by_rank_map(front, f, rank_t, rank_u);
        assert(m.drop_last() =~= front.map_values(f));
        let sorted = sort_by_rank(front, rank_t);
        let x = s.last();
        assert(m.last() == f(x));
        let p = above(rank_t, rank_t(x));
        let q = above(rank_u, rank_u(f(x)));
        assert forall|y: T| #[trigger] p(y) == q(f(y)) by {
            assert(rank_t(y) == rank_u(f(y)));
        }
        lemma_first_index_map(sorted, f, p, q);
        lemma_first_index(sorted, p);
        assert(insert_ranked(sorted.map_values(f), f(x), rank_u) =~= insert_ranked(
            sorted,
            x,
            rank_t,
        ).map_values(f));
    }
}

/// A type whose values are listed in ascending order of an integer rank.
pub trait Ranked: Sized {
    /// The rank by which values are ordered.
    spec fn rank(&self) -> int;

    /// Whether `self` ranks strictly above `other`.
    fn outranks(&self, other: &Self) -> (above: bool)
        ensures
            above == (self.rank() > other.rank()),
    ;
}

/// The rank of a value, as a function.
pub open spec fn rank_of<T: Ranked>() -> spec_fn(T) -> int {
    |x: T| x.rank()
}

/// Sorts `items` by rank, keeping the order of items of equal rank.
pub fn sort_ranked<T: Ranked>(items: Vec<T>) -> (sorted: Vec<T>)
    ensures
        sorted@ == sort_by_rank(items@, rank_of::<T>()),
{
    let mut sorted: Vec<T> = Vec::new();
    let ghost source = items@;
    for x in it: items
        invariant
            it.seq() == source,
            sorted@ == sort_by_rank(source.take(it.index()), rank_of::<T>()),
    {
        let ghost done = source.take(it.index());
        let ghost before = sorted@;
        proof {
            lemma_sort_by_rank(done, rank_of::<T>());
        }
        let mut at: usize = sorted.len();
        while at > 0 && sorted[at - 1].outranks(&x)
            invariant
                at <= sorted.len(),
                sorted@ == before,
                forall|j: int| at <= j < sorted.len() ==> (#[trigger] sorted@[j]).rank() > x.rank(),
            decreases at,
        {
            at -= 1;
        }
        proof {
            let p = above(rank_of::<T>(), x.rank());
            assert forall|j: int| 0 <= j < at implies !p(#[trigger] before[j]) by {
                assert(rank_of::<T>()(before[j]) <= rank_of::<T>()(before[at - 1]));
            }
            if at < before.len() {
                assert(p(before[at as int]));
            }
            lemma_first_index_is(before, p, at as int);
            assert(source.take(it.index() + 1) =~= done.push(x));
            lemma_sort_by_rank_push(done, x, rank_of::<T>());
        }
        sorted.insert(at, x);
    }
    assert(source.take(source.len() as int) =~= source);
    sorted
}

/// The views of the elements of `s`.
pub open spec fn views<T: DeepView>(s: Seq<T>) -> Seq<T::V> {
    s.map_values(|x: T| x.deep_view())
}

/// The deep view of a vector is the views of its elements.
pub proof fn lemma_deep_view_is_views<T: DeepView>(v: Vec<T>)
    ensures
        v.deep_view() == views(v@),
{
    assert(v.deep_view() =~= views(v@));
}

/// Sorting values by their rank sorts their views by the rank of views,
/// where the two ranks agree.
pub proof fn lemma_sorted_views<T: Ranked + DeepView>(items: Seq<T>, rank: spec_fn(T::V) -> int)
    requires
        forall|x: T| #[trigger] x.rank() == rank(x.deep_view()),
    ensures
        views(sort_by_rank(items, rank_of::<T>())) == sort_by_rank(views(items), rank),
{
    let f = |x: T| x.deep_view();
    assert forall|x: T| #[trigger] rank_of::<T>()(x) == rank(f(x)) by {
        assert(x.rank() == rank(x.deep_view()));
    }
    lemma_sort_by_rank_map(items, f, rank_of::<T>(), rank);
}

} // verus!
