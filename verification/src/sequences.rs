//! Searching lists, and facts about sequences that the loops of the systems need.
use vstd::prelude::*;

verus! {

/// Taking one item more appends what the item maps to.
pub proof fn lemma_flat_map_step<A, B>(s: Seq<A>, f: spec_fn(A) -> Seq<B>, i: int)
    requires
        0 <= i < s.len(),
    ensures
        s.take(i + 1).flat_map(f) == s.take(i).flat_map(f) + f(s[i]),
{
    let short = s.take(i).map_values(f);
    let long = s.take(i + 1).map_values(f);
    short.lemma_flatten_and_flatten_alt_are_equivalent();
    long.lemma_flatten_and_flatten_alt_are_equivalent();
    assert(long.drop_last() =~= short);
    assert(long.last() == f(s[i]));
}

/// Taking nothing yields nothing; taking everything yields the whole.
pub proof fn lemma_flat_map_ends<A, B>(s: Seq<A>, f: spec_fn(A) -> Seq<B>)
    ensures
        s.take(0).flat_map(f) == Seq::<B>::empty(),
        s.take(s.len() as int).flat_map(f) == s.flat_map(f),
{
    assert(s.take(0).map_values(f) =~= Seq::<Seq<B>>::empty());
    assert(s.take(s.len() as int) =~= s);
}

/// What one item maps to stands between what the items before and after it map to.
pub proof fn lemma_flat_map_split<A, B>(s: Seq<A>, f: spec_fn(A) -> Seq<B>, i: int) -> (r: (
    Seq<B>,
    Seq<B>,
))
    requires
        0 <= i < s.len(),
    ensures
        s.flat_map(f) == r.0 + f(s[i]) + r.1,
        r.0 == s.take(i).flat_map(f),
        r.1 == s.skip(i + 1).flat_map(f),
{
    lemma_flat_map_step(s, f, i);
    let head = s.take(i + 1).map_values(f);
    let tail = s.skip(i + 1).map_values(f);
    lemma_flatten_add(head, tail);
    assert(s.map_values(f) =~= head + tail);
    (s.take(i).flat_map(f), s.skip(i + 1).flat_map(f))
}

/// What comes out of a mapped sequence comes out of one of its items.
pub proof fn lemma_flat_map_contains<A, B>(s: Seq<A>, f: spec_fn(A) -> Seq<B>, b: B)
    ensures
        s.flat_map(f).contains(b) <==> exists|i: int| 0 <= i < s.len() && #[trigger] f(s[i]).contains(b),
    decreases s.len(),
{
    lemma_flat_map_ends(s, f);
    if s.len() > 0 {
        let n: int = s.len() - 1;
        let init = s.take(n);
        lemma_flat_map_step(s, f, n);
        lemma_flat_map_contains(init, f, b);
        let head = init.flat_map(f);
        let tail = f(s[n]);
        let whole = s.flat_map(f);
        assert(whole == head + tail);
        assert(forall|i: int| 0 <= i < init.len() ==> init[i] == s[i]);
        if whole.contains(b) {
            let k = whole.index_of(b);
            if k < head.len() {
                assert(head[k] == b);
                assert(head.contains(b));
                let i = choose|i: int| 0 <= i < init.len() && #[trigger] f(init[i]).contains(b);
                assert(f(s[i]).contains(b));
            } else {
                assert(tail[k - head.len()] == b);
                assert(f(s[n]).contains(b));
            }
        }
        if exists|i: int| 0 <= i < s.len() && #[trigger] f(s[i]).contains(b) {
            let i = choose|i: int| 0 <= i < s.len() && #[trigger] f(s[i]).contains(b);
            if i < n {
                assert(f(init[i]).contains(b));
                let k = head.index_of(b);
                assert(whole[k] == b);
            } else {
                let k = tail.index_of(b);
                assert(whole[head.len() + k] == b);
            }
        }
    }
}

/// Where of each item it is known whether it maps to a value, so it is of the whole.
pub proof fn lemma_flat_map_where<A, B>(
    s: Seq<A>,
    f: spec_fn(A) -> Seq<B>,
    b: B,
    p: spec_fn(A) -> bool,
)
    requires
        forall|i: int| 0 <= i < s.len() ==> f(#[trigger] s[i]).contains(b) == p(s[i]),
    ensures
        s.flat_map(f).contains(b) <==> exists|i: int| 0 <= i < s.len() && p(#[trigger] s[i]),
{
    lemma_flat_map_contains(s, f, b);
    if s.flat_map(f).contains(b) {
        let i = choose|i: int| 0 <= i < s.len() && #[trigger] f(s[i]).contains(b);
        assert(p(s[i]));
    }
    if exists|i: int| 0 <= i < s.len() && p(#[trigger] s[i]) {
        let i = choose|i: int| 0 <= i < s.len() && p(#[trigger] s[i]);
        assert(f(s[i]).contains(b));
    }
}

/// Taking one item more filters one item more.
pub proof fn lemma_filter_step<A>(s: Seq<A>, p: spec_fn(A) -> bool, i: int)
    requires
        0 <= i < s.len(),
    ensures
        s.take(i + 1).filter(p) == if p(s[i]) {
            s.take(i).filter(p).push(s[i])
        } else {
            s.take(i).filter(p)
        },
{
    reveal(Seq::filter);
    assert(s.take(i + 1).drop_last() =~= s.take(i));
    assert(s.take(i + 1).last() == s[i]);
}

/// An item is kept by a filter where it was there and the predicate holds of it.
pub proof fn lemma_filter_contains<A>(s: Seq<A>, p: spec_fn(A) -> bool, a: A)
    ensures
        s.filter(p).contains(a) <==> s.contains(a) && p(a),
    decreases s.len(),
{
    reveal(Seq::filter);
    if s.len() > 0 {
        let init = s.drop_last();
        lemma_filter_contains(init, p, a);
        let kept = init.filter(p);
        assert(s =~= init.push(s.last()));
        if s.contains(a) {
            let k = s.index_of(a);
            if k < init.len() {
                assert(init[k] == a);
            }
        }
        if init.contains(a) {
            let k = init.index_of(a);
            assert(s[k] == a);
        }
        if p(s.last()) {
            let whole = kept.push(s.last());
            assert(whole[whole.len() - 1] == s.last());
            if kept.contains(a) {
                let k = kept.index_of(a);
                assert(whole[k] == a);
            }
            if whole.contains(a) {
                let k = whole.index_of(a);
                if k < kept.len() {
                    assert(kept[k] == a);
                }
            }
        }
        assert(s[s.len() - 1] == s.last());
    }
}

/// Filtering twice is filtering by both predicates.
pub proof fn lemma_filter_twice<A>(s: Seq<A>, p: spec_fn(A) -> bool, q: spec_fn(A) -> bool)
    ensures
        s.filter(p).filter(q) == s.filter(|a: A| p(a) && q(a)),
    decreases s.len(),
{
    reveal(Seq::filter);
    if s.len() > 0 {
        lemma_filter_twice(s.drop_last(), p, q);
        if p(s.last()) {
            let kept = s.drop_last().filter(p);
            assert(kept.push(s.last()).drop_last() =~= kept);
        }
    }
}

/// Predicates that agree on the items filter alike.
pub proof fn lemma_filter_same<A>(s: Seq<A>, p: spec_fn(A) -> bool, q: spec_fn(A) -> bool)
    requires
        forall|i: int| 0 <= i < s.len() ==> p(#[trigger] s[i]) == q(s[i]),
    ensures
        s.filter(p) == s.filter(q),
    decreases s.len(),
{
    reveal(Seq::filter);
    if s.len() > 0 {
        let init = s.drop_last();
        assert(forall|i: int| 0 <= i < init.len() ==> init[i] == s[i]);
        lemma_filter_same(init, p, q);
    }
}

/// A predicate that holds of every item keeps the sequence.
pub proof fn lemma_filter_all<A>(s: Seq<A>, p: spec_fn(A) -> bool)
    requires
        forall|i: int| 0 <= i < s.len() ==> p(#[trigger] s[i]),
    ensures
        s.filter(p) == s,
    decreases s.len(),
{
    reveal(Seq::filter);
    if s.len() > 0 {
        let init = s.drop_last();
        assert(forall|i: int| 0 <= i < init.len() ==> init[i] == s[i]);
        lemma_filter_all(init, p);
        assert(init.push(s.last()) =~= s);
    }
}

/// A filter keeps a sequence without repetitions free of them.
pub proof fn lemma_filter_no_duplicates<A>(s: Seq<A>, p: spec_fn(A) -> bool)
    requires
        s.no_duplicates(),
    ensures
        s.filter(p).no_duplicates(),
    decreases s.len(),
{
    reveal(Seq::filter);
    if s.len() > 0 {
        let init = s.drop_last();
        lemma_filter_no_duplicates(init, p);
        lemma_filter_contains(init, p, s.last());
        assert(!init.contains(s.last())) by {
            if init.contains(s.last()) {
                let k = init.index_of(s.last());
                assert(s[k] == s[s.len() - 1]);
            }
        }
        let kept = init.filter(p);
        assert forall|i: int, j: int|
            0 <= i < j < s.filter(p).len() implies s.filter(p)[i] != s.filter(p)[j] by {
            if p(s.last()) && j == kept.len() {
                assert(kept.contains(kept[i]));
            }
        }
    }
}

/// Taking one inner sequence more appends it.
pub proof fn lemma_flatten_step<A>(s: Seq<Seq<A>>, i: int)
    requires
        0 <= i < s.len(),
    ensures
        s.take(i + 1).flatten() == s.take(i).flatten() + s[i],
{
    s.take(i).lemma_flatten_and_flatten_alt_are_equivalent();
    s.take(i + 1).lemma_flatten_and_flatten_alt_are_equivalent();
    assert(s.take(i + 1).drop_last() =~= s.take(i));
    assert(s.take(i + 1).last() == s[i]);
}

/// Flattening ends with the last inner sequence.
pub proof fn lemma_flatten_push<A>(s: Seq<Seq<A>>, last: Seq<A>)
    ensures
        s.push(last).flatten() == s.flatten() + last,
{
    let whole = s.push(last);
    lemma_flatten_step(whole, s.len() as int);
    assert(whole.take(whole.len() as int) =~= whole);
    assert(whole.take(s.len() as int) =~= s);
}

/// Flattening two sequences of sequences is flattening the one and the other.
pub proof fn lemma_flatten_add<A>(s: Seq<Seq<A>>, t: Seq<Seq<A>>)
    ensures
        (s + t).flatten() == s.flatten() + t.flatten(),
    decreases t.len(),
{
    if t.len() == 0 {
        assert(s + t =~= s);
        assert(t.flatten() =~= Seq::<A>::empty());
        assert(s.flatten() + t.flatten() =~= s.flatten());
    } else {
        let init = t.drop_last();
        lemma_flatten_add(s, init);
        lemma_flatten_push(init, t.last());
        lemma_flatten_push(s + init, t.last());
        assert(t =~= init.push(t.last()));
        assert(s + t =~= (s + init).push(t.last()));
        assert(s.flatten() + t.flatten() =~= (s + init).flatten() + t.last());
    }
}

/// An item of a flattened sequence is an item of an inner one.
pub proof fn lemma_flatten_contains<A>(s: Seq<Seq<A>>, a: A)
    ensures
        s.flatten().contains(a) <==> exists|i: int| 0 <= i < s.len() && (#[trigger] s[i]).contains(a),
{
    let f = |c: Seq<A>| c;
    assert(s.map_values(f) =~= s);
    lemma_flat_map_contains(s, f, a);
    if exists|i: int| 0 <= i < s.len() && #[trigger] f(s[i]).contains(a) {
        let i = choose|i: int| 0 <= i < s.len() && #[trigger] f(s[i]).contains(a);
        assert(s[i].contains(a));
    }
    if exists|i: int| 0 <= i < s.len() && (#[trigger] s[i]).contains(a) {
        let i = choose|i: int| 0 <= i < s.len() && (#[trigger] s[i]).contains(a);
        assert(f(s[i]).contains(a));
    }
}

/// The first place where a predicate holds.
pub open spec fn first_where<A>(s: Seq<A>, p: spec_fn(A) -> bool) -> Option<int>
    decreases s.len(),
{
    if s.len() == 0 {
        None
    } else {
        match first_where(s.drop_last(), p) {
            Some(k) => Some(k),
            None => if p(s.last()) {
                Some(s.len() - 1)
            } else {
                None
            },
        }
    }
}

/// The predicate holds at the first place where it holds, and nowhere before.
pub proof fn lemma_first_where<A>(s: Seq<A>, p: spec_fn(A) -> bool)
    ensures
        match first_where(s, p) {
            Some(k) => {
                &&& 0 <= k < s.len()
                &&& p(s[k])
                &&& forall|j: int| 0 <= j < k ==> !p(#[trigger] s[j])
            },
            None => forall|j: int| 0 <= j < s.len() ==> !p(#[trigger] s[j]),
        },
    decreases s.len(),
{
    if s.len() > 0 {
        let init = s.drop_last();
        lemma_first_where(init, p);
        assert(forall|j: int| 0 <= j < init.len() ==> init[j] == s[j]);
    }
}

/// A place where the predicate holds, and before which it does not, is the first.
pub proof fn lemma_first_where_is<A>(s: Seq<A>, p: spec_fn(A) -> bool, k: int)
    requires
        0 <= k < s.len(),
        p(s[k]),
        forall|j: int| 0 <= j < k ==> !p(#[trigger] s[j]),
    ensures
        first_where(s, p) == Some(k),
{
    lemma_first_where(s, p);
    let found = first_where(s, p);
    if found is None {
        assert(!p(s[k]));
    } else if found->0 < k {
        assert(!p(s[found->0]));
    }
}

/// Where the predicate holds nowhere, there is no first place.
pub proof fn lemma_first_where_none<A>(s: Seq<A>, p: spec_fn(A) -> bool)
    requires
        forall|j: int| 0 <= j < s.len() ==> !p(#[trigger] s[j]),
    ensures
        first_where(s, p) is None,
{
    lemma_first_where(s, p);
}

/// Finds the first place where a predicate holds. `test` decides the predicate.
pub(crate) fn find_index<A, F: Fn(&A) -> bool>(
    list: &Vec<A>,
    test: F,
    Ghost(p): Ghost<spec_fn(A) -> bool>,
) -> (index: Option<usize>)
    requires
        forall|a: &A| #[trigger] call_requires(test, (a,)),
        forall|a: &A, r: bool| #[trigger] call_ensures(test, (a,), r) ==> r == p(*a),
    ensures
        match index {
            Some(k) => k < list@.len() && first_where(list@, p) == Some(k as int),
            None => first_where(list@, p) is None,
        },
{
    for i in 0..list.len()
        invariant
            forall|a: &A| #[trigger] call_requires(test, (a,)),
            forall|a: &A, r: bool| #[trigger] call_ensures(test, (a,), r) ==> r == p(*a),
            forall|j: int| 0 <= j < i ==> !p(#[trigger] list@[j]),
    {
        if test(&list[i]) {
            proof {
                lemma_first_where_is(list@, p, i as int);
            }
            return Some(i);
        }
    }
    proof {
        lemma_first_where_none(list@, p);
    }
    None
}

/// Whether a list holds an item. `test` tells whether an item is that one.
pub(crate) fn holds<A, F: Fn(&A) -> bool>(list: &Vec<A>, test: F, Ghost(item): Ghost<A>) -> (found:
    bool)
    requires
        forall|a: &A| #[trigger] call_requires(test, (a,)),
        forall|a: &A, r: bool| #[trigger] call_ensures(test, (a,), r) ==> r == (*a == item),
    ensures
        found == list@.contains(item),
{
    let ghost p = |a: A| a == item;
    let found = find_index(list, test, Ghost(p));
    proof {
        lemma_first_where(list@, p);
        if list@.contains(item) {
            assert(p(list@[list@.index_of(item)]));
        }
    }
    found.is_some()
}

} // verus!
