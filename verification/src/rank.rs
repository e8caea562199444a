//! Ordering of records: a total preorder per record type, and a stable sort by it.

use vstd::prelude::*;

verus! {

/// A record type with a total preorder: any two records compare, and the
/// comparison is transitive. Two different records may tie.
pub trait Ranked: Sized {
    /// `self` may stand before `other` in a sorted sequence.
    spec fn precedes(&self, other: &Self) -> bool;

    /// Decides `precedes`.
    fn stands_before(&self, other: &Self) -> (before: bool)
        ensures
            before == self.precedes(other),
    ;

    /// Any two records compare one way or the other.
    proof fn precedes_is_total(a: &Self, b: &Self)
        ensures
            a.precedes(b) || b.precedes(a),
    ;

    /// The comparison is transitive.
    proof fn precedes_is_transitive(a: &Self, b: &Self, c: &Self)
        requires
            a.precedes(b),
            b.precedes(c),
        ensures
            a.precedes(c),
    ;
}

/// Every element may stand before every later one.
pub open spec fn ordered<T: Ranked>(s: Seq<T>) -> bool {
    forall|i: int, j: int| #![trigger s[i], s[j]] 0 <= i < j < s.len() ==> s[i].precedes(&s[j])
}

/// Two records tie: each may stand before the other.
pub open spec fn ties<T: Ranked>(a: T, b: T) -> bool {
    a.precedes(&b) && b.precedes(&a)
}

/// Where a record that came earlier than all of `s` enters the sorted `s`:
/// before the first element that it may stand before.
pub open spec fn entry_point<T: Ranked>(x: T, s: Seq<T>) -> int
    decreases s.len(),
{
    if s.len() == 0 || x.precedes(&s[0]) {
        0
    } else {
        1 + entry_point(x, s.drop_first())
    }
}

/// The stable sort of `s`: its elements in order, those that tie in the order in
/// which `s` holds them.
pub open spec fn stable_sort<T: Ranked>(s: Seq<T>) -> Seq<T>
    decreases s.len(),
{
    if s.len() == 0 {
        s
    } else {
        let rest = stable_sort(s.drop_first());
        rest.insert(entry_point(s[0], rest), s[0])
    }
}

/// The entry point lies within the sequence, has only elements before it that
/// the record may not stand before, and is at the end or at an element that the
/// record may stand before.
pub proof fn lemma_entry_point<T: Ranked>(x: T, s: Seq<T>)
    ensures
        0 <= entry_point(x, s) <= s.len(),
        forall|j: int| #![trigger s[j]] 0 <= j < entry_point(x, s) ==> !x.precedes(&s[j]),
        entry_point(x, s) < s.len() ==> x.precedes(&s[entry_point(x, s)]),
    decreases s.len(),
{
    if s.len() == 0 || x.precedes(&s[0]) {
    } else {
        let tail = s.drop_first();
        lemma_entry_point(x, tail);
        let p = entry_point(x, tail);
        assert forall|j: int| #![trigger s[j]] 0 <= j < 1 + p implies !x.precedes(&s[j]) by {
            if j > 0 {
                assert(s[j] == tail[j - 1]);
            }
        }
        if p < tail.len() {
            assert(tail[p] == s[p + 1]);
        }
    }
}

/// An index with the properties of the entry point is the entry point.
pub proof fn lemma_entry_point_is<T: Ranked>(x: T, s: Seq<T>, p: int)
    requires
        0 <= p <= s.len(),
        forall|j: int| #![trigger s[j]] 0 <= j < p ==> !x.precedes(&s[j]),
        p < s.len() ==> x.precedes(&s[p]),
    ensures
        entry_point(x, s) == p,
    decreases s.len(),
{
    if s.len() == 0 {
    } else if p == 0 {
    } else {
        assert(!x.precedes(&s[0]));
        let tail = s.drop_first();
        assert forall|j: int| #![trigger tail[j]] 0 <= j < p - 1 implies !x.precedes(&tail[j]) by {
            assert(tail[j] == s[j + 1]);
        }
        if p - 1 < tail.len() {
            assert(tail[p - 1] == s[p]);
        }
        lemma_entry_point_is(x, tail, p - 1);
    }
}

/// Sorting keeps the number of elements.
pub proof fn lemma_sort_len<T: Ranked>(s: Seq<T>)
    ensures
        stable_sort(s).len() == s.len(),
    decreases s.len(),
{
    if s.len() > 0 {
        let rest = stable_sort(s.drop_first());
        lemma_sort_len(s.drop_first());
        lemma_entry_point(s[0], rest);
    }
}

/// The sorted sequence is in order.
pub proof fn lemma_sort_ordered<T: Ranked>(s: Seq<T>)
    ensures
        ordered(stable_sort(s)),
    decreases s.len(),
{
    if s.len() > 0 {
        let x = s[0];
        let rest = stable_sort(s.drop_first());
        lemma_sort_ordered(s.drop_first());
        lemma_entry_point(x, rest);
        let p = entry_point(x, rest);
        let out = rest.insert(p, x);
        assert forall|i: int, j: int| #![trigger out[i], out[j]] 0 <= i < j < out.len() implies out[i].precedes(
            &out[j],
        ) by {
            if j < p {
                assert(out[i] == rest[i] && out[j] == rest[j]);
            } else if j == p {
                assert(out[i] == rest[i]);
                T::precedes_is_total(&x, &rest[i]);
            } else if i < p {
                assert(out[i] == rest[i] && out[j] == rest[j - 1]);
            } else if i == p {
                assert(out[j] == rest[j - 1]);
                if j - 1 > p {
                    T::precedes_is_transitive(&x, &rest[p], &rest[j - 1]);
                }
            } else {
                assert(out[i] == rest[i - 1] && out[j] == rest[j - 1]);
            }
        }
    }
}

/// The sorted sequence holds the same elements, each as often.
pub proof fn lemma_sort_permutes<T: Ranked>(s: Seq<T>)
    ensures
        stable_sort(s).to_multiset() == s.to_multiset(),
    decreases s.len(),
{
    broadcast use vstd::multiset::group_multiset_axioms;

    if s.len() == 0 {
    } else {
        let x = s[0];
        let tail = s.drop_first();
        let rest = stable_sort(tail);
        lemma_sort_permutes(tail);
        lemma_entry_point(x, rest);
        vstd::seq_lib::to_multiset_insert(rest, entry_point(x, rest), x);
        assert(s == tail.insert(0, x));
        vstd::seq_lib::to_multiset_insert(tail, 0, x);
    }
}

/// The sorted sequence holds exactly the elements of the sequence.
pub proof fn lemma_sort_same_elements<T: Ranked>(s: Seq<T>)
    ensures
        forall|x: T|
            #![trigger stable_sort(s).contains(x)]
            #![trigger s.contains(x)]
            stable_sort(s).contains(x) <==> s.contains(x),
    decreases s.len(),
{
    if s.len() > 0 {
        let first = s[0];
        let tail = s.drop_first();
        let rest = stable_sort(tail);
        lemma_sort_same_elements(tail);
        lemma_sort_len(tail);
        lemma_entry_point(first, rest);
        let p = entry_point(first, rest);
        let out = rest.insert(p, first);
        assert forall|x: T| out.contains(x) implies s.contains(x) by {
            let i = choose|i: int| 0 <= i < out.len() && out[i] == x;
            if i == p {
                assert(s[0] == x);
            } else {
                let j = if i < p {
                    i
                } else {
                    i - 1
                };
                assert(rest[j] == x);
                assert(rest.contains(x));
                let w = choose|w: int| 0 <= w < tail.len() && tail[w] == x;
                assert(s[w + 1] == x);
            }
        }
        assert forall|x: T| s.contains(x) implies out.contains(x) by {
            let i = choose|i: int| 0 <= i < s.len() && s[i] == x;
            if i == 0 {
                assert(out[p] == x);
            } else {
                assert(tail[i - 1] == x);
                assert(tail.contains(x));
                let w = choose|w: int| 0 <= w < rest.len() && rest[w] == x;
                if w < p {
                    assert(out[w] == x);
                } else {
                    assert(out[w + 1] == x);
                }
            }
        }
    }
}

/// The predicate "ties with `x`".
pub open spec fn tied_with<T: Ranked>(x: T) -> spec_fn(T) -> bool {
    |y: T| ties(x, y)
}

/// Sorting is stable: the elements that tie with one another stand in the
/// sorted sequence in the order in which the sequence holds them.
pub proof fn lemma_sort_stable<T: Ranked>(s: Seq<T>, x: T)
    ensures
        stable_sort(s).filter(tied_with(x)) == s.filter(tied_with(x)),
    decreases s.len(),
{
    if s.len() > 0 {
        let first = s[0];
        let tail = s.drop_first();
        let rest = stable_sort(tail);
        let tied = tied_with(x);
        lemma_sort_stable(tail, x);
        lemma_sort_len(tail);
        lemma_entry_point(first, rest);
        let p = entry_point(first, rest);
        let before = rest.subrange(0, p);
        let after = rest.subrange(p, rest.len() as int);
        assert(rest =~= before + after);
        assert(rest.insert(p, first) =~= (before + seq![first]) + after);
        assert(s =~= seq![first] + tail);
        Seq::filter_distributes_over_add(before, after, tied);
        Seq::filter_distributes_over_add(before + seq![first], after, tied);
        Seq::filter_distributes_over_add(before, seq![first], tied);
        tail.lemma_filter_prepend(first, tied);
        Seq::<T>::empty().lemma_filter_prepend(first, tied);
        assert(seq![first] + Seq::<T>::empty() =~= seq![first]);
        assert(Seq::<T>::empty().filter(tied) =~= Seq::<T>::empty()) by {
            reveal(Seq::filter);
        }
        if tied(first) {
            assert forall|j: int| 0 <= j < before.len() implies !tied(#[trigger] before[j]) by {
                assert(before[j] == rest[j]);
                if tied(before[j]) {
                    T::precedes_is_transitive(&first, &x, &before[j]);
                }
            }
            assert(before.all(|y: T| !tied(y)));
            before.lemma_all_neg_filter_empty(tied);
            assert(before.filter(tied) =~= Seq::<T>::empty());
        }
        assert(stable_sort(s).filter(tied) =~= s.filter(tied));
    }
}

/// A sequence that is in order is its own sort.
pub proof fn lemma_sort_of_ordered<T: Ranked>(s: Seq<T>)
    requires
        ordered(s),
    ensures
        stable_sort(s) == s,
    decreases s.len(),
{
    if s.len() > 0 {
        let tail = s.drop_first();
        assert forall|i: int, j: int| #![trigger tail[i], tail[j]] 0 <= i < j < tail.len() implies tail[i].precedes(
            &tail[j],
        ) by {
            assert(tail[i] == s[i + 1] && tail[j] == s[j + 1]);
        }
        lemma_sort_of_ordered(tail);
        if tail.len() > 0 {
            assert(tail[0] == s[1]);
        }
        assert(entry_point(s[0], tail) == 0);
        assert(tail.insert(0, s[0]) =~= s);
    }
}

/// Sorts the records, keeping those that tie in the order in which they came.
pub fn sort<T: Ranked>(records: Vec<T>) -> (sorted: Vec<T>)
    ensures
        sorted@ == stable_sort(records@),
        sorted@.len() == records@.len(),
        ordered(sorted@),
        sorted@.to_multiset() == records@.to_multiset(),
{
    let ghost all = records@;
    let mut pending = records;
    let mut sorted: Vec<T> = Vec::new();
    proof {
        assert(all.subrange(all.len() as int, all.len() as int) =~= Seq::<T>::empty());
    }
    while pending.len() > 0
        invariant
            pending@ == all.subrange(0, pending@.len() as int),
            pending@.len() <= all.len(),
            sorted@ == stable_sort(all.subrange(pending@.len() as int, all.len() as int)),
        decreases pending@.len(),
    {
        let ghost before = pending@.len() as int;
        let record = pending.pop().unwrap();
        let mut at: usize = 0;
        while at < sorted.len() && !record.stands_before(&sorted[at])
            invariant
                at <= sorted@.len(),
                forall|j: int| #![trigger sorted@[j]] 0 <= j < at ==> !record.precedes(&sorted@[j]),
            decreases sorted@.len() - at,
        {
            at += 1;
        }
        proof {
            lemma_entry_point_is(record, sorted@, at as int);
            let suffix = all.subrange(before - 1, all.len() as int);
            assert(suffix[0] == record);
            assert(suffix.drop_first() =~= all.subrange(before, all.len() as int));
        }
        sorted.insert(at, record);
    }
    proof {
        assert(all.subrange(0, all.len() as int) =~= all);
        lemma_sort_len(all);
        lemma_sort_ordered(all);
        lemma_sort_permutes(all);
    }
    sorted
}

} // verus!
