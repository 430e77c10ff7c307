//! Newest-first ordering of dated records, kept by stable insertion.

use vstd::prelude::*;

use crate::text::{lemma_seq_lt_transitive, lemma_seq_lt_trichotomy, seq_lt};

verus! {

broadcast use vstd::seq_lib::group_to_multiset_ensures;

/// A record with a capture time (an ISO-8601 string, compared as text) and a
/// secondary integer that breaks ties between equal capture times.
pub trait Chronological: Sized {
    /// The capture time, as text.
    spec fn time_key(&self) -> Seq<char>;

    /// The tie-breaker among records with the same capture time.
    spec fn tie_key(&self) -> int;

    /// True when `self` sorts strictly before `other` oldest-first.
    fn older_than(&self, other: &Self) -> (res: bool)
        ensures
            res == (seq_lt(self.time_key(), other.time_key()) || (self.time_key()
                == other.time_key() && self.tie_key() < other.tie_key())),
    ;
}

/// `a` is strictly older than `b`: an earlier capture time, or the same one
/// and a smaller tie-breaker.
pub open spec fn is_older<T: Chronological>(a: T, b: T) -> bool {
    seq_lt(a.time_key(), b.time_key()) || (a.time_key() == b.time_key() && a.tie_key()
        < b.tie_key())
}

/// No record is followed by a newer one.
pub open spec fn is_newest_first<T: Chronological>(s: Seq<T>) -> bool {
    forall|i: int, j: int| 0 <= i < j < s.len() ==> !is_older::<T>(#[trigger] s[i], #[trigger] s[j])
}

proof fn lemma_older_transitive<T: Chronological>(a: T, b: T, c: T)
    requires
        is_older::<T>(a, b),
        is_older::<T>(b, c),
    ensures
        is_older::<T>(a, c),
{
    if seq_lt(a.time_key(), b.time_key()) && seq_lt(b.time_key(), c.time_key()) {
        lemma_seq_lt_transitive(a.time_key(), b.time_key(), c.time_key());
    }
}

proof fn lemma_not_older_means_older_or_same<T: Chronological>(a: T, b: T)
    requires
        !is_older::<T>(a, b),
    ensures
        is_older::<T>(b, a) || (a.time_key() == b.time_key() && a.tie_key() == b.tie_key()),
{
    lemma_seq_lt_trichotomy(a.time_key(), b.time_key());
}

/// `x` inserted into `s` just before the first record older than it.
pub open spec fn insert_spec<T: Chronological>(s: Seq<T>, x: T) -> Seq<T>
    decreases s.len(),
{
    if s.len() == 0 {
        seq![x]
    } else if is_older::<T>(s[0], x) {
        seq![x] + s
    } else {
        seq![s[0]] + insert_spec(s.drop_first(), x)
    }
}

/// Newest-first order by stable insertion, records taken front to back: the
/// order a stable sort by descending age gives.
pub open spec fn newest_first_order<T: Chronological>(s: Seq<T>) -> Seq<T>
    decreases s.len(),
{
    if s.len() == 0 {
        Seq::empty()
    } else {
        insert_spec(newest_first_order(s.drop_last()), s.last())
    }
}

/// Inserting adds exactly the one item.
pub proof fn lemma_insert_spec_shape<T: Chronological>(s: Seq<T>, x: T)
    ensures
        insert_spec(s, x).len() == s.len() + 1,
        insert_spec(s, x).contains(x),
    decreases s.len(),
{
    if s.len() == 0 {
        assert(insert_spec(s, x)[0] == x);
    } else if is_older::<T>(s[0], x) {
        assert(insert_spec(s, x)[0] == x);
    } else {
        lemma_insert_spec_shape(s.drop_first(), x);
        let rest = insert_spec(s.drop_first(), x);
        let j = choose|j: int| 0 <= j < rest.len() && rest[j] == x;
        assert(insert_spec(s, x)[j + 1] == x);
    }
}

proof fn lemma_insert_spec_at<T: Chronological>(s: Seq<T>, x: T, p: int)
    requires
        0 <= p <= s.len(),
        forall|i: int| 0 <= i < p ==> !is_older::<T>(#[trigger] s[i], x),
        p == s.len() || is_older::<T>(s[p], x),
    ensures
        insert_spec(s, x) == s.insert(p, x),
    decreases p,
{
    if p == 0 {
        if s.len() == 0 {
            assert(s.insert(0, x) =~= seq![x]);
        } else {
            assert(s.insert(0, x) =~= seq![x] + s);
        }
    } else {
        let t = s.drop_first();
        assert forall|i: int| 0 <= i < p - 1 implies !is_older::<T>(#[trigger] t[i], x) by {
            assert(t[i] == s[i + 1]);
        }
        if p < s.len() {
            assert(t[p - 1] == s[p]);
        }
        lemma_insert_spec_at(t, x, p - 1);
        assert(s.insert(p, x) =~= seq![s[0]] + t.insert(p - 1, x));
    }
}

/// Inserts `x` into a newest-first vector after every record that is not
/// older than it, so records of equal age keep their order of arrival.
pub fn insert_newest_first<T: Chronological>(v: &mut Vec<T>, x: T)
    requires
        is_newest_first(old(v)@),
    ensures
        is_newest_first(final(v)@),
        final(v)@ == insert_spec(old(v)@, x),
        final(v)@.to_multiset() == old(v)@.to_multiset().insert(x),
        exists|p: int|
            0 <= p <= old(v)@.len() && final(v)@ == old(v)@.insert(p, x) && (forall|i: int|
                0 <= i < p ==> !is_older::<T>(#[trigger] old(v)@[i], x)) && (forall|i: int|
                p <= i < old(v)@.len() ==> is_older::<T>(#[trigger] old(v)@[i], x)),
{
    let ghost s = v@;
    let mut p: usize = 0;
    while p < v.len() && !v[p].older_than(&x)
        invariant
            p <= v.len(),
            v@ == s,
            forall|i: int| 0 <= i < p ==> !is_older::<T>(#[trigger] s[i], x),
        decreases v.len() - p,
    {
        p += 1;
    }
    proof {
        assert forall|i: int| p <= i < s.len() implies is_older::<T>(#[trigger] s[i], x) by {
            if i > p {
                assert(!is_older::<T>(s[p as int], s[i]));
                lemma_not_older_means_older_or_same(s[p as int], s[i]);
                if is_older::<T>(s[i], s[p as int]) {
                    lemma_older_transitive(s[i], s[p as int], x);
                }
            }
        }
    }
    proof {
        lemma_insert_spec_at(s, x, p as int);
    }
    v.insert(p, x);
    proof {
        let t = v@;
        assert(t == s.insert(p as int, x));
        assert forall|i: int, j: int| 0 <= i < j < t.len() implies !is_older::<T>(
            #[trigger] t[i],
            #[trigger] t[j],
        ) by {
            if j < p {
                assert(t[i] == s[i] && t[j] == s[j]);
            } else if j == p {
                assert(t[i] == s[i]);
            } else if i < p {
                assert(t[i] == s[i] && t[j] == s[j - 1]);
                assert(is_older::<T>(s[j - 1], x));
                if is_older::<T>(s[i], s[j - 1]) {
                    lemma_older_transitive(s[i], s[j - 1], x);
                }
            } else if i == p {
                assert(t[j] == s[j - 1]);
                assert(is_older::<T>(s[j - 1], x));
                if is_older::<T>(x, s[j - 1]) {
                    lemma_older_transitive(x, s[j - 1], x);
                    lemma_seq_lt_trichotomy(x.time_key(), x.time_key());
                }
            } else {
                assert(t[i] == s[i - 1] && t[j] == s[j - 1]);
            }
        }
        assert(t.remove(p as int) =~= s);
        assert(t.to_multiset().remove(x) == s.to_multiset());
        assert(t.to_multiset().contains(x)) by {
            assert(t[p as int] == x);
            assert(t.contains(x));
        }
        assert(t.to_multiset() =~= s.to_multiset().insert(x));
    }
}

/// Orders records newest first, keeping records of equal age in their
/// original order (a stable sort).
pub fn sort_newest_first<T: Chronological>(items: &mut Vec<T>)
    ensures
        is_newest_first(final(items)@),
        final(items)@ == newest_first_order(old(items)@),
        final(items)@.to_multiset() == old(items)@.to_multiset(),
{
    let mut out: Vec<T> = Vec::new();
    let ghost orig = items@;
    let ghost mut done: int = 0;
    assert(orig.take(0) =~= Seq::<T>::empty());
    while items.len() > 0
        invariant
            is_newest_first(out@),
            0 <= done <= orig.len(),
            items@ == orig.skip(done),
            out@ == newest_first_order(orig.take(done)),
            out@.to_multiset().add(items@.to_multiset()) == orig.to_multiset(),
        decreases items.len(),
    {
        let ghost rest = items@;
        let x = items.remove(0);
        proof {
            assert(rest.remove(0) == items@);
            assert(rest.to_multiset() =~= items@.to_multiset().insert(x)) by {
                assert(rest.to_multiset().remove(rest[0]) == items@.to_multiset());
                assert(rest.contains(rest[0]));
            }
        }
        let ghost before = out@;
        insert_newest_first(&mut out, x);
        proof {
            assert(orig[done] == x);
            assert(orig.take(done + 1).drop_last() =~= orig.take(done));
            assert(orig.take(done + 1).last() == x);
            assert(orig.skip(done + 1) =~= items@);
            done = done + 1;
            assert(out@.to_multiset().add(items@.to_multiset()) =~= before.to_multiset().add(
                rest.to_multiset(),
            ));
        }
    }
    proof {
        assert(items@.to_multiset() =~= vstd::multiset::Multiset::empty()) by {
            assert(items@.len() == 0);
            assert(items@.to_multiset().len() == 0);
        }
        assert(out@.to_multiset() =~= orig.to_multiset());
        assert(orig.take(orig.len() as int) =~= orig);
    }
    *items = out;
}

} // verus!
