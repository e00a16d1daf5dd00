//! A deduplicating pass over a sequence: yields each value not equal to an
//! already-yielded one, keeping first occurrences in order. Generic over any
//! element type with an equality test, independent of the path modules.

use vstd::prelude::*;
use vstd::std_specs::cmp::PartialEqSpec;

verus! {

/// The subsequence of first occurrences: an element is kept exactly when no
/// already-kept element equals it under `eq`.
pub open spec fn fresh_spec<T>(s: Seq<T>, eq: spec_fn(T, T) -> bool) -> Seq<T>
    decreases s.len(),
{
    if s.len() == 0 {
        s
    } else {
        let rest = fresh_spec(s.drop_last(), eq);
        if exists|m: int| 0 <= m < rest.len() && eq(rest[m], s.last()) {
            rest
        } else {
            rest.push(s.last())
        }
    }
}

/// The equality of a type's `==` operator, as a spec-level function.
pub open spec fn spec_eq_fn<T: PartialEq>() -> spec_fn(T, T) -> bool {
    |a: T, b: T| a.eq_spec(&b)
}

/// When all elements are pairwise unequal the pass keeps everything.
pub proof fn lemma_fresh_distinct<T>(s: Seq<T>, eq: spec_fn(T, T) -> bool)
    requires
        forall|j: int, k: int| 0 <= j < k < s.len() ==> !eq(s[j], s[k]),
    ensures
        fresh_spec(s, eq) == s,
    decreases s.len(),
{
    if s.len() > 0 {
        let t = s.drop_last();
        assert(forall|j: int, k: int| 0 <= j < k < t.len() ==> !eq(t[j], t[k])) by {
            assert forall|j: int, k: int| 0 <= j < k < t.len() implies !eq(t[j], t[k]) by {
                assert(t[j] == s[j]);
                assert(t[k] == s[k]);
            }
        }
        lemma_fresh_distinct(t, eq);
        assert(forall|m: int| 0 <= m < t.len() ==> !eq(t[m], s.last())) by {
            assert forall|m: int| 0 <= m < t.len() implies !eq(t[m], s.last()) by {
                assert(t[m] == s[m]);
                assert(s.last() == s[s.len() - 1]);
            }
        }
        assert(t.push(s.last()) =~= s);
    }
}

/// Keeps the first occurrence of each value, in order, dropping every later
/// element that equals an already-kept one.
pub fn fresh_filter<T: PartialEq>(v: Vec<T>) -> (r: Vec<T>)
    requires
        T::obeys_eq_spec(),
    ensures
        r@ == fresh_spec(v@, spec_eq_fn::<T>()),
{
    let ghost orig = v@;
    let ghost eq = spec_eq_fn::<T>();
    let mut src = v;
    let mut r: Vec<T> = Vec::new();
    proof {
        assert(orig.take(0) =~= Seq::<T>::empty());
    }
    let ghost mut k: int = 0;
    while src.len() > 0
        invariant
            0 <= k <= orig.len(),
            src@ =~= orig.skip(k),
            r@ == fresh_spec(orig.take(k), spec_eq_fn::<T>()),
            T::obeys_eq_spec(),
        decreases src@.len(),
    {
        let x = src.remove(0);
        proof {
            assert(x == orig.skip(k)[0]);
            assert(x == orig[k]);
            assert(src@ =~= orig.skip(k + 1));
        }
        let mut found = false;
        let mut m: usize = 0;
        while m < r.len()
            invariant
                m <= r@.len(),
                T::obeys_eq_spec(),
                found == exists|i: int| 0 <= i < m && spec_eq_fn::<T>()(r@[i], x),
            decreases r@.len() - m,
        {
            if r[m] == x {
                found = true;
            }
            m += 1;
        }
        let ghost prev = r@;
        if !found {
            r.push(x);
        }
        proof {
            let t = orig.take(k + 1);
            assert(t.drop_last() =~= orig.take(k));
            assert(t.last() == orig[k]);
            assert(r@ == fresh_spec(orig.take(k + 1), spec_eq_fn::<T>())) by {
                if found {
                    assert(exists|i: int|
                        0 <= i < prev.len() && spec_eq_fn::<T>()(prev[i], orig[k]));
                } else {
                    assert(forall|i: int|
                        0 <= i < prev.len() ==> !spec_eq_fn::<T>()(prev[i], orig[k]));
                }
            }
        }
        proof {
            k = k + 1;
        }
    }
    proof {
        assert(orig.take(orig.len() as int) =~= orig);
    }
    r
}

} // verus!
