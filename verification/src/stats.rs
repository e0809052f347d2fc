//! Simple statistics over a list of integers: sort it, read off the median,
//! and find the mode.

use vstd::prelude::*;

verus! {

broadcast use vstd::seq_lib::group_to_multiset_ensures, vstd::multiset::group_multiset_axioms;

/// The sequence is in ascending order.
pub open spec fn sorted(s: Seq<i32>) -> bool {
    forall|a: int, b: int| 0 <= a < b < s.len() ==> s[a] <= s[b]
}

/// How often `x` occurs in `s`.
pub open spec fn occurrences(s: Seq<i32>, x: i32) -> nat {
    s.to_multiset().count(x)
}

/// `m` occurs in `s` at least as often as any value, and is the smallest
/// value that occurs that often.
pub open spec fn is_mode(s: Seq<i32>, m: i32) -> bool {
    &&& s.contains(m)
    &&& forall|x: i32| #[trigger] occurrences(s, x) <= occurrences(s, m)
    &&& forall|x: i32| #[trigger] occurrences(s, x) == occurrences(s, m) ==> m <= x
}

/// Sort the vector in place, in ascending order, keeping its contents.
fn sort_in_place(v: &mut Vec<i32>)
    ensures
        final(v)@.len() == old(v)@.len(),
        final(v)@.to_multiset() == old(v)@.to_multiset(),
        sorted(final(v)@),
{
    let ghost orig: Seq<i32> = v@;
    let mut out: Vec<i32> = Vec::new();
    proof {
        assert(out@.to_multiset().add(v@.to_multiset()) =~= orig.to_multiset());
    }
    while v.len() > 0
        invariant
            out@.to_multiset().add(v@.to_multiset()) == orig.to_multiset(),
            out@.len() + v@.len() == orig.len(),
            sorted(out@),
            forall|a: int, b: int|
                #![trigger out@[a], v@[b]]
                0 <= a < out@.len() && 0 <= b < v@.len() ==> out@[a] <= v@[b],
        decreases v.len(),
    {
        let mut mi: usize = 0;
        let mut k: usize = 1;
        while k < v.len()
            invariant
                mi < v@.len(),
                k <= v@.len(),
                forall|j: int| 0 <= j < k ==> v@[mi as int] <= #[trigger] v@[j],
            decreases v.len() - k,
        {
            if v[k] < v[mi] {
                mi = k;
            }
            k = k + 1;
        }
        let ghost out_before: Seq<i32> = out@;
        let ghost v_before: Seq<i32> = v@;
        let x = v.remove(mi);
        out.push(x);
        proof {
            assert(v_before.contains(x));
            assert(v_before.to_multiset().count(x) > 0);
            assert(out@.to_multiset() =~= out_before.to_multiset().insert(x));
            assert(out@.to_multiset().add(v@.to_multiset()) =~= orig.to_multiset()) by {
                assert forall|e: i32|
                    out@.to_multiset().add(v@.to_multiset()).count(e) == orig.to_multiset().count(
                        e,
                    ) by {
                    assert(out_before.to_multiset().add(v_before.to_multiset()).count(e)
                        == orig.to_multiset().count(e));
                }
            }
            assert forall|a: int, b: int|
                #![trigger out@[a], v@[b]]
                0 <= a < out@.len() && 0 <= b < v@.len() implies out@[a] <= v@[b] by {
                if b < mi {
                    assert(v@[b] == v_before[b]);
                } else {
                    assert(v@[b] == v_before[b + 1]);
                }
            }
        }
    }
    *v = out;
}

/// The smallest value among those that occur most often in a sorted vector.
fn mode_of_sorted(v: &Vec<i32>) -> (m: i32)
    requires
        v@.len() > 0,
        sorted(v@),
    ensures
        is_mode(v@, m),
{
    let ghost s: Seq<i32> = v@;
    let n = v.len();
    let mut best: i32 = v[0];
    let mut cur: i32 = v[0];
    let mut bcnt: usize = 1;
    let mut ccnt: usize = 1;
    let mut i: usize = 1;
    proof {
        assert(s.subrange(0, 1) =~= Seq::<i32>::empty().push(s[0]));
        assert(occurrences(s.subrange(0, 1), s[0]) == 1);
    }
    while i < n
        invariant
            1 <= i <= n,
            n == s.len(),
            s == v@,
            sorted(s),
            cur == s[i - 1],
            best <= cur,
            1 <= bcnt <= i,
            1 <= ccnt <= i,
            occurrences(s.subrange(0, i as int), cur) == ccnt,
            occurrences(s.subrange(0, i as int), best) == bcnt,
            ccnt <= bcnt,
            forall|x: i32| #[trigger] occurrences(s.subrange(0, i as int), x) <= bcnt,
            forall|x: i32|
                #[trigger] occurrences(s.subrange(0, i as int), x) == bcnt ==> best <= x,
        decreases n - i,
    {
        let ghost prefix: Seq<i32> = s.subrange(0, i as int);
        let ghost prefix2: Seq<i32> = s.subrange(0, i as int + 1);
        let e = v[i];
        proof {
            assert(prefix2 =~= prefix.push(s[i as int]));
            assert(prefix2.to_multiset() =~= prefix.to_multiset().insert(s[i as int]));
        }
        if e == cur {
            ccnt = ccnt + 1;
        } else {
            proof {
                assert(cur < e);
                assert(!prefix.contains(e)) by {
                    if prefix.contains(e) {
                        let k = choose|k: int| 0 <= k < prefix.len() && prefix[k] == e;
                        assert(s[k] <= s[i - 1]);
                    }
                }
                assert(occurrences(prefix, e) == 0);
            }
            cur = e;
            ccnt = 1;
        }
        if ccnt > bcnt {
            best = cur;
            bcnt = ccnt;
        }
        i = i + 1;
        proof {
            assert forall|x: i32| #[trigger] occurrences(prefix2, x) <= bcnt by {
                if x == s[i - 1] {
                } else {
                    assert(occurrences(prefix2, x) == occurrences(prefix, x));
                }
            }
            assert forall|x: i32|
                #[trigger] occurrences(prefix2, x) == bcnt implies best <= x by {
                if x != s[i - 1] {
                    assert(occurrences(prefix2, x) == occurrences(prefix, x));
                }
            }
        }
    }
    proof {
        assert(s.subrange(0, n as int) =~= s);
        assert(occurrences(s, best) == bcnt);
        assert(s.to_multiset().count(best) > 0);
    }
    best
}

/// Sort the vector, then read off its median — the value standing in the
/// middle of the sorted order — and its mode — the smallest of the values
/// that occur most often.
pub fn find_median_and_mode(v: &mut Vec<i32>) -> (r: (i32, i32))
    requires
        old(v)@.len() > 0,
    ensures
        final(v)@.len() == old(v)@.len(),
        final(v)@.to_multiset() == old(v)@.to_multiset(),
        sorted(final(v)@),
        r.0 == final(v)@[final(v)@.len() as int / 2],
        is_mode(old(v)@, r.1),
{
    sort_in_place(v);
    let median = v[v.len() / 2];
    let mode = mode_of_sorted(v);
    proof {
        let pre = old(v)@;
        assert forall|x: i32| #[trigger] occurrences(pre, x) <= occurrences(pre, mode) by {
            assert(occurrences(v@, x) <= occurrences(v@, mode));
        }
        assert forall|x: i32|
            #[trigger] occurrences(pre, x) == occurrences(pre, mode) implies mode <= x by {
            assert(occurrences(v@, x) == occurrences(v@, mode));
        }
        assert(pre.to_multiset().count(mode) > 0);
        assert(pre.contains(mode));
    }
    (median, mode)
}

} // verus!
