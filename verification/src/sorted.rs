//! Strictly sorted lists of component ids, and the set operations the
//! archetype graph computes on them: difference (for bundle removal) and
//! union (for bundle insertion).

use vstd::prelude::*;

verus! {

/// A canonical component-id list: strictly increasing, hence duplicate-free.
pub open spec fn sorted_strict(s: Seq<usize>) -> bool {
    forall|i: int, j: int| 0 <= i < j < s.len() ==> s[i] < s[j]
}

/// The subsequence of `s` whose values do not occur in `r`.
pub open spec fn seq_diff(s: Seq<usize>, r: Seq<usize>) -> Seq<usize>
    decreases s.len(),
{
    if s.len() == 0 {
        Seq::empty()
    } else {
        let rest = seq_diff(s.drop_last(), r);
        if r.contains(s.last()) {
            rest
        } else {
            rest.push(s.last())
        }
    }
}

/// `u` is the canonical (sorted, duplicate-free) union of the value sets
/// of `x` and `y`.
pub open spec fn is_union(u: Seq<usize>, x: Seq<usize>, y: Seq<usize>) -> bool {
    &&& sorted_strict(u)
    &&& forall|v: usize| #![auto] u.contains(v) <==> (x.contains(v) || y.contains(v))
}

/// `u` is the canonical difference: the value set of `x` without the
/// values of `y`.
pub open spec fn is_diff_set(u: Seq<usize>, x: Seq<usize>, y: Seq<usize>) -> bool {
    &&& sorted_strict(u)
    &&& forall|v: usize| #![auto] u.contains(v) <==> (x.contains(v) && !y.contains(v))
}

pub proof fn lemma_push_contains(s: Seq<usize>, v: usize, t: Seq<usize>)
    requires
        t == s.push(v),
    ensures
        forall|x: usize| #![auto] t.contains(x) <==> (s.contains(x) || x == v),
{
    assert forall|x: usize| #![auto] t.contains(x) implies (s.contains(x) || x == v) by {
        let k = choose|k: int| 0 <= k < t.len() && t[k] == x;
        if k < s.len() {
            assert(s[k] == x);
        }
    }
    assert forall|x: usize| #![auto] (s.contains(x) || x == v) implies t.contains(x) by {
        if s.contains(x) {
            let k = choose|k: int| 0 <= k < s.len() && s[k] == x;
            assert(t[k] == x);
        } else {
            assert(t[s.len() as int] == x);
        }
    }
}

/// Extending a prefix of `s` by one element extends its value set by `s[i]`.
pub proof fn lemma_take_plus_one(s: Seq<usize>, i: int, p: Seq<usize>)
    requires
        0 <= i < s.len(),
        p == s.take(i + 1),
    ensures
        forall|x: usize| #![auto] p.contains(x) <==> (s.take(i).contains(x) || x == s[i]),
{
    assert(p =~= s.take(i).push(s[i]));
    lemma_push_contains(s.take(i), s[i], p);
}

/// What `seq_diff` keeps: exactly the values of `s` that are not in `r`.
pub proof fn lemma_seq_diff_contains(s: Seq<usize>, r: Seq<usize>)
    ensures
        forall|x: usize| #![auto] seq_diff(s, r).contains(x) <==> (s.contains(x) && !r.contains(
            x,
        )),
    decreases s.len(),
{
    if s.len() == 0 {
        assert forall|x: usize| #![auto] !s.contains(x) by {}
    } else {
        lemma_seq_diff_contains(s.drop_last(), r);
        let d0 = seq_diff(s.drop_last(), r);
        if !r.contains(s.last()) {
            lemma_push_contains(d0, s.last(), seq_diff(s, r));
        }
        assert forall|x: usize| #![auto] s.contains(x) implies (s.drop_last().contains(x) || x
            == s.last()) by {
            let k = choose|k: int| 0 <= k < s.len() && s[k] == x;
            if k < s.len() - 1 {
                assert(s.drop_last()[k] == x);
            }
        }
        assert forall|x: usize| #![auto] (s.drop_last().contains(x) || x == s.last()) implies s
            .contains(x) by {
            if s.drop_last().contains(x) {
                let k = choose|k: int| 0 <= k < s.drop_last().len() && s.drop_last()[k] == x;
                assert(s[k] == x);
            } else {
                assert(s[s.len() - 1] == x);
            }
        }
    }
}

/// `seq_diff` of a strictly sorted list is strictly sorted.
pub proof fn lemma_seq_diff_sorted(s: Seq<usize>, r: Seq<usize>)
    requires
        sorted_strict(s),
    ensures
        sorted_strict(seq_diff(s, r)),
    decreases s.len(),
{
    if s.len() > 0 {
        assert(sorted_strict(s.drop_last()));
        lemma_seq_diff_sorted(s.drop_last(), r);
        lemma_seq_diff_contains(s.drop_last(), r);
        let d0 = seq_diff(s.drop_last(), r);
        if !r.contains(s.last()) {
            assert forall|k: int| 0 <= k < d0.len() implies d0[k] < s.last() by {
                assert(d0.contains(d0[k]));
                assert(s.drop_last().contains(d0[k]));
                let m = choose|m: int|
                    0 <= m < s.drop_last().len() && s.drop_last()[m] == d0[k];
                assert(s[m] == d0[k]);
            }
            assert forall|i: int, j: int|
                0 <= i < j < d0.push(s.last()).len() implies d0.push(s.last())[i] < d0.push(
                s.last(),
            )[j] by {
                if j < d0.len() {
                    assert(d0[i] < d0[j]);
                }
            }
        }
    }
}

/// Two strictly sorted lists with the same value set are the same list.
pub proof fn lemma_sorted_unique(a: Seq<usize>, b: Seq<usize>)
    requires
        sorted_strict(a),
        sorted_strict(b),
        forall|x: usize| #![auto] a.contains(x) <==> b.contains(x),
    ensures
        a == b,
    decreases a.len(),
{
    if a.len() == 0 {
        if b.len() > 0 {
            assert(b.contains(b[0]));
        }
        assert(a =~= b);
    } else if b.len() == 0 {
        assert(a.contains(a[0]));
    } else {
        assert(a.contains(a[0]));
        assert(b.contains(b[0]));
        let j = choose|j: int| 0 <= j < b.len() && b[j] == a[0];
        let i = choose|i: int| 0 <= i < a.len() && a[i] == b[0];
        assert(b[0] <= b[j]);
        assert(a[0] <= a[i]);
        assert(a[0] == b[0]);
        let a1 = a.skip(1);
        let b1 = b.skip(1);
        assert(sorted_strict(a1)) by {
            assert forall|p: int, q: int| 0 <= p < q < a1.len() implies a1[p] < a1[q] by {
                assert(a1[p] == a[p + 1] && a1[q] == a[q + 1]);
            }
        }
        assert(sorted_strict(b1)) by {
            assert forall|p: int, q: int| 0 <= p < q < b1.len() implies b1[p] < b1[q] by {
                assert(b1[p] == b[p + 1] && b1[q] == b[q + 1]);
            }
        }
        assert forall|x: usize| #![auto] a1.contains(x) <==> (a.contains(x) && x > a[0]) by {
            if a1.contains(x) {
                let k = choose|k: int| 0 <= k < a1.len() && a1[k] == x;
                assert(a[k + 1] == x);
                assert(a[0] < a[k + 1]);
            }
            if a.contains(x) && x > a[0] {
                let k = choose|k: int| 0 <= k < a.len() && a[k] == x;
                assert(k >= 1);
                assert(a1[k - 1] == x);
            }
        }
        assert forall|x: usize| #![auto] b1.contains(x) <==> (b.contains(x) && x > b[0]) by {
            if b1.contains(x) {
                let k = choose|k: int| 0 <= k < b1.len() && b1[k] == x;
                assert(b[k + 1] == x);
                assert(b[0] < b[k + 1]);
            }
            if b.contains(x) && x > b[0] {
                let k = choose|k: int| 0 <= k < b.len() && b[k] == x;
                assert(k >= 1);
                assert(b1[k - 1] == x);
            }
        }
        lemma_sorted_unique(a1, b1);
        assert(a =~= b) by {
            assert(a.len() == b.len());
            assert forall|k: int| 0 <= k < a.len() implies a[k] == b[k] by {
                if k >= 1 {
                    assert(a1[k - 1] == b1[k - 1]);
                }
            }
        }
    }
}

/// Linear membership test.
pub fn contains_value(v: &Vec<usize>, x: usize) -> (r: bool)
    ensures
        r == v@.contains(x),
{
    let mut i: usize = 0;
    while i < v.len()
        invariant
            i <= v@.len(),
            forall|j: int| 0 <= j < i ==> v@[j] != x,
        decreases v@.len() - i,
    {
        if v[i] == x {
            assert(v@.contains(x));
            return true;
        }
        i += 1;
    }
    false
}

/// Retains in `source` only the values that do not occur in `remove`.
/// Archetype component lists and bundle component lists are both kept
/// canonically sorted, which makes this the set difference the transition
/// graph needs when a bundle is removed.
pub fn sorted_remove(source: &mut Vec<usize>, remove: &Vec<usize>)
    ensures
        final(source)@ == seq_diff(old(source)@, remove@),
{
    let ghost s: Seq<usize> = source@;
    let mut out: Vec<usize> = Vec::new();
    let mut i: usize = 0;
    while i < source.len()
        invariant
            s == source@,
            i <= s.len(),
            out@ == seq_diff(s.take(i as int), remove@),
        decreases s.len() - i,
    {
        let v = source[i];
        proof {
            assert(s.take(i + 1).drop_last() =~= s.take(i as int));
            assert(s.take(i + 1).last() == s[i as int]);
        }
        if !contains_value(remove, v) {
            out.push(v);
        }
        i += 1;
    }
    proof {
        assert(s.take(s.len() as int) =~= s);
    }
    *source = out;
}

/// Merges two strictly sorted lists into the strictly sorted list of their
/// united value set.
pub fn sorted_union(a: &Vec<usize>, b: &Vec<usize>) -> (out: Vec<usize>)
    requires
        sorted_strict(a@),
        sorted_strict(b@),
    ensures
        sorted_strict(out@),
        forall|x: usize| #![auto] out@.contains(x) <==> (a@.contains(x) || b@.contains(x)),
{
    let mut out: Vec<usize> = Vec::new();
    let mut i: usize = 0;
    let mut j: usize = 0;
    while i < a.len() || j < b.len()
        invariant
            sorted_strict(a@),
            sorted_strict(b@),
            i <= a@.len(),
            j <= b@.len(),
            sorted_strict(out@),
            forall|x: usize| #![auto]
                out@.contains(x) <==> (a@.take(i as int).contains(x) || b@.take(
                    j as int,
                ).contains(x)),
            out@.len() > 0 && i < a@.len() ==> out@.last() < a@[i as int],
            out@.len() > 0 && j < b@.len() ==> out@.last() < b@[j as int],
        decreases a@.len() - i + b@.len() - j,
    {
        let ghost out0 = out@;
        let ghost i0 = i as int;
        let ghost j0 = j as int;
        let v: usize;
        if i < a.len() && (j >= b.len() || a[i] <= b[j]) {
            v = a[i];
            i += 1;
            if j < b.len() && b[j] == v {
                j += 1;
            }
        } else {
            v = b[j];
            j += 1;
        }
        proof {
            assert forall|k: int| 0 <= k < out0.len() implies out0[k] < v by {
                assert(out0[k] <= out0.last());
            }
        }
        out.push(v);
        proof {
            lemma_push_contains(out0, v, out@);
            if i as int != i0 {
                lemma_take_plus_one(a@, i0, a@.take(i as int));
            }
            if j as int != j0 {
                lemma_take_plus_one(b@, j0, b@.take(j as int));
            }
            assert forall|p: int, q: int| 0 <= p < q < out@.len() implies out@[p] < out@[q] by {
                if q < out0.len() {
                    assert(out0[p] < out0[q]);
                }
            }
            assert(out@.last() == v);
            if i as int != i0 && i < a.len() {
                assert(a@[i0] < a@[i as int]);
            }
            if j as int != j0 && j < b.len() {
                assert(b@[j0] < b@[j as int]);
            }
        }
    }
    proof {
        assert(a@.take(a@.len() as int) =~= a@);
        assert(b@.take(b@.len() as int) =~= b@);
    }
    out
}

/// The position of a value in an id list; meaningful when the list
/// contains it.
pub open spec fn index_of_id(ids: Seq<usize>, x: usize) -> int {
    choose|k: int| 0 <= k < ids.len() && ids[k] == x
}

/// In a strictly sorted list each value names its position.
pub proof fn lemma_index_of_id(ids: Seq<usize>, k: int)
    requires
        sorted_strict(ids),
        0 <= k < ids.len(),
    ensures
        ids.contains(ids[k]),
        index_of_id(ids, ids[k]) == k,
{
    assert(ids.contains(ids[k]));
    let k2 = index_of_id(ids, ids[k]);
    assert(0 <= k2 < ids.len() && ids[k2] == ids[k]);
    if k2 < k {
        assert(ids[k2] < ids[k]);
    } else if k < k2 {
        assert(ids[k] < ids[k2]);
    }
}

/// An element-wise copy of an id list.
pub fn copy_ids(v: &Vec<usize>) -> (r: Vec<usize>)
    ensures
        r@ == v@,
{
    let mut r: Vec<usize> = Vec::new();
    let mut i: usize = 0;
    while i < v.len()
        invariant
            i <= v@.len(),
            r@ == v@.take(i as int),
        decreases v@.len() - i,
    {
        proof {
            assert(v@.take(i + 1) =~= v@.take(i as int).push(v@[i as int]));
        }
        r.push(v[i]);
        i += 1;
    }
    proof {
        assert(v@.take(v@.len() as int) =~= v@);
    }
    r
}

/// Structural equality of two id lists.
pub fn vec_eq(a: &Vec<usize>, b: &Vec<usize>) -> (r: bool)
    ensures
        r == (a@ == b@),
{
    if a.len() != b.len() {
        return false;
    }
    let mut i: usize = 0;
    while i < a.len()
        invariant
            a@.len() == b@.len(),
            i <= a@.len(),
            forall|j: int| 0 <= j < i ==> a@[j] == b@[j],
        decreases a@.len() - i,
    {
        if a[i] != b[i] {
            return false;
        }
        i += 1;
    }
    proof {
        assert(a@ =~= b@);
    }
    true
}

} // verus!
