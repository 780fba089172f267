//! A verified descending sort over any total preorder, used by the derived
//! views to rank games and leaderboard entries.
use vstd::prelude::*;
use vstd::multiset::group_multiset_axioms;
use vstd::seq_lib::{group_to_multiset_ensures, to_multiset_build, to_multiset_contains, to_multiset_remove, to_multiset_update};

verus! {

/// A descending ranking order: a total preorder over the values the library
/// sorts, with an executable comparison.
pub trait RankOrd: Sized {
    /// The values the order is stated for (the sorters only see such values).
    spec fn valid(self) -> bool;

    /// `a` ranks at least as high as `b`.
    spec fn key_ge(a: Self, b: Self) -> bool;

    /// The order is total.
    proof fn lemma_total(a: Self, b: Self)
        requires
            a.valid(),
            b.valid(),
        ensures
            Self::key_ge(a, b) || Self::key_ge(b, a),
    ;

    /// The order is transitive.
    proof fn lemma_trans(a: Self, b: Self, c: Self)
        requires
            a.valid(),
            b.valid(),
            c.valid(),
            Self::key_ge(a, b),
            Self::key_ge(b, c),
        ensures
            Self::key_ge(a, c),
    ;

    /// Decide the order.
    fn ge(a: &Self, b: &Self) -> (r: bool)
        requires
            a.valid(),
            b.valid(),
        ensures
            r == Self::key_ge(*a, *b),
    ;
}

/// `s` is sorted highest-ranking first.
pub open spec fn sorted_desc<T: RankOrd>(s: Seq<T>) -> bool {
    forall|t1: int, t2: int|
        0 <= t1 <= t2 < s.len() ==> T::key_ge(#[trigger] s[t1], #[trigger] s[t2])
}

/// Sort `input` highest-ranking first; the result is a permutation of the
/// input (their multisets agree).
pub fn sort_desc<T: RankOrd>(input: Vec<T>) -> (out: Vec<T>)
    requires
        forall|i: int| 0 <= i < input@.len() ==> (#[trigger] input@[i]).valid(),
    ensures
        out@.len() == input@.len(),
        out@.to_multiset() == input@.to_multiset(),
        sorted_desc(out@),
        forall|i: int| 0 <= i < out@.len() ==> (#[trigger] out@[i]).valid(),
{
    broadcast use group_to_multiset_ensures;
    broadcast use group_multiset_axioms;

    let mut rest = input;
    let mut out: Vec<T> = Vec::new();
    let ghost input0 = rest@;
    while rest.len() > 0
        invariant
            forall|i: int| 0 <= i < rest@.len() ==> (#[trigger] rest@[i]).valid(),
            forall|i: int| 0 <= i < out@.len() ==> (#[trigger] out@[i]).valid(),
            out@.to_multiset().add(rest@.to_multiset()) =~= input0.to_multiset(),
            out@.len() + rest@.len() == input0.len(),
            sorted_desc(out@),
            forall|t: int|
                0 <= t < rest@.len() ==> out@.len() == 0 || T::key_ge(
                    out@[out@.len() - 1],
                    #[trigger] rest@[t],
                ),
        decreases rest@.len(),
    {
        // Find a highest-ranking remaining element.
        let mut m: usize = 0;
        let mut j: usize = 1;
        proof {
            T::lemma_total(rest@[0], rest@[0]);
        }
        while j < rest.len()
            invariant
                m < j <= rest@.len(),
                rest@.len() > 0,
                forall|i: int| 0 <= i < rest@.len() ==> (#[trigger] rest@[i]).valid(),
                forall|t: int| 0 <= t < j ==> T::key_ge(rest@[m as int], #[trigger] rest@[t]),
            decreases rest@.len() - j,
        {
            if T::ge(&rest[j], &rest[m]) {
                proof {
                    assert forall|t: int| 0 <= t < j implies T::key_ge(
                        rest@[j as int],
                        #[trigger] rest@[t],
                    ) by {
                        T::lemma_trans(rest@[j as int], rest@[m as int], rest@[t]);
                    }
                    T::lemma_total(rest@[j as int], rest@[j as int]);
                }
                m = j;
            } else {
                proof {
                    T::lemma_total(rest@[j as int], rest@[m as int]);
                }
            }
            j += 1;
        }
        let ghost r0 = rest@;
        let ghost out0 = out@;
        let x = rest.swap_remove(m);
        proof {
            let r1 = r0.update(m as int, r0.last());
            to_multiset_update(r0, m as int, r0.last());
            assert(r1.to_multiset() == r0.to_multiset().insert(r0.last()).remove(r0[m as int]));
            assert(rest@ =~= r1.remove(r1.len() - 1));
            to_multiset_remove(r1, r1.len() - 1);
            assert(r0.contains(r0[m as int]));
            assert(rest@.to_multiset() =~= r0.to_multiset().remove(x));
        }
        out.push(x);
        proof {
            assert(out@ =~= out0.push(x));
            to_multiset_build(out0, x);
            assert(out0.push(x).to_multiset() == out0.to_multiset().insert(x));
            assert(out@.to_multiset() == out0.to_multiset().insert(x));
            to_multiset_contains(r0, x);
            assert(r0.to_multiset().count(x) > 0);
            assert(out@.to_multiset().add(rest@.to_multiset()) =~= input0.to_multiset());
            // The pushed element keeps the prefix sorted and still dominates
            // everything that remains.
            if out0.len() > 0 {
                assert forall|t: int| 0 <= t < out0.len() implies T::key_ge(
                    #[trigger] out0[t],
                    x,
                ) by {
                    T::lemma_trans(out0[t], out0[out0.len() - 1], x);
                }
            }
            assert forall|t: int| 0 <= t < rest@.len() implies T::key_ge(
                out@[out@.len() - 1],
                #[trigger] rest@[t],
            ) by {
                if t == m {
                    assert(rest@[t] == r0[r0.len() - 1]);
                } else {
                    assert(rest@[t] == r0[t]);
                }
            }
        }
    }
    out
}

/// Two sequences with equal multisets draw their elements from each other.
pub proof fn lemma_multiset_elems<T>(a: Seq<T>, b: Seq<T>)
    requires
        a.to_multiset() == b.to_multiset(),
    ensures
        forall|t: int| 0 <= t < b.len() ==> a.contains(#[trigger] b[t]),
{
    broadcast use group_to_multiset_ensures;

    assert forall|t: int| 0 <= t < b.len() implies a.contains(#[trigger] b[t]) by {
        assert(b.contains(b[t]));
        assert(b.to_multiset().count(b[t]) > 0);
    }
}

/// A sequence whose elements never repeat, rearranged into another with the
/// same multiset, still never repeats an element.
pub proof fn lemma_multiset_no_dup<T>(a: Seq<T>, b: Seq<T>)
    requires
        a.to_multiset() == b.to_multiset(),
        a.no_duplicates(),
    ensures
        b.no_duplicates(),
{
    a.lemma_multiset_has_no_duplicates();
    b.lemma_multiset_has_no_duplicates_conv();
}

} // verus!
