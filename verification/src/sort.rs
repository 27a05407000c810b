//! Deterministic ordering: plan entries, status entries and names are
//! sorted lexicographically by a string key, so that output and tests are
//! reproducible. The sort returns a permutation of its input (stated as
//! multiset equality) that is sorted by the key.

use vstd::prelude::*;

use crate::text::{lemma_lex_total, lemma_lex_trans, lex_le, str_le};
use vstd::multiset::Multiset;

verus! {

broadcast use vstd::seq_lib::group_to_multiset_ensures;

/// A value ordered by a character-sequence key.
pub trait SortKey: Sized {
    spec fn key(&self) -> Seq<char>;

    fn key_str(&self) -> (r: &str)
        ensures
            r@ == self.key(),
    ;
}

impl SortKey for String {
    open spec fn key(&self) -> Seq<char> {
        self@
    }

    fn key_str(&self) -> (r: &str) {
        self.as_str()
    }
}

/// Every element sorts at or before all later elements.
pub open spec fn sorted_by_key<T: SortKey>(s: Seq<T>) -> bool {
    forall|i: int, j: int| 0 <= i < j < s.len() ==> lex_le(s[i].key(), s[j].key())
}

/// Sorts `v` by key; the result is a permutation of the input.
pub fn sort_by_key<T: SortKey>(v: Vec<T>) -> (r: Vec<T>)
    ensures
        sorted_by_key(r@),
        r@.to_multiset() == v@.to_multiset(),
{
    let mut src = v;
    let mut out: Vec<T> = Vec::new();
    proof {
        assert(out@.to_multiset().add(src@.to_multiset()) =~= v@.to_multiset());
    }
    while src.len() > 0
        invariant
            out@.to_multiset().add(src@.to_multiset()) == v@.to_multiset(),
            sorted_by_key(out@),
            forall|i: int, j: int|
                0 <= i < out@.len() && 0 <= j < src@.len() ==> lex_le(
                    out@[i].key(),
                    src@[j].key(),
                ),
        decreases src.len(),
    {
        let mut m: usize = 0;
        let mut k: usize = 1;
        proof {
            lemma_lex_total(src@[0].key(), src@[0].key());
        }
        while k < src.len()
            invariant
                src.len() > 0,
                m < k,
                k <= src.len(),
                forall|j: int| 0 <= j < k ==> lex_le(src@[m as int].key(), src@[j].key()),
            decreases src.len() - k,
        {
            if str_le(src[k].key_str(), src[m].key_str()) {
                proof {
                    assert forall|j: int| 0 <= j < k + 1 implies lex_le(
                        src@[k as int].key(),
                        src@[j].key(),
                    ) by {
                        lemma_lex_total(src@[k as int].key(), src@[k as int].key());
                        if j < k {
                            lemma_lex_trans(
                                src@[k as int].key(),
                                src@[m as int].key(),
                                src@[j].key(),
                            );
                        }
                    }
                }
                m = k;
            } else {
                proof {
                    lemma_lex_total(src@[k as int].key(), src@[m as int].key());
                }
            }
            k = k + 1;
        }
        let ghost src_before = src@;
        let ghost out_before = out@;
        let e = src.remove(m);
        proof {
            assert(src@.to_multiset() =~= src_before.to_multiset().remove(e));
            assert(src_before.to_multiset().count(e) > 0) by {
                assert(src_before.contains(e));
            }
            assert(out_before.push(e).to_multiset().add(src@.to_multiset())
                =~= out_before.to_multiset().add(src_before.to_multiset()));
        }
        out.push(e);
        proof {
            assert forall|i: int, j: int| 0 <= i < j < out@.len() implies lex_le(
                out@[i].key(),
                out@[j].key(),
            ) by {
                if j == out@.len() - 1 {
                    assert(out@[j] == e);
                    assert(out@[i] == out_before[i]);
                    assert(lex_le(out_before[i].key(), src_before[m as int].key()));
                }
            }
            assert forall|i: int, j: int|
                0 <= i < out@.len() && 0 <= j < src@.len() implies lex_le(
                out@[i].key(),
                src@[j].key(),
            ) by {
                assert(src@[j] == (if j < m { src_before[j] } else { src_before[j + 1] }));
                assert(lex_le(e.key(), src@[j].key()));
                if i < out@.len() - 1 {
                    assert(lex_le(out@[i].key(), src_before[m as int].key()));
                    lemma_lex_trans(out@[i].key(), e.key(), src@[j].key());
                }
            }
        }
    }
    proof {
        assert(src@.to_multiset() =~= Multiset::empty());
        assert(out@.to_multiset() =~= v@.to_multiset());
    }
    out
}

/// A permutation maps to a permutation: multiset-equal sequences have
/// multiset-equal images under `f`.
pub proof fn lemma_map_multiset<T, B>(s1: Seq<T>, s2: Seq<T>, f: spec_fn(T) -> B)
    requires
        s1.to_multiset() == s2.to_multiset(),
    ensures
        Seq::new(s1.len(), |i: int| f(s1[i])).to_multiset() == Seq::new(
            s2.len(),
            |i: int| f(s2[i]),
        ).to_multiset(),
    decreases s1.len(),
{
    let m1 = Seq::new(s1.len(), |i: int| f(s1[i]));
    let m2 = Seq::new(s2.len(), |i: int| f(s2[i]));
    if s1.len() == 0 {
        assert(s2.to_multiset().len() == 0);
        assert(m1 =~= Seq::<B>::empty());
        assert(m2 =~= Seq::<B>::empty());
    } else {
        let e = s1.last();
        assert(s1.contains(e));
        assert(s1.to_multiset().count(e) > 0);
        assert(s2.to_multiset().count(e) > 0);
        assert(s2.contains(e));
        let j = choose|j: int| 0 <= j < s2.len() && s2[j] == e;
        let s1p = s1.drop_last();
        let s2p = s2.remove(j);
        assert(s1 =~= s1p.push(e));
        assert(s1.to_multiset() == s1p.to_multiset().insert(e));
        assert(s2p.to_multiset() == s2.to_multiset().remove(e));
        assert(s1p.to_multiset() =~= s2p.to_multiset()) by {
            assert(s1p.to_multiset().insert(e).remove(e) =~= s1p.to_multiset());
        }
        lemma_map_multiset(s1p, s2p, f);
        let m1p = Seq::new(s1p.len(), |i: int| f(s1p[i]));
        let m2p = Seq::new(s2p.len(), |i: int| f(s2p[i]));
        assert(m1 =~= m1p.push(f(e)));
        assert(m1.to_multiset() == m1p.to_multiset().insert(f(e)));
        assert(m2.remove(j) =~= m2p);
        assert(m2.remove(j).to_multiset() == m2.to_multiset().remove(m2[j]));
        assert(m2[j] == f(e));
        assert(m2.contains(f(e)));
        assert(m2.to_multiset().count(f(e)) > 0);
        assert(m2.to_multiset() =~= m2p.to_multiset().insert(f(e)));
        assert(m1.to_multiset() =~= m2.to_multiset());
    }
}

} // verus!
