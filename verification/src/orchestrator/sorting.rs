//! Ordered sets of component lists: what a `BTreeSet` of paths or of names
//! holds, in the order it walks them.
use vstd::prelude::*;
use crate::execution_graph::types::{clone_strings, strs_view};
use super::paths::{key_equal, key_less, key_lt, lemma_key_lt_asymmetric, lemma_key_lt_irreflexive,
    lemma_key_lt_total, lemma_key_lt_transitive};

verus! {

pub open spec fn keys_view(v: Seq<Vec<String>>) -> Seq<Seq<Seq<char>>> {
    v.map_values(|x: Vec<String>| strs_view(x@))
}

/// Each key sorts strictly before every later one.
pub open spec fn strictly_sorted(ks: Seq<Seq<Seq<char>>>) -> bool {
    forall|i: int, j: int| 0 <= i < j < ks.len() ==> key_lt(#[trigger] ks[i], #[trigger] ks[j])
}

/// The distinct keys of a list, in ascending order: what a `BTreeSet`
/// built from the list walks.
pub open spec fn sorted_keys(ks: Seq<Seq<Seq<char>>>) -> Seq<Seq<Seq<char>>> {
    choose|s: Seq<Seq<Seq<char>>>|
        strictly_sorted(s) && forall|x: Seq<Seq<char>>| #[trigger] s.contains(x) <==> ks.contains(x)
}

/// Two strictly sorted lists with the same elements are the same list.
pub proof fn lemma_sorted_unique(a: Seq<Seq<Seq<char>>>, b: Seq<Seq<Seq<char>>>)
    requires
        strictly_sorted(a),
        strictly_sorted(b),
        forall|x: Seq<Seq<char>>|
            #![trigger a.contains(x)]
            #![trigger b.contains(x)]
            a.contains(x) <==> b.contains(x),
    ensures
        a == b,
    decreases a.len(),
{
    if a.len() == 0 {
        if b.len() > 0 {
            assert(b.contains(b[0]));
        }
        assert(a =~= b);
    } else {
        assert(a.contains(a[0]));
        assert(b.len() > 0);
        assert(b.contains(b[0]));
        assert(a.contains(b[0]));
        assert(b.contains(a[0]));
        let j = choose|j: int| 0 <= j < b.len() && b[j] == a[0];
        let i = choose|i: int| 0 <= i < a.len() && a[i] == b[0];
        if j > 0 {
            assert(key_lt(b[0], b[j]));
            if i > 0 {
                assert(key_lt(a[0], a[i]));
                lemma_key_lt_asymmetric(a[0], b[0]);
            } else {
                lemma_key_lt_irreflexive(a[0]);
            }
        }
        assert(a[0] == b[0]);
        let a1 = a.drop_first();
        let b1 = b.drop_first();
        assert forall|x: Seq<Seq<char>>|
            #![trigger a1.contains(x)]
            #![trigger b1.contains(x)]
            a1.contains(x) <==> b1.contains(x) by {
            if a1.contains(x) {
                let p = choose|p: int| 0 <= p < a1.len() && a1[p] == x;
                assert(a[p + 1] == x);
                assert(key_lt(a[0], x));
                lemma_key_lt_irreflexive(x);
                assert(a.contains(x));
                let q = choose|q: int| 0 <= q < b.len() && b[q] == x;
                assert(q != 0);
                assert(b1[q - 1] == x);
            }
            if b1.contains(x) {
                let p = choose|p: int| 0 <= p < b1.len() && b1[p] == x;
                assert(b[p + 1] == x);
                assert(key_lt(b[0], x));
                lemma_key_lt_irreflexive(x);
                assert(b.contains(x));
                let q = choose|q: int| 0 <= q < a.len() && a[q] == x;
                assert(q != 0);
                assert(a1[q - 1] == x);
            }
        }
        assert(strictly_sorted(a1)) by {
            assert forall|p: int, q: int| 0 <= p < q < a1.len() implies key_lt(#[trigger] a1[p], #[trigger] a1[q]) by {
                assert(a1[p] == a[p + 1] && a1[q] == a[q + 1]);
            }
        }
        assert(strictly_sorted(b1)) by {
            assert forall|p: int, q: int| 0 <= p < q < b1.len() implies key_lt(#[trigger] b1[p], #[trigger] b1[q]) by {
                assert(b1[p] == b[p + 1] && b1[q] == b[q + 1]);
            }
        }
        lemma_sorted_unique(a1, b1);
        assert(a =~= seq![a[0]] + a1);
        assert(b =~= seq![b[0]] + b1);
    }
}

/// Adds a key to a strictly sorted list unless it is there already.
fn insert_key(out: &mut Vec<Vec<String>>, k: Vec<String>)
    requires
        strictly_sorted(keys_view(old(out)@)),
    ensures
        strictly_sorted(keys_view(final(out)@)),
        forall|x: Seq<Seq<char>>|
            keys_view(final(out)@).contains(x) <==> (keys_view(old(out)@).contains(x) || x
                == strs_view(k@)),
{
    let ghost ks = keys_view(out@);
    let ghost kv = strs_view(k@);
    let mut i: usize = 0;
    while i < out.len() && key_less(&out[i], &k)
        invariant
            i <= out.len(),
            ks == keys_view(out@),
            kv == strs_view(k@),
            forall|j: int| 0 <= j < i ==> key_lt(#[trigger] ks[j], kv),
        decreases out.len() - i,
    {
        proof {
            assert(ks[i as int] == strs_view(out@[i as int]@));
        }
        i += 1;
    }
    if i < out.len() && key_equal(&out[i], &k) {
        proof {
            assert(ks[i as int] == kv);
            assert forall|x: Seq<Seq<char>>|
                keys_view(out@).contains(x) <==> (ks.contains(x) || x == kv) by {
                if x == kv {
                    assert(ks[i as int] == x);
                }
            }
        }
        return;
    }
    proof {
        if i < out.len() {
            assert(ks[i as int] == strs_view(out@[i as int]@));
            lemma_key_lt_total(ks[i as int], kv);
        }
    }
    out.insert(i, k);
    proof {
        let nk = keys_view(out@);
        assert(nk =~= ks.insert(i as int, kv));
        assert forall|a: int, b: int| 0 <= a < b < nk.len() implies key_lt(
            #[trigger] nk[a],
            #[trigger] nk[b],
        ) by {
            if b < i {
                assert(nk[a] == ks[a] && nk[b] == ks[b]);
            } else if b == i {
                assert(nk[a] == ks[a]);
            } else if a < i {
                assert(nk[a] == ks[a]);
                assert(nk[b] == ks[b - 1]);
                assert(key_lt(ks[i as int], ks[b - 1]) || b - 1 == i);
                lemma_key_lt_transitive(ks[a], kv, ks[i as int]);
                if b - 1 > i {
                    lemma_key_lt_transitive(ks[a], ks[i as int], ks[b - 1]);
                }
            } else if a == i {
                assert(nk[b] == ks[b - 1]);
                if b - 1 > i {
                    lemma_key_lt_transitive(kv, ks[i as int], ks[b - 1]);
                }
            } else {
                assert(nk[a] == ks[a - 1] && nk[b] == ks[b - 1]);
            }
        }
        assert forall|x: Seq<Seq<char>>| nk.contains(x) <==> (ks.contains(x) || x == kv) by {
            if nk.contains(x) {
                let q = choose|q: int| 0 <= q < nk.len() && nk[q] == x;
                if q < i {
                    assert(ks[q] == x);
                } else if q > i {
                    assert(ks[q - 1] == x);
                }
            }
            if ks.contains(x) {
                let q = choose|q: int| 0 <= q < ks.len() && ks[q] == x;
                if q < i {
                    assert(nk[q] == x);
                } else {
                    assert(nk[q + 1] == x);
                }
            }
            if x == kv {
                assert(nk[i as int] == x);
            }
        }
    }
}

/// The distinct keys, in ascending order.
pub fn sorted_distinct(keys: &Vec<Vec<String>>) -> (r: Vec<Vec<String>>)
    ensures
        strictly_sorted(keys_view(r@)),
        forall|x: Seq<Seq<char>>| keys_view(r@).contains(x) <==> keys_view(keys@).contains(x),
        keys_view(r@) == sorted_keys(keys_view(keys@)),
{
    let ghost input = keys_view(keys@);
    let mut out: Vec<Vec<String>> = Vec::new();
    let mut idx: usize = 0;
    while idx < keys.len()
        invariant
            idx <= keys.len(),
            input == keys_view(keys@),
            strictly_sorted(keys_view(out@)),
            forall|x: Seq<Seq<char>>|
                keys_view(out@).contains(x) <==> input.take(idx as int).contains(x),
        decreases keys.len() - idx,
    {
        let k = clone_strings(&keys[idx]);
        proof {
            assert(strs_view(k@) == input[idx as int]);
        }
        insert_key(&mut out, k);
        proof {
            assert forall|x: Seq<Seq<char>>|
                keys_view(out@).contains(x) <==> input.take(idx + 1).contains(x) by {
                let t = input.take(idx as int);
                let t1 = input.take(idx + 1);
                assert(t1 =~= t.push(input[idx as int]));
                if t.contains(x) {
                    let q = choose|q: int| 0 <= q < t.len() && t[q] == x;
                    assert(t1[q] == x);
                }
                if t1.contains(x) {
                    let q = choose|q: int| 0 <= q < t1.len() && t1[q] == x;
                    if q < idx {
                        assert(t[q] == x);
                    }
                }
                if x == input[idx as int] {
                    assert(t1[idx as int] == x);
                }
            }
        }
        idx += 1;
    }
    proof {
        assert(input.take(keys.len() as int) =~= input);
        let r = keys_view(out@);
        assert(strictly_sorted(r) && forall|x: Seq<Seq<char>>| #[trigger] r.contains(x) <==> input.contains(x));
        let c = sorted_keys(input);
        lemma_sorted_unique(r, c);
    }
    out
}

} // verus!
