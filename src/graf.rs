//! Reachability in a dependency graph given by a neighbour function.
use vstd::prelude::*;

verus! {

/// `p` is a walk: every element after the first is a neighbour of the one before it.
pub open spec fn yol<K>(komsu: spec_fn(K) -> Seq<K>, p: Seq<K>) -> bool {
    &&& p.len() > 0
    &&& forall|i: int| 0 <= i < p.len() - 1 ==> #[trigger] komsu(p[i]).contains(p[i + 1])
}

/// `b` can be reached from `a` by following neighbours zero or more times.
pub open spec fn ulasilir<K>(komsu: spec_fn(K) -> Seq<K>, a: K, b: K) -> bool {
    exists|p: Seq<K>| #[trigger] yol(komsu, p) && p[0] == a && p.last() == b
}

/// Every neighbour of an element of `s` is in `s`.
pub open spec fn kapali<K>(komsu: spec_fn(K) -> Seq<K>, s: Seq<K>) -> bool {
    forall|i: int, j: int|
        0 <= i < s.len() && 0 <= j < komsu(s[i]).len() ==> s.contains(#[trigger] komsu(s[i])[j])
}

/// Some element reachable from `a` lies on a cycle.
pub open spec fn dongu_var<K>(komsu: spec_fn(K) -> Seq<K>, a: K) -> bool {
    exists|p: Seq<K>|
        #[trigger] yol(komsu, p) && p.len() > 1 && p[0] == p.last() && ulasilir(komsu, a, p[0])
}

pub proof fn lemma_kendisi<K>(komsu: spec_fn(K) -> Seq<K>, a: K)
    ensures
        ulasilir(komsu, a, a),
{
    let p = seq![a];
    assert(yol(komsu, p));
}

pub proof fn lemma_uzat<K>(komsu: spec_fn(K) -> Seq<K>, a: K, b: K, c: K)
    requires
        ulasilir(komsu, a, b),
        komsu(b).contains(c),
    ensures
        ulasilir(komsu, a, c),
{
    let p = choose|p: Seq<K>| #[trigger] yol(komsu, p) && p[0] == a && p.last() == b;
    let q = p.push(c);
    assert forall|i: int| 0 <= i < q.len() - 1 implies #[trigger] komsu(q[i]).contains(q[i + 1]) by {
        if i < p.len() - 1 {
            assert(q[i] == p[i]);
            assert(q[i + 1] == p[i + 1]);
        } else {
            assert(q[i] == b);
        }
    }
    assert(yol(komsu, q));
}

proof fn lemma_yol_icinde<K>(komsu: spec_fn(K) -> Seq<K>, s: Seq<K>, p: Seq<K>, i: int)
    requires
        kapali(komsu, s),
        yol(komsu, p),
        s.contains(p[0]),
        0 <= i < p.len(),
    ensures
        s.contains(p[i]),
    decreases i,
{
    if i > 0 {
        lemma_yol_icinde(komsu, s, p, i - 1);
        let h = i - 1;
        assert(komsu(p[h]).contains(p[h + 1]));
        let k = choose|k: int| 0 <= k < s.len() && s[k] == p[h];
        let j = choose|j: int| 0 <= j < komsu(p[h]).len() && #[trigger] komsu(p[h])[j] == p[h + 1];
        assert(s.contains(komsu(s[k])[j]));
    }
}

/// A closed sequence that holds `a` holds everything reachable from `a`.
pub proof fn lemma_kapali_ulasilani_icerir<K>(komsu: spec_fn(K) -> Seq<K>, s: Seq<K>, a: K, b: K)
    requires
        kapali(komsu, s),
        s.contains(a),
        ulasilir(komsu, a, b),
    ensures
        s.contains(b),
{
    let p = choose|p: Seq<K>| #[trigger] yol(komsu, p) && p[0] == a && p.last() == b;
    lemma_yol_icinde(komsu, s, p, p.len() - 1);
}

} // verus!

verus! {

/// How many of the first `k` elements of `u` fall outside the predicate `f`.
pub open spec fn disarida<K>(u: Seq<K>, f: spec_fn(K) -> bool, k: int) -> nat
    decreases k,
{
    if k <= 0 {
        0
    } else {
        disarida(u, f, k - 1) + (if f(u[k - 1]) {
            0nat
        } else {
            1nat
        })
    }
}

/// Growing the predicate never raises the count, and lowers it when a counted element joins.
pub proof fn lemma_disarida<K>(u: Seq<K>, f: spec_fn(K) -> bool, g: spec_fn(K) -> bool, k: int)
    requires
        0 <= k <= u.len(),
        forall|x: K| #[trigger] f(x) ==> g(x),
    ensures
        disarida(u, g, k) <= disarida(u, f, k),
        (exists|j: int| 0 <= j < k && !f(u[j]) && g(u[j])) ==> disarida(u, g, k) < disarida(u, f, k),
    decreases k,
{
    if k > 0 {
        lemma_disarida(u, f, g, k - 1);
        if f(u[k - 1]) {
            assert(g(u[k - 1]));
        }
    }
}

} // verus!
