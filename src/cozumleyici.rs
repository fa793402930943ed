//! Resolution of the packages required by one root, refusing graphs with cycles.
use vstd::prelude::*;
use crate::graf::{
    disarida, dongu_var, kapali, lemma_disarida, lemma_kapali_ulasilani_icerir, lemma_kendisi,
    lemma_uzat, ulasilir, yol,
};
use crate::harita::{anahtarlar, kimlikler, komsu, konum, lemma_konum, listede, Dependencies, Package};
use crate::metin::tekrarsiz;

verus! {

/// Why resolution stopped.
#[derive(Debug, Clone, PartialEq, Eq)]
pub enum DependencyError {
    CycleDetected,
}

/// Some entry of the stack holds `x` and is marked as being resolved.
pub open spec fn isaretli(y: Seq<(Seq<char>, Seq<char>)>, b: Seq<bool>, x: (Seq<char>, Seq<char>)) -> bool {
    exists|i: int| 0 <= i < y.len() && i < b.len() && b[i] && #[trigger] y[i] == x
}

/// Each element's requirements stand before it in `s`.
pub open spec fn sonra_sirali(
    k: spec_fn((Seq<char>, Seq<char>)) -> Seq<(Seq<char>, Seq<char>)>,
    s: Seq<(Seq<char>, Seq<char>)>,
) -> bool {
    forall|i: int, j: int|
        0 <= i < s.len() && 0 <= j < k(s[i]).len() ==> s.subrange(0, i).contains(#[trigger] k(s[i])[j])
}

/// The index of the first `x` in `s`, or the length of `s`.
pub open spec fn ilk(s: Seq<(Seq<char>, Seq<char>)>, x: (Seq<char>, Seq<char>)) -> int
    decreases s.len(),
{
    if s.len() == 0 {
        0
    } else if s[0] == x {
        0
    } else {
        1 + ilk(s.drop_first(), x)
    }
}

proof fn lemma_ilk(s: Seq<(Seq<char>, Seq<char>)>, x: (Seq<char>, Seq<char>))
    ensures
        0 <= ilk(s, x) <= s.len(),
        ilk(s, x) < s.len() ==> s[ilk(s, x)] == x,
        forall|t: int| 0 <= t < ilk(s, x) ==> s[t] != x,
        s.contains(x) ==> ilk(s, x) < s.len(),
    decreases s.len(),
{
    if s.len() > 0 && s[0] != x {
        lemma_ilk(s.drop_first(), x);
        assert forall|t: int| 0 <= t < ilk(s, x) implies s[t] != x by {
            if t > 0 {
                assert(s[t] == s.drop_first()[t - 1]);
            }
        }
        if s.contains(x) {
            let t = choose|t: int| 0 <= t < s.len() && s[t] == x;
            assert(s.drop_first()[t - 1] == x);
        }
    }
}

proof fn lemma_yol_azalir(
    k: spec_fn((Seq<char>, Seq<char>)) -> Seq<(Seq<char>, Seq<char>)>,
    s: Seq<(Seq<char>, Seq<char>)>,
    p: Seq<(Seq<char>, Seq<char>)>,
    n: int,
)
    requires
        sonra_sirali(k, s),
        yol(k, p),
        s.contains(p[0]),
        1 <= n < p.len(),
    ensures
        s.contains(p[n]),
        ilk(s, p[n]) < ilk(s, p[0]),
    decreases n,
{
    let m = n - 1;
    if m >= 1 {
        lemma_yol_azalir(k, s, p, m);
    }
    lemma_ilk(s, p[m]);
    let i = ilk(s, p[m]);
    assert(k(p[m]).contains(p[m + 1]));
    let j = choose|j: int| 0 <= j < k(p[m]).len() && #[trigger] k(p[m])[j] == p[m + 1];
    assert(s[i] == p[m]);
    assert(s.subrange(0, i).contains(k(s[i])[j]));
    let t = choose|t: int| 0 <= t < i && s.subrange(0, i)[t] == p[n];
    assert(s[t] == p[n]);
    lemma_ilk(s, p[n]);
}

/// A sequence whose elements each follow their requirements, and which holds what `a`
/// reaches, leaves no cycle reachable from `a`.
proof fn lemma_dongusuz(
    k: spec_fn((Seq<char>, Seq<char>)) -> Seq<(Seq<char>, Seq<char>)>,
    s: Seq<(Seq<char>, Seq<char>)>,
    a: (Seq<char>, Seq<char>),
)
    requires
        sonra_sirali(k, s),
        forall|x: (Seq<char>, Seq<char>)| ulasilir(k, a, x) ==> s.contains(x),
    ensures
        !dongu_var(k, a),
{
    if dongu_var(k, a) {
        let p = choose|p: Seq<(Seq<char>, Seq<char>)>|
            #[trigger] yol(k, p) && p.len() > 1 && p[0] == p.last() && ulasilir(k, a, p[0]);
        lemma_yol_azalir(k, s, p, p.len() - 1);
    }
}

/// Whether `p` has an entry on the stack that is being resolved.
fn isaretli_mi(yigin: &Vec<Package>, bitti: &Vec<bool>, p: &Package) -> (r: bool)
    requires
        yigin@.len() == bitti@.len(),
    ensures
        r == isaretli(kimlikler(yigin@), bitti@, p@),
{
    let mut i: usize = 0;
    while i < yigin.len()
        invariant
            yigin@.len() == bitti@.len(),
            0 <= i <= yigin@.len(),
            forall|t: int| 0 <= t < i ==> !(bitti@[t] && kimlikler(yigin@)[t] == p@),
        decreases yigin.len() - i,
    {
        assert(kimlikler(yigin@)[i as int] == yigin@[i as int]@);
        if bitti[i] && yigin[i].ayni(p) {
            return true;
        }
        i += 1;
    }
    false
}


/// The position of the nearest entry below `p` that is being resolved, or -1.
pub open spec fn ebeveyn(b: Seq<bool>, p: int) -> int
    decreases p,
{
    if p <= 0 {
        -1
    } else if b[p - 1] {
        p - 1
    } else {
        ebeveyn(b, p - 1)
    }
}

proof fn lemma_ebeveyn(b: Seq<bool>, p: int)
    requires
        0 <= p <= b.len(),
    ensures
        -1 <= ebeveyn(b, p) < p,
        ebeveyn(b, p) >= 0 ==> b[ebeveyn(b, p)],
        forall|q: int| ebeveyn(b, p) < q < p ==> !b[q],
    decreases p,
{
    if p > 0 && !b[p - 1] {
        lemma_ebeveyn(b, p - 1);
    }
}

proof fn lemma_ebeveyn_onek(b: Seq<bool>, c: Seq<bool>, p: int)
    requires
        0 <= p <= b.len(),
        p <= c.len(),
        forall|q: int| 0 <= q < p ==> b[q] == c[q],
    ensures
        ebeveyn(b, p) == ebeveyn(c, p),
    decreases p,
{
    if p > 0 {
        lemma_ebeveyn_onek(b, c, p - 1);
    }
}

proof fn lemma_ebeveyn_isaret(b: Seq<bool>, t: int, p: int)
    requires
        0 <= t < p <= b.len(),
        b[t],
        forall|q: int| t < q < p ==> !b[q],
    ensures
        ebeveyn(b, p) == t,
    decreases p,
{
    if p - 1 > t {
        lemma_ebeveyn_isaret(b, t, p - 1);
    }
}

/// Each entry being resolved reaches every later one, and every other entry is required by
/// the nearest entry below it that is being resolved, or is the root when there is none.
pub open spec fn yol_duzeni(
    k: spec_fn((Seq<char>, Seq<char>)) -> Seq<(Seq<char>, Seq<char>)>,
    y: Seq<(Seq<char>, Seq<char>)>,
    b: Seq<bool>,
    a: (Seq<char>, Seq<char>),
) -> bool {
    &&& y.len() == b.len()
    &&& forall|i: int, j: int|
        0 <= i <= j < y.len() && b[i] && b[j] ==> #[trigger] ulasilir(k, y[i], y[j])
    &&& forall|p: int|
        0 <= p < y.len() && !b[p] ==> (if ebeveyn(b, p) >= 0 {
            k(y[ebeveyn(b, p)]).contains(#[trigger] y[p])
        } else {
            y[p] == a
        })
}

proof fn lemma_duzen_pop(
    k: spec_fn((Seq<char>, Seq<char>)) -> Seq<(Seq<char>, Seq<char>)>,
    y: Seq<(Seq<char>, Seq<char>)>,
    b: Seq<bool>,
    a: (Seq<char>, Seq<char>),
)
    requires
        yol_duzeni(k, y, b, a),
        y.len() > 0,
    ensures
        yol_duzeni(k, y.drop_last(), b.drop_last(), a),
{
    let y1 = y.drop_last();
    let b1 = b.drop_last();
    assert forall|i: int, j: int| 0 <= i <= j < y1.len() && b1[i] && b1[j] implies #[trigger] ulasilir(k, y1[i], y1[j]) by {
        assert(y1[i] == y[i] && y1[j] == y[j] && b1[i] == b[i] && b1[j] == b[j]);
        assert(ulasilir(k, y[i], y[j]));
    }
    assert forall|p: int| 0 <= p < y1.len() && !b1[p] implies (if ebeveyn(b1, p) >= 0 {
        k(y1[ebeveyn(b1, p)]).contains(#[trigger] y1[p])
    } else {
        y1[p] == a
    }) by {
        lemma_ebeveyn_onek(b1, b, p);
        lemma_ebeveyn(b, p);
        assert(y1[p] == y[p] && b1[p] == b[p]);
        if ebeveyn(b, p) >= 0 {
            assert(y1[ebeveyn(b, p)] == y[ebeveyn(b, p)]);
        }
    }
}

proof fn lemma_duzen_genislet(
    k: spec_fn((Seq<char>, Seq<char>)) -> Seq<(Seq<char>, Seq<char>)>,
    ey: Seq<(Seq<char>, Seq<char>)>,
    eb: Seq<bool>,
    y: Seq<(Seq<char>, Seq<char>)>,
    b: Seq<bool>,
    a: (Seq<char>, Seq<char>),
)
    requires
        yol_duzeni(k, ey, eb, a),
        ey.len() > 0,
        !eb.last(),
        y.len() == b.len(),
        y.len() >= ey.len(),
        forall|t: int| 0 <= t < ey.len() ==> y[t] == ey[t],
        forall|t: int| 0 <= t < ey.len() - 1 ==> b[t] == eb[t],
        b[ey.len() - 1],
        forall|t: int| ey.len() <= t < y.len() ==> !b[t] && k(ey.last()).contains(y[t]),
    ensures
        yol_duzeni(k, y, b, a),
{
    let top = ey.len() - 1;
    let x = ey[top];
    lemma_ebeveyn(eb, top);
    let m = ebeveyn(eb, top);
    assert(!eb[top]);
    assert forall|i: int, j: int| 0 <= i <= j < y.len() && b[i] && b[j] implies #[trigger] ulasilir(k, y[i], y[j]) by {
        assert(j <= top);
        if j < top {
            assert(y[i] == ey[i] && y[j] == ey[j] && b[i] == eb[i] && b[j] == eb[j]);
            assert(ulasilir(k, ey[i], ey[j]));
        } else if i == top {
            lemma_kendisi(k, x);
        } else {
            assert(b[i] == eb[i]);
            assert(m >= 0 && i <= m);
            assert(k(ey[m]).contains(ey[top]));
            assert(ulasilir(k, ey[i], ey[m]));
            lemma_uzat(k, ey[i], ey[m], x);
        }
    }
    assert forall|p: int| 0 <= p < y.len() && !b[p] implies (if ebeveyn(b, p) >= 0 {
        k(y[ebeveyn(b, p)]).contains(#[trigger] y[p])
    } else {
        y[p] == a
    }) by {
        if p < top {
            lemma_ebeveyn_onek(b, eb, p);
            lemma_ebeveyn(eb, p);
            assert(y[p] == ey[p] && b[p] == eb[p]);
            if ebeveyn(eb, p) >= 0 {
                assert(y[ebeveyn(eb, p)] == ey[ebeveyn(eb, p)]);
            }
        } else {
            assert(p > top);
            lemma_ebeveyn_isaret(b, top, p);
            assert(y[top] == x);
        }
    }
}

proof fn lemma_dongu_kur(
    k: spec_fn((Seq<char>, Seq<char>)) -> Seq<(Seq<char>, Seq<char>)>,
    a: (Seq<char>, Seq<char>),
    x: (Seq<char>, Seq<char>),
    z: (Seq<char>, Seq<char>),
)
    requires
        ulasilir(k, a, x),
        ulasilir(k, x, z),
        k(z).contains(x),
    ensures
        dongu_var(k, a),
{
    let p = choose|p: Seq<(Seq<char>, Seq<char>)>| #[trigger] yol(k, p) && p[0] == x && p.last() == z;
    let q = p.push(x);
    assert forall|i: int| 0 <= i < q.len() - 1 implies #[trigger] k(q[i]).contains(q[i + 1]) by {
        if i < p.len() - 1 {
            assert(q[i] == p[i]);
            assert(q[i + 1] == p[i + 1]);
        } else {
            assert(q[i] == z);
        }
    }
    assert(yol(k, q));
    assert(q[0] == x && q.last() == x);
}

/// Popping the top entry, when the recorded packages grow to `z` and take in the popped one,
/// keeps the pending requirements of every entry that is being resolved accounted for, keeps
/// the root in view, and loses no package that was recorded or being resolved.
proof fn lemma_cikarma(
    k: spec_fn((Seq<char>, Seq<char>)) -> Seq<(Seq<char>, Seq<char>)>,
    a: (Seq<char>, Seq<char>),
    ey: Seq<(Seq<char>, Seq<char>)>,
    eb: Seq<bool>,
    ez: Seq<(Seq<char>, Seq<char>)>,
    z: Seq<(Seq<char>, Seq<char>)>,
)
    requires
        ey.len() == eb.len(),
        ey.len() > 0,
        forall|m: int, j: int|
            0 <= m < ey.len() && eb[m] && 0 <= j < k(ey[m]).len() ==> ez.contains(#[trigger] k(ey[m])[j])
                || ey.subrange(m + 1, ey.len() as int).contains(k(ey[m])[j]),
        ez.contains(a) || ey.contains(a),
        forall|x: (Seq<char>, Seq<char>)| ez.contains(x) ==> z.contains(x),
        z.contains(ey.last()),
    ensures
        forall|m: int, j: int|
            0 <= m < ey.drop_last().len() && eb.drop_last()[m] && 0 <= j < k(ey.drop_last()[m]).len()
                ==> z.contains(#[trigger] k(ey.drop_last()[m])[j]) || ey.drop_last().subrange(
                m + 1,
                ey.drop_last().len() as int,
            ).contains(k(ey.drop_last()[m])[j]),
        z.contains(a) || ey.drop_last().contains(a),
        forall|x: (Seq<char>, Seq<char>)|
            (ez.contains(x) || isaretli(ey, eb, x)) ==> (z.contains(x) || isaretli(ey.drop_last(), eb.drop_last(), x)),
{
    let y1 = ey.drop_last();
    let b1 = eb.drop_last();
    let top = ey.len() - 1;
    assert forall|m: int, j: int|
        0 <= m < y1.len() && b1[m] && 0 <= j < k(y1[m]).len() implies z.contains(#[trigger] k(y1[m])[j])
        || y1.subrange(m + 1, y1.len() as int).contains(k(y1[m])[j]) by {
        let d = k(y1[m])[j];
        assert(y1[m] == ey[m] && b1[m] == eb[m]);
        if !ez.contains(d) {
            assert(ey.subrange(m + 1, ey.len() as int).contains(d));
            let t = choose|t: int| 0 <= t < ey.len() - (m + 1) && #[trigger] ey.subrange(m + 1, ey.len() as int)[t] == d;
            if m + 1 + t == top {
                assert(d == ey[top]);
            } else {
                assert(y1.subrange(m + 1, y1.len() as int)[t] == d);
            }
        }
    }
    if !ez.contains(a) {
        let t = choose|t: int| 0 <= t < ey.len() && ey[t] == a;
        if t < top {
            assert(y1[t] == a);
        }
    }
    assert forall|x: (Seq<char>, Seq<char>)|
        (ez.contains(x) || isaretli(ey, eb, x)) implies (z.contains(x) || isaretli(y1, b1, x)) by {
        if isaretli(ey, eb, x) && !ez.contains(x) && !z.contains(x) {
            let i = choose|i: int| 0 <= i < ey.len() && i < eb.len() && eb[i] && #[trigger] ey[i] == x;
            assert(i != top);
            assert(y1[i] == x && b1[i]);
        }
    }
}

/// Resolves every package that `root_package` requires. A popped entry that is neither
/// resolved nor being resolved, and that has an entry in the graph, is marked as being
/// resolved and stays on the stack beneath its requirements; it is recorded once they all are.
/// Meeting a package that is still being resolved means the walk came back to one of its own
/// ancestors, and the cycle is reported. A root without an entry in the graph requires nothing.
pub fn resolve_dependencies(dependencies: &Dependencies, root_package: &Package) -> (r: Result<
    Vec<Package>,
    DependencyError,
>)
    ensures
        konum(dependencies@, root_package@) == -1 ==> (r matches Ok(v) && v@.len() == 0),
        konum(dependencies@, root_package@) >= 0 && dongu_var(komsu(dependencies@), root_package@)
            ==> r is Err,
        r is Err ==> dongu_var(komsu(dependencies@), root_package@),
        r matches Ok(v) ==> tekrarsiz(kimlikler(v@)) && sonra_sirali(komsu(dependencies@), kimlikler(v@)),
        r matches Ok(v) ==> (konum(dependencies@, root_package@) >= 0 ==> forall|x: (Seq<char>, Seq<char>)|
            kimlikler(v@).contains(x) <==> ulasilir(komsu(dependencies@), root_package@, x)),
{
    let ghost g = dependencies@;
    let ghost k = komsu(g);
    let ghost a = root_package@;
    if !dependencies.contains_key(root_package) {
        let bos: Vec<Package> = Vec::new();
        proof {
            assert(kimlikler(bos@) =~= Seq::<(Seq<char>, Seq<char>)>::empty());
        }
        return Ok(bos);
    }
    let mut cozulen: Vec<Package> = Vec::new();
    let mut yigin: Vec<Package> = Vec::new();
    let mut bitti: Vec<bool> = Vec::new();
    yigin.push(root_package.kopya());
    bitti.push(false);
    proof {
        lemma_kendisi(k, a);
        assert(kimlikler(yigin@) =~= seq![a]);
        assert(kimlikler(yigin@)[0] == a);
        assert(kimlikler(cozulen@) =~= Seq::<(Seq<char>, Seq<char>)>::empty());
        assert(ebeveyn(bitti@, 0) == -1);
    }
    while yigin.len() > 0
        invariant
            g == dependencies@,
            k == komsu(g),
            a == root_package@,
            konum(g, a) >= 0,
            yigin@.len() == bitti@.len(),
            yol_duzeni(k, kimlikler(yigin@), bitti@, a),
            forall|i: int| 0 <= i < yigin@.len() ==> #[trigger] ulasilir(k, a, kimlikler(yigin@)[i]),
            forall|i: int| 0 <= i < cozulen@.len() ==> #[trigger] ulasilir(k, a, kimlikler(cozulen@)[i]),
            tekrarsiz(kimlikler(cozulen@)),
            sonra_sirali(k, kimlikler(cozulen@)),
            forall|m: int, j: int|
                0 <= m < yigin@.len() && bitti@[m] && 0 <= j < k(kimlikler(yigin@)[m]).len()
                    ==> kimlikler(cozulen@).contains(#[trigger] k(kimlikler(yigin@)[m])[j])
                    || kimlikler(yigin@).subrange(m + 1, yigin@.len() as int).contains(
                    k(kimlikler(yigin@)[m])[j],
                ),
            kimlikler(cozulen@).contains(a) || kimlikler(yigin@).contains(a),
        decreases
            disarida(
                anahtarlar(g),
                |x: (Seq<char>, Seq<char>)|
                    kimlikler(cozulen@).contains(x) || isaretli(kimlikler(yigin@), bitti@, x),
                g.len() as int,
            ),
            yigin@.len(),
    {
        let ghost ey = kimlikler(yigin@);
        let ghost eb = bitti@;
        let ghost ez = kimlikler(cozulen@);
        let ghost top = ey.len() - 1;
        let ghost f = |x: (Seq<char>, Seq<char>)| ez.contains(x) || isaretli(ey, eb, x);
        let p = yigin.pop().unwrap();
        let son = bitti.pop().unwrap();
        let ghost y1 = kimlikler(yigin@);
        let ghost b1 = bitti@;
        proof {
            assert(y1 =~= ey.drop_last());
            assert(b1 =~= eb.drop_last());
            assert(ey[top] == p@);
            assert(eb[top] == son);
            assert(ulasilir(k, a, ey[top]));
            lemma_duzen_pop(k, ey, eb, a);
            assert forall|i: int| 0 <= i < y1.len() implies #[trigger] ulasilir(k, a, y1[i]) by {
                assert(y1[i] == ey[i]);
            }
        }
        if son {
            if !listede(&cozulen, &p) {
                cozulen.push(p);
            }
            proof {
                let z = kimlikler(cozulen@);
                let h = |x: (Seq<char>, Seq<char>)| z.contains(x) || isaretli(y1, b1, x);
                assert(z.len() == ez.len() || z =~= ez.push(ey[top]));
                assert(z.subrange(0, ez.len() as int) =~= ez);
                assert(z.contains(ey[top])) by {
                    if z.len() == ez.len() {
                        assert(z =~= ez);
                    } else {
                        assert(z[ez.len() as int] == ey[top]);
                    }
                }
                assert forall|x: (Seq<char>, Seq<char>)| ez.contains(x) implies z.contains(x) by {
                    let t = choose|t: int| 0 <= t < ez.len() && ez[t] == x;
                    assert(z[t] == x);
                }
                assert forall|i: int| 0 <= i < z.len() implies #[trigger] ulasilir(k, a, z[i]) by {
                    if i < ez.len() {
                        assert(z[i] == ez[i]);
                    }
                }
                assert(sonra_sirali(k, z)) by {
                    assert forall|i: int, j: int|
                        0 <= i < z.len() && 0 <= j < k(z[i]).len() implies z.subrange(0, i).contains(
                        #[trigger] k(z[i])[j],
                    ) by {
                        if i < ez.len() {
                            assert(z[i] == ez[i]);
                            assert(z.subrange(0, i) =~= ez.subrange(0, i));
                        } else {
                            assert(z[i] == ey[top]);
                            let d = k(ey[top])[j];
                            assert(ez.contains(d) || ey.subrange(top + 1, ey.len() as int).contains(d));
                            assert(ey.subrange(top + 1, ey.len() as int) =~= Seq::<(Seq<char>, Seq<char>)>::empty());
                            assert(z.subrange(0, i) =~= ez);
                        }
                    }
                }
                lemma_cikarma(k, a, ey, eb, ez, z);
                lemma_disarida(anahtarlar(g), f, h, g.len() as int);
            }
            continue;
        }
        if listede(&cozulen, &p) {
            proof {
                let z = ez;
                let h = |x: (Seq<char>, Seq<char>)| z.contains(x) || isaretli(y1, b1, x);
                lemma_cikarma(k, a, ey, eb, ez, z);
                lemma_disarida(anahtarlar(g), f, h, g.len() as int);
            }
            continue;
        }
        if isaretli_mi(&yigin, &bitti, &p) {
            proof {
                let i = choose|i: int| 0 <= i < y1.len() && i < b1.len() && b1[i] && #[trigger] y1[i] == p@;
                assert(ey[i] == p@ && eb[i]);
                lemma_ebeveyn(eb, top);
                let m = ebeveyn(eb, top);
                assert(m >= 0) by {
                    if m < 0 {
                        assert(!eb[i]);
                    }
                }
                assert(i <= m);
                assert(k(ey[m]).contains(ey[top]));
                assert(ulasilir(k, ey[i], ey[m]));
                lemma_dongu_kur(k, a, p@, ey[m]);
            }
            return Err(DependencyError::CycleDetected);
        }
        proof {
            lemma_konum(g, p@);
        }
        match dependencies.get(&p) {
            None => {
                cozulen.push(p);
                proof {
                    let z = kimlikler(cozulen@);
                    let h = |x: (Seq<char>, Seq<char>)| z.contains(x) || isaretli(y1, b1, x);
                    assert(z =~= ez.push(ey[top]));
                    assert(k(ey[top]) =~= Seq::<(Seq<char>, Seq<char>)>::empty());
                    assert forall|x: (Seq<char>, Seq<char>)| ez.contains(x) implies z.contains(x) by {
                        let t = choose|t: int| 0 <= t < ez.len() && ez[t] == x;
                        assert(z[t] == x);
                    }
                    assert(z.contains(ey[top])) by {
                        assert(z[ez.len() as int] == ey[top]);
                    }
                    assert forall|i: int| 0 <= i < z.len() implies #[trigger] ulasilir(k, a, z[i]) by {
                        if i < ez.len() {
                            assert(z[i] == ez[i]);
                        }
                    }
                    assert forall|s1: int, s2: int| 0 <= s1 < s2 < z.len() implies z[s1] != z[s2] by {
                        if s2 < ez.len() {
                            assert(z[s1] == ez[s1] && z[s2] == ez[s2]);
                        } else {
                            assert(z[s1] == ez[s1]);
                            assert(ez.contains(ez[s1]));
                        }
                    }
                    assert(sonra_sirali(k, z)) by {
                        assert forall|i: int, j: int|
                            0 <= i < z.len() && 0 <= j < k(z[i]).len() implies z.subrange(0, i).contains(
                            #[trigger] k(z[i])[j],
                        ) by {
                            assert(i < ez.len());
                            assert(z[i] == ez[i]);
                            assert(z.subrange(0, i) =~= ez.subrange(0, i));
                        }
                    }
                    lemma_cikarma(k, a, ey, eb, ez, z);
                    lemma_disarida(anahtarlar(g), f, h, g.len() as int);
                }
            },
            Some(v) => {
                let ghost kv = kimlikler(v@);
                assert(kv == k(p@));
                yigin.push(p.kopya());
                bitti.push(true);
                proof {
                    assert(kimlikler(yigin@) =~= y1.push(p@));
                }
                let mut j: usize = v.len();
                while j > 0
                    invariant
                        k == komsu(g),
                        kv == kimlikler(v@),
                        kv == k(p@),
                        ey[top] == p@,
                        0 <= top,
                        top + 1 == ey.len(),
                        eb.len() == ey.len(),
                        y1 == ey.drop_last(),
                        b1 == eb.drop_last(),
                        0 <= j <= kv.len(),
                        yigin@.len() == bitti@.len(),
                        kimlikler(yigin@).len() == top + 1 + (kv.len() - j),
                        forall|t: int| 0 <= t < top ==> kimlikler(yigin@)[t] == ey[t] && bitti@[t] == eb[t],
                        kimlikler(yigin@)[top] == p@,
                        bitti@[top],
                        forall|t: int| top < t < yigin@.len() ==> !bitti@[t],
                        forall|m: int|
                            j <= m < kv.len() ==> kimlikler(yigin@)[top + 1 + (kv.len() - 1 - m)] == kv[m],
                    decreases j,
                {
                    j -= 1;
                    let ghost once = kimlikler(yigin@);
                    yigin.push(v[j].kopya());
                    bitti.push(false);
                    proof {
                        assert(kimlikler(yigin@) =~= once.push(kv[j as int]));
                    }
                }
                proof {
                    let y = kimlikler(yigin@);
                    let b = bitti@;
                    let z = ez;
                    assert forall|t: int| ey.len() <= t < y.len() implies !b[t] && k(ey.last()).contains(y[t]) by {
                        let m = kv.len() - 1 - (t - top - 1);
                        assert(y[t] == kv[m]);
                        assert(kv.contains(kv[m]));
                    }
                    assert forall|t: int| 0 <= t < ey.len() implies y[t] == ey[t] by {
                        if t == top {
                            assert(y[top] == p@);
                        }
                    }
                    lemma_duzen_genislet(k, ey, eb, y, b, a);
                    let h = |x: (Seq<char>, Seq<char>)| z.contains(x) || isaretli(y, b, x);
                    assert forall|i: int| 0 <= i < y.len() implies #[trigger] ulasilir(k, a, y[i]) by {
                        if i < top {
                            assert(y[i] == ey[i]);
                        } else if i > top {
                            let m = kv.len() - 1 - (i - top - 1);
                            assert(y[i] == kv[m]);
                            assert(kv.contains(kv[m]));
                            lemma_uzat(k, a, p@, kv[m]);
                        }
                    }
                    assert forall|m: int, jj: int|
                        0 <= m < y.len() && b[m] && 0 <= jj < k(y[m]).len() implies z.contains(
                        #[trigger] k(y[m])[jj],
                    ) || y.subrange(m + 1, y.len() as int).contains(k(y[m])[jj]) by {
                        let d = k(y[m])[jj];
                        if m == top {
                            let pos = top + 1 + (kv.len() - 1 - jj);
                            assert(y[pos] == d);
                            assert(y.subrange(m + 1, y.len() as int)[pos - (m + 1)] == d);
                        } else {
                            assert(m < top);
                            assert(y[m] == ey[m] && b[m] == eb[m]);
                            if !ez.contains(d) {
                                assert(ey.subrange(m + 1, ey.len() as int).contains(d));
                                let t = choose|t: int| 0 <= t < ey.len() - (m + 1) && #[trigger] ey.subrange(m + 1, ey.len() as int)[t] == d;
                                let pos = m + 1 + t;
                                if pos == top {
                                    assert(y[top] == d);
                                } else {
                                    assert(y[pos] == ey[pos]);
                                }
                                assert(y.subrange(m + 1, y.len() as int)[t] == d);
                            }
                        }
                    }
                    if !ez.contains(a) {
                        let t = choose|t: int| 0 <= t < ey.len() && ey[t] == a;
                        if t < top {
                            assert(y[t] == a);
                        } else {
                            assert(y[top] == a);
                        }
                    }
                    assert forall|x: (Seq<char>, Seq<char>)| #[trigger] f(x) implies h(x) by {
                        if isaretli(ey, eb, x) && !ez.contains(x) {
                            let i = choose|i: int| 0 <= i < ey.len() && i < eb.len() && eb[i] && #[trigger] ey[i] == x;
                            assert(i != top);
                            assert(y[i] == x && b[i]);
                        }
                    }
                    assert(h(p@)) by {
                        assert(y[top] == p@);
                    }
                    assert(!f(p@)) by {
                        if isaretli(ey, eb, p@) {
                            let i = choose|i: int| 0 <= i < ey.len() && i < eb.len() && eb[i] && #[trigger] ey[i] == p@;
                            assert(i != top);
                            assert(y1[i] == p@ && b1[i]);
                        }
                    }
                    assert(anahtarlar(g)[konum(g, p@)] == p@);
                    lemma_disarida(anahtarlar(g), f, h, g.len() as int);
                }
            },
        }
    }
    proof {
        let z = kimlikler(cozulen@);
        assert(kimlikler(yigin@) =~= Seq::<(Seq<char>, Seq<char>)>::empty());
        assert(kapali(k, z)) by {
            assert forall|i: int, j: int| 0 <= i < z.len() && 0 <= j < k(z[i]).len() implies z.contains(
                #[trigger] k(z[i])[j],
            ) by {
                let d = k(z[i])[j];
                assert(z.subrange(0, i).contains(d));
                let t = choose|t: int| 0 <= t < i && z.subrange(0, i)[t] == d;
                assert(z[t] == d);
            }
        }
        assert forall|x: (Seq<char>, Seq<char>)| z.contains(x) <==> ulasilir(k, a, x) by {
            if ulasilir(k, a, x) {
                lemma_kapali_ulasilani_icerir(k, z, a, x);
            }
            if z.contains(x) {
                let t = choose|t: int| 0 <= t < z.len() && z[t] == x;
                assert(ulasilir(k, a, z[t]));
            }
        }
        lemma_dongusuz(k, z, a);
    }
    Ok(cozulen)
}

} // verus!
