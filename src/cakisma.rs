//! Conflict detection: two versions of one package name required from one root.
use vstd::prelude::*;
use vstd::string::*;
use crate::graf::{disarida, kapali, lemma_disarida, lemma_kapali_ulasilani_icerir, lemma_kendisi, lemma_uzat, ulasilir};
use crate::harita::{
    anahtarlar, kimlikler, komsu, konum, lemma_konum, listede, Dependencies, Package,
};
use crate::metin::tekrarsiz;

verus! {

/// Every package reachable from `kok`, each once, in depth-first order starting at `kok`.
pub fn ulasilanlar(g: &Dependencies, kok: &Package) -> (r: Vec<Package>)
    ensures
        r@.len() > 0,
        r@[0]@ == kok@,
        tekrarsiz(kimlikler(r@)),
        forall|x: (Seq<char>, Seq<char>)| kimlikler(r@).contains(x) <==> ulasilir(komsu(g@), kok@, x),
{
    let ghost k = komsu(g@);
    let ghost a = kok@;
    let mut ziyaret: Vec<Package> = Vec::new();
    let mut yigin: Vec<Package> = Vec::new();
    yigin.push(kok.kopya());
    proof {
        lemma_kendisi(k, a);
        assert(kimlikler(yigin@) =~= seq![a]);
        assert(kimlikler(yigin@)[0] == a);
    }
    while yigin.len() > 0
        invariant
            k == komsu(g@),
            a == kok@,
            forall|i: int| 0 <= i < yigin@.len() ==> #[trigger] ulasilir(k, a, kimlikler(yigin@)[i]),
            forall|i: int| 0 <= i < ziyaret@.len() ==> #[trigger] ulasilir(k, a, kimlikler(ziyaret@)[i]),
            tekrarsiz(kimlikler(ziyaret@)),
            forall|i: int, j: int|
                0 <= i < ziyaret@.len() && 0 <= j < k(kimlikler(ziyaret@)[i]).len()
                    ==> kimlikler(ziyaret@).contains(#[trigger] k(kimlikler(ziyaret@)[i])[j])
                    || kimlikler(yigin@).contains(k(kimlikler(ziyaret@)[i])[j]),
            kimlikler(ziyaret@).contains(a) || kimlikler(yigin@).contains(a),
            ziyaret@.len() > 0 ==> kimlikler(ziyaret@)[0] == a,
            ziyaret@.len() == 0 ==> kimlikler(yigin@) == seq![a],
        decreases
            disarida(anahtarlar(g@), |x: (Seq<char>, Seq<char>)| kimlikler(ziyaret@).contains(x), g@.len() as int),
            yigin@.len(),
    {
        let ghost eski_yigin = kimlikler(yigin@);
        let ghost eski_z = kimlikler(ziyaret@);
        let x = yigin.pop().unwrap();
        proof {
            assert(kimlikler(yigin@) =~= eski_yigin.drop_last());
            assert(eski_yigin.last() == x@);
            assert(ulasilir(k, a, eski_yigin[eski_yigin.len() - 1]));
        }
        if listede(&ziyaret, &x) {
            proof {
                let y = kimlikler(yigin@);
                let s = eski_z;
                assert forall|i: int, j: int|
                    0 <= i < s.len() && 0 <= j < k(s[i]).len() implies s.contains(#[trigger] k(s[i])[j])
                    || y.contains(k(s[i])[j]) by {
                    let d = k(s[i])[j];
                    if eski_yigin.contains(d) && d != x@ {
                        let t = choose|t: int| 0 <= t < eski_yigin.len() && eski_yigin[t] == d;
                        assert(y[t] == d);
                    }
                }
                if !s.contains(a) {
                    let t = choose|t: int| 0 <= t < eski_yigin.len() && eski_yigin[t] == a;
                    if t < y.len() {
                        assert(y[t] == a);
                    } else {
                        assert(eski_yigin[t] == x@);
                    }
                }
                assert forall|i: int| 0 <= i < yigin@.len() implies #[trigger] ulasilir(k, a, kimlikler(yigin@)[i]) by {
                    assert(y[i] == eski_yigin[i]);
                }
            }
            continue;
        }
        let ghost taban = kimlikler(yigin@);
        let bos: Vec<Package> = Vec::new();
        let gerekenler = match g.get(&x) {
            Some(v) => v,
            None => &bos,
        };
        let ghost kv = kimlikler(gerekenler@);
        proof {
            assert(kv == k(x@));
        }
        let mut j: usize = gerekenler.len();
        while j > 0
            invariant
                k == komsu(g@),
                a == kok@,
                kv == kimlikler(gerekenler@),
                kv == k(x@),
                ulasilir(k, a, x@),
                0 <= j <= kv.len(),
                kimlikler(yigin@).len() == taban.len() + (kv.len() - j),
                forall|t: int| 0 <= t < taban.len() ==> kimlikler(yigin@)[t] == taban[t],
                forall|m: int| j <= m < kv.len() ==> kimlikler(yigin@)[taban.len() + (kv.len() - 1 - m)] == kv[m],
                forall|i: int| 0 <= i < taban.len() ==> #[trigger] ulasilir(k, a, taban[i]),
            decreases j,
        {
            j -= 1;
            let ghost once = kimlikler(yigin@);
            yigin.push(gerekenler[j].kopya());
            proof {
                assert(kimlikler(yigin@) =~= once.push(kv[j as int]));
            }
        }
        let ghost onceki = kimlikler(ziyaret@);
        ziyaret.push(x);
        proof {
            let s = kimlikler(ziyaret@);
            let y = kimlikler(yigin@);
            assert(s =~= onceki.push(x@));
            lemma_konum(g@, x@);
            let f = |z: (Seq<char>, Seq<char>)| onceki.contains(z);
            let h = |z: (Seq<char>, Seq<char>)| s.contains(z);
            assert forall|z: (Seq<char>, Seq<char>)| #[trigger] f(z) implies h(z) by {
                let t = choose|t: int| 0 <= t < onceki.len() && onceki[t] == z;
                assert(s[t] == z);
            }
            assert(h(x@)) by {
                assert(s[onceki.len() as int] == x@);
            }
            lemma_disarida(anahtarlar(g@), f, h, g@.len() as int);
            if konum(g@, x@) >= 0 {
                assert(anahtarlar(g@)[konum(g@, x@)] == x@);
            } else {
                assert(kv.len() == 0);
            }
            assert forall|i: int| 0 <= i < y.len() implies #[trigger] ulasilir(k, a, y[i]) by {
                if i >= taban.len() {
                    let m = kv.len() - 1 - (i - taban.len());
                    assert(y[i] == kv[m]);
                    assert(kv.contains(kv[m]));
                    lemma_uzat(k, a, x@, kv[m]);
                } else {
                    assert(y[i] == taban[i]);
                }
            }
            assert forall|i: int| 0 <= i < s.len() implies #[trigger] ulasilir(k, a, s[i]) by {
                if i < onceki.len() {
                    assert(s[i] == onceki[i]);
                }
            }
            assert forall|i: int, m: int|
                0 <= i < s.len() && 0 <= m < k(s[i]).len() implies s.contains(#[trigger] k(s[i])[m])
                || y.contains(k(s[i])[m]) by {
                let d = k(s[i])[m];
                if i == onceki.len() {
                    assert(s[i] == x@);
                    assert(y[taban.len() + (kv.len() - 1 - m)] == d);
                } else {
                    assert(s[i] == onceki[i]);
                    if onceki.contains(d) {
                        let t = choose|t: int| 0 <= t < onceki.len() && onceki[t] == d;
                        assert(s[t] == d);
                    } else if d == x@ {
                        assert(s[onceki.len() as int] == d);
                    } else {
                        let t = choose|t: int| 0 <= t < eski_yigin.len() && eski_yigin[t] == d;
                        assert(t < eski_yigin.len() - 1);
                        assert(taban[t] == eski_yigin[t]);
                        assert(y[t] == taban[t]);
                    }
                }
            }
            if onceki.contains(a) {
                let t = choose|t: int| 0 <= t < onceki.len() && onceki[t] == a;
                assert(s[t] == a);
            } else if x@ == a {
                assert(s[onceki.len() as int] == a);
            } else {
                let t = choose|t: int| 0 <= t < eski_yigin.len() && eski_yigin[t] == a;
                assert(t < eski_yigin.len() - 1);
                assert(taban[t] == eski_yigin[t]);
                assert(y[t] == taban[t]);
            }
            if onceki.len() == 0 {
                assert(s[0] == x@);
            } else {
                assert(s[0] == onceki[0]);
            }
            assert(forall|i: int| 0 <= i < yigin@.len() ==> #[trigger] ulasilir(k, a, kimlikler(yigin@)[i]));
        }
    }
    proof {
        let s = kimlikler(ziyaret@);
        assert(kimlikler(yigin@) =~= Seq::<(Seq<char>, Seq<char>)>::empty());
        assert(kapali(k, s)) by {
            assert forall|i: int, j: int| 0 <= i < s.len() && 0 <= j < k(s[i]).len() implies s.contains(
                #[trigger] k(s[i])[j],
            ) by {
                assert(!Seq::<(Seq<char>, Seq<char>)>::empty().contains(k(s[i])[j]));
            }
        }
        assert forall|z: (Seq<char>, Seq<char>)| s.contains(z) <==> ulasilir(k, a, z) by {
            if ulasilir(k, a, z) {
                lemma_kapali_ulasilani_icerir(k, s, a, z);
            }
            if s.contains(z) {
                let t = choose|t: int| 0 <= t < s.len() && s[t] == z;
                assert(ulasilir(k, a, s[t]));
            }
        }
    }
    ziyaret
}


/// `p` and `q` are two versions of one name, both required from one package of the graph.
pub open spec fn cakisan(
    g: Seq<((Seq<char>, Seq<char>), Seq<(Seq<char>, Seq<char>)>)>,
    p: (Seq<char>, Seq<char>),
    q: (Seq<char>, Seq<char>),
) -> bool {
    &&& p.0 == q.0
    &&& p.1 != q.1
    &&& exists|i: int|
        0 <= i < g.len() && #[trigger] ulasilir(komsu(g), g[i].0, p) && ulasilir(komsu(g), g[i].0, q)
}

/// The identities of a list of pairs.
pub open spec fn cift_kimlikleri(r: Seq<(Package, Package)>) -> Seq<((Seq<char>, Seq<char>), (Seq<char>, Seq<char>))> {
    r.map_values(|e: (Package, Package)| (e.0@, e.1@))
}

/// The unordered pair `{p, q}` is recorded in `r`.
pub open spec fn cift_icinde(
    r: Seq<((Seq<char>, Seq<char>), (Seq<char>, Seq<char>))>,
    p: (Seq<char>, Seq<char>),
    q: (Seq<char>, Seq<char>),
) -> bool {
    r.contains((p, q)) || r.contains((q, p))
}

/// No unordered pair is recorded twice.
pub open spec fn cift_tekrarsiz(r: Seq<((Seq<char>, Seq<char>), (Seq<char>, Seq<char>))>) -> bool {
    forall|s: int, t: int|
        0 <= s < t < r.len() ==> r[s] != r[t] && r[s] != (r[t].1, r[t].0)
}

proof fn lemma_cift_korunur(
    r: Seq<((Seq<char>, Seq<char>), (Seq<char>, Seq<char>))>,
    x: ((Seq<char>, Seq<char>), (Seq<char>, Seq<char>)),
)
    ensures
        forall|p: (Seq<char>, Seq<char>), q: (Seq<char>, Seq<char>)|
            cift_icinde(r, p, q) ==> #[trigger] cift_icinde(r.push(x), p, q),
        cift_icinde(r.push(x), x.0, x.1),
{
    assert forall|p: (Seq<char>, Seq<char>), q: (Seq<char>, Seq<char>)|
        cift_icinde(r, p, q) implies #[trigger] cift_icinde(r.push(x), p, q) by {
        if r.contains((p, q)) {
            let t = choose|t: int| 0 <= t < r.len() && r[t] == (p, q);
            assert(r.push(x)[t] == (p, q));
        } else {
            let t = choose|t: int| 0 <= t < r.len() && r[t] == (q, p);
            assert(r.push(x)[t] == (q, p));
        }
    }
    assert(r.push(x)[r.len() as int] == x);
}

/// Whether the unordered pair `{p, q}` is in `r`.
fn cift_var(r: &Vec<(Package, Package)>, p: &Package, q: &Package) -> (b: bool)
    ensures
        b == cift_icinde(cift_kimlikleri(r@), p@, q@),
{
    let ghost c = cift_kimlikleri(r@);
    let mut i: usize = 0;
    while i < r.len()
        invariant
            c == cift_kimlikleri(r@),
            0 <= i <= r@.len(),
            forall|t: int| 0 <= t < i ==> c[t] != (p@, q@) && c[t] != (q@, p@),
        decreases r.len() - i,
    {
        assert(c[i as int] == (r@[i as int].0@, r@[i as int].1@));
        if (r[i].0.ayni(p) && r[i].1.ayni(q)) || (r[i].0.ayni(q) && r[i].1.ayni(p)) {
            return true;
        }
        i += 1;
    }
    false
}

/// For every package of the graph, walks what it requires and records each unordered pair of
/// distinct versions of one name that the walk meets. Each pair is recorded once, in the order
/// in which the walks meet its two members.
pub fn detect_conflicts(dependencies: &Dependencies) -> (r: Vec<(Package, Package)>)
    ensures
        forall|t: int|
            0 <= t < r@.len() ==> cakisan(
                dependencies@,
                #[trigger] cift_kimlikleri(r@)[t].0,
                cift_kimlikleri(r@)[t].1,
            ),
        forall|p: (Seq<char>, Seq<char>), q: (Seq<char>, Seq<char>)|
            cakisan(dependencies@, p, q) ==> #[trigger] cift_icinde(cift_kimlikleri(r@), p, q),
        cift_tekrarsiz(cift_kimlikleri(r@)),
{
    let ghost g = dependencies@;
    let ghost k = komsu(g);
    let mut r: Vec<(Package, Package)> = Vec::new();
    let mut i: usize = 0;
    while i < dependencies.girdiler.len()
        invariant
            g == dependencies@,
            k == komsu(g),
            g.len() == dependencies.girdiler@.len(),
            0 <= i <= g.len(),
            forall|t: int|
                0 <= t < r@.len() ==> cakisan(g, #[trigger] cift_kimlikleri(r@)[t].0, cift_kimlikleri(r@)[t].1),
            cift_tekrarsiz(cift_kimlikleri(r@)),
            forall|i2: int, p: (Seq<char>, Seq<char>), q: (Seq<char>, Seq<char>)|
                #![trigger ulasilir(k, g[i2].0, p), ulasilir(k, g[i2].0, q)]
                0 <= i2 < i && p.0 == q.0 && p.1 != q.1 && ulasilir(k, g[i2].0, p) && ulasilir(k, g[i2].0, q)
                    ==> cift_icinde(cift_kimlikleri(r@), p, q),
        decreases g.len() - i,
    {
        assert(g[i as int].0 == dependencies.girdiler@[i as int].0@);
        let u = ulasilanlar(dependencies, &dependencies.girdiler[i].0);
        let ghost ku = kimlikler(u@);
        let ghost kok = g[i as int].0;
        let mut a: usize = 0;
        while a < u.len()
            invariant
                g == dependencies@,
                k == komsu(g),
                g.len() == dependencies.girdiler@.len(),
                0 <= i < g.len(),
                kok == g[i as int].0,
                ku == kimlikler(u@),
                tekrarsiz(ku),
                forall|x: (Seq<char>, Seq<char>)| ku.contains(x) <==> ulasilir(k, kok, x),
                0 <= a <= u@.len(),
                forall|t: int|
                    0 <= t < r@.len() ==> cakisan(g, #[trigger] cift_kimlikleri(r@)[t].0, cift_kimlikleri(r@)[t].1),
                cift_tekrarsiz(cift_kimlikleri(r@)),
                forall|i2: int, p: (Seq<char>, Seq<char>), q: (Seq<char>, Seq<char>)|
                    #![trigger ulasilir(k, g[i2].0, p), ulasilir(k, g[i2].0, q)]
                    0 <= i2 < i && p.0 == q.0 && p.1 != q.1 && ulasilir(k, g[i2].0, p) && ulasilir(k, g[i2].0, q)
                        ==> cift_icinde(cift_kimlikleri(r@), p, q),
                forall|a2: int, b2: int|
                    0 <= a2 < a && a2 < b2 < ku.len() && ku[a2].0 == ku[b2].0 ==> #[trigger] cift_icinde(
                        cift_kimlikleri(r@),
                        ku[a2],
                        ku[b2],
                    ),
            decreases u@.len() - a,
        {
            let mut b: usize = a + 1;
            while b < u.len()
                invariant
                    g == dependencies@,
                    k == komsu(g),
                    g.len() == dependencies.girdiler@.len(),
                    0 <= i < g.len(),
                    kok == g[i as int].0,
                    ku == kimlikler(u@),
                    tekrarsiz(ku),
                    forall|x: (Seq<char>, Seq<char>)| ku.contains(x) <==> ulasilir(k, kok, x),
                    0 <= a < u@.len(),
                    a < b <= u@.len(),
                    forall|t: int|
                        0 <= t < r@.len() ==> cakisan(g, #[trigger] cift_kimlikleri(r@)[t].0, cift_kimlikleri(r@)[t].1),
                    cift_tekrarsiz(cift_kimlikleri(r@)),
                    forall|i2: int, p: (Seq<char>, Seq<char>), q: (Seq<char>, Seq<char>)|
                        #![trigger ulasilir(k, g[i2].0, p), ulasilir(k, g[i2].0, q)]
                        0 <= i2 < i && p.0 == q.0 && p.1 != q.1 && ulasilir(k, g[i2].0, p) && ulasilir(k, g[i2].0, q)
                            ==> cift_icinde(cift_kimlikleri(r@), p, q),
                    forall|a2: int, b2: int|
                        0 <= a2 < a && a2 < b2 < ku.len() && ku[a2].0 == ku[b2].0 ==> #[trigger] cift_icinde(
                            cift_kimlikleri(r@),
                            ku[a2],
                            ku[b2],
                        ),
                    forall|b2: int|
                        a < b2 < b && ku[a as int].0 == ku[b2].0 ==> #[trigger] cift_icinde(
                            cift_kimlikleri(r@),
                            ku[a as int],
                            ku[b2],
                        ),
                decreases u@.len() - b,
            {
                assert(ku[a as int] == u@[a as int]@ && ku[b as int] == u@[b as int]@);
                if u[a].name == u[b].name {
                    if !cift_var(&r, &u[a], &u[b]) {
                        let ghost eski = cift_kimlikleri(r@);
                        let x = (u[a].kopya(), u[b].kopya());
                        r.push(x);
                        proof {
                            let yeni = (ku[a as int], ku[b as int]);
                            assert(cift_kimlikleri(r@) =~= eski.push(yeni));
                            lemma_cift_korunur(eski, yeni);
                            assert(ku.contains(ku[a as int]) && ku.contains(ku[b as int]));
                            assert(ku[a as int] != ku[b as int]);
                            assert(ulasilir(k, g[i as int].0, ku[a as int]));
                            assert(cakisan(g, yeni.0, yeni.1));
                            let c = cift_kimlikleri(r@);
                            assert forall|t: int| 0 <= t < c.len() implies cakisan(g, #[trigger] c[t].0, c[t].1) by {
                                if t < eski.len() {
                                    assert(c[t] == eski[t]);
                                }
                            }
                            assert forall|s: int, t: int| 0 <= s < t < c.len() implies c[s] != c[t] && c[s] != (c[t].1, c[t].0) by {
                                if t < eski.len() {
                                    assert(c[s] == eski[s] && c[t] == eski[t]);
                                } else {
                                    assert(c[s] == eski[s]);
                                    assert(eski.contains(eski[s]));
                                }
                            }
                        }
                    }
                }
                b += 1;
            }
            a += 1;
        }
        proof {
            let c = cift_kimlikleri(r@);
            assert forall|i2: int, p: (Seq<char>, Seq<char>), q: (Seq<char>, Seq<char>)|
                #![trigger ulasilir(k, g[i2].0, p), ulasilir(k, g[i2].0, q)]
                0 <= i2 < i + 1 && p.0 == q.0 && p.1 != q.1 && ulasilir(k, g[i2].0, p) && ulasilir(k, g[i2].0, q)
                    implies cift_icinde(c, p, q) by {
                if i2 == i {
                    assert(ku.contains(p) && ku.contains(q));
                    let ap = choose|ap: int| 0 <= ap < ku.len() && ku[ap] == p;
                    let aq = choose|aq: int| 0 <= aq < ku.len() && ku[aq] == q;
                    if ap < aq {
                        assert(cift_icinde(c, ku[ap], ku[aq]));
                    } else {
                        assert(cift_icinde(c, ku[aq], ku[ap]));
                    }
                }
            }
        }
        i += 1;
    }
    proof {
        let c = cift_kimlikleri(r@);
        assert forall|p: (Seq<char>, Seq<char>), q: (Seq<char>, Seq<char>)|
            cakisan(g, p, q) implies #[trigger] cift_icinde(c, p, q) by {
            let i2 = choose|i2: int| 0 <= i2 < g.len() && #[trigger] ulasilir(k, g[i2].0, p) && ulasilir(k, g[i2].0, q);
        }
    }
    r
}

/// Fails with a single error when any conflict was found; hands back an unchanged copy of the
/// graph otherwise. No version is chosen automatically.
pub fn resolve_conflicts(dependencies: &Dependencies, conflicts: &Vec<(Package, Package)>) -> (r: Result<Dependencies, String>)
    ensures
        conflicts@.len() == 0 <==> r is Ok,
        r matches Ok(d) ==> d@ == dependencies@,
        r matches Err(m) ==> m@ == "Çakışmalar çözülemedi (basit örnek)."@,
{
    if conflicts.len() > 0 {
        return Err(String::from_str("Çakışmalar çözülemedi (basit örnek)."));
    }
    Ok(dependencies.kopya())
}

/// In a graph where no two versions of one name are required together, the conflicts that
/// `detect_conflicts` reports are none, and `resolve_conflicts` hands the graph back unchanged.
pub proof fn lemma_cakismasiz_degismez(
    dependencies: Dependencies,
    conflicts: Seq<(Package, Package)>,
    r: Result<Dependencies, String>,
)
    requires
        forall|p: (Seq<char>, Seq<char>), q: (Seq<char>, Seq<char>)| !cakisan(dependencies@, p, q),
        forall|t: int| 0 <= t < conflicts.len() ==> cakisan(
            dependencies@,
            #[trigger] cift_kimlikleri(conflicts)[t].0,
            cift_kimlikleri(conflicts)[t].1,
        ),
        conflicts.len() == 0 <==> r is Ok,
        r matches Ok(d) ==> d@ == dependencies@,
    ensures
        conflicts.len() == 0,
        r matches Ok(d) && d@ == dependencies@,
{
    if conflicts.len() > 0 {
        assert(cakisan(dependencies@, cift_kimlikleri(conflicts)[0].0, cift_kimlikleri(conflicts)[0].1));
    }
}

} // verus!
