//! Dependency resolution over a flat list of packages, keyed by name.
use vstd::prelude::*;
use crate::graf::{kapali, lemma_kapali_ulasilani_icerir, lemma_kendisi, lemma_uzat, ulasilir};
use crate::hata::PaketYoneticisiHata;
use crate::metin::{gorunumler, listede_var, tekrarsiz};
use crate::paket::Paket;

verus! {

/// The index of the last package named `ad`, or -1: a later entry overrides an earlier one.
pub open spec fn son_indeks(ps: Seq<Paket>, ad: Seq<char>) -> int
    decreases ps.len(),
{
    if ps.len() == 0 {
        -1
    } else if ps.last().ad@ == ad {
        ps.len() - 1
    } else {
        son_indeks(ps.drop_last(), ad)
    }
}

/// A package named `ad` is in the list.
pub open spec fn bilinen(ps: Seq<Paket>, ad: Seq<char>) -> bool {
    son_indeks(ps, ad) >= 0
}

/// The dependency names of the package named `ad`; none for an unknown name.
pub open spec fn bagimliliklari(ps: Seq<Paket>, ad: Seq<char>) -> Seq<Seq<char>> {
    if bilinen(ps, ad) {
        gorunumler(ps[son_indeks(ps, ad)].bagimliliklar@)
    } else {
        Seq::empty()
    }
}

/// The dependency graph of the list, by name.
pub open spec fn komsu(ps: Seq<Paket>) -> spec_fn(Seq<char>) -> Seq<Seq<char>> {
    |ad: Seq<char>| bagimliliklari(ps, ad)
}

/// Every name reachable from `kok` is a known package.
pub open spec fn hepsi_bilinen(ps: Seq<Paket>, kok: Seq<char>) -> bool {
    forall|n: Seq<char>| ulasilir(komsu(ps), kok, n) ==> bilinen(ps, n)
}

/// How many entries of the first `k` packages carry a name outside `s`.
pub open spec fn kalan(ps: Seq<Paket>, s: Seq<Seq<char>>, k: int) -> nat
    decreases k,
{
    if k <= 0 {
        0
    } else {
        kalan(ps, s, k - 1) + (if s.contains(ps[k - 1].ad@) { 0nat } else { 1nat })
    }
}

proof fn lemma_son_indeks(ps: Seq<Paket>, ad: Seq<char>)
    ensures
        -1 <= son_indeks(ps, ad) < ps.len(),
        son_indeks(ps, ad) >= 0 ==> ps[son_indeks(ps, ad)].ad@ == ad,
        son_indeks(ps, ad) == -1 ==> forall|k: int| 0 <= k < ps.len() ==> ps[k].ad@ != ad,
    decreases ps.len(),
{
    if ps.len() > 0 && ps.last().ad@ != ad {
        lemma_son_indeks(ps.drop_last(), ad);
        if son_indeks(ps, ad) == -1 {
            assert forall|k: int| 0 <= k < ps.len() implies ps[k].ad@ != ad by {
                if k < ps.len() - 1 {
                    assert(ps.drop_last()[k] == ps[k]);
                }
            }
        }
    }
}

proof fn lemma_son_indeks_onek(ps: Seq<Paket>, ad: Seq<char>, i: int)
    requires
        0 <= i <= ps.len(),
        forall|k: int| i <= k < ps.len() ==> ps[k].ad@ != ad,
    ensures
        son_indeks(ps, ad) == son_indeks(ps.subrange(0, i), ad),
    decreases ps.len() - i,
{
    if i == ps.len() {
        assert(ps.subrange(0, i) =~= ps);
    } else {
        let d = ps.drop_last();
        assert forall|k: int| i <= k < d.len() implies d[k].ad@ != ad by {
            assert(d[k] == ps[k]);
        }
        lemma_son_indeks_onek(d, ad, i);
        assert(d.subrange(0, i) =~= ps.subrange(0, i));
    }
}

proof fn lemma_kalan(ps: Seq<Paket>, s: Seq<Seq<char>>, x: Seq<char>, k: int)
    requires
        0 <= k <= ps.len(),
    ensures
        kalan(ps, s.push(x), k) <= kalan(ps, s, k),
        (exists|j: int| 0 <= j < k && ps[j].ad@ == x) && !s.contains(x) ==> kalan(ps, s.push(x), k)
            < kalan(ps, s, k),
    decreases k,
{
    if k > 0 {
        lemma_kalan(ps, s, x, k - 1);
        let y = ps[k - 1].ad@;
        assert(s.push(x).contains(y) <==> (s.contains(y) || y == x)) by {
            if s.push(x).contains(y) {
                let t = choose|t: int| 0 <= t < s.push(x).len() && s.push(x)[t] == y;
                if t < s.len() {
                    assert(s[t] == y);
                }
            }
            if s.contains(y) {
                let t = choose|t: int| 0 <= t < s.len() && s[t] == y;
                assert(s.push(x)[t] == y);
            }
            if y == x {
                assert(s.push(x)[s.len() as int] == y);
            }
        }
    }
}

/// The index of the last package named `ad`.
pub fn paket_bul(paketler: &Vec<Paket>, ad: &String) -> (r: Option<usize>)
    ensures
        match r {
            Some(i) => i as int == son_indeks(paketler@, ad@) && i < paketler@.len(),
            None => son_indeks(paketler@, ad@) == -1,
        },
{
    let mut i: usize = paketler.len();
    while i > 0
        invariant
            0 <= i <= paketler@.len(),
            forall|k: int| i <= k < paketler@.len() ==> paketler@[k].ad@ != ad@,
        decreases i,
    {
        i -= 1;
        if paketler[i].ad == *ad {
            proof {
                lemma_son_indeks_onek(paketler@, ad@, i + 1);
                assert(paketler@.subrange(0, i + 1).last() == paketler@[i as int]);
            }
            return Some(i);
        }
    }
    proof {
        lemma_son_indeks_onek(paketler@, ad@, 0);
    }
    None
}

/// The step from state `d` fails: the popped name is not recorded yet, and it is unknown or
/// one of its dependencies is.
pub open spec fn adim_hatali(ps: Seq<Paket>, d: (Seq<Seq<char>>, Seq<Seq<char>>)) -> bool {
    &&& d.0.len() > 0
    &&& !d.1.contains(d.0.last())
    &&& (!bilinen(ps, d.0.last()) || exists|j: int|
        0 <= j < bagimliliklari(ps, d.0.last()).len() && !bilinen(ps, #[trigger] bagimliliklari(ps, d.0.last())[j]))
}

/// The step from state `d` fails at dependency `dep`: the popped name is known and not
/// recorded, and `dep` is the first of its dependencies that is unknown.
pub open spec fn ilk_eksik(ps: Seq<Paket>, d: (Seq<Seq<char>>, Seq<Seq<char>>), dep: Seq<char>) -> bool {
    &&& d.0.len() > 0
    &&& !d.1.contains(d.0.last())
    &&& bilinen(ps, d.0.last())
    &&& exists|j: int|
        0 <= j < bagimliliklari(ps, d.0.last()).len() && #[trigger] bagimliliklari(ps, d.0.last())[j] == dep
            && !bilinen(ps, dep) && forall|k: int| 0 <= k < j ==> bilinen(ps, #[trigger] bagimliliklari(ps, d.0.last())[k])
}

/// One step of the resolver on (stack, recorded names): pop a name; skip it when recorded,
/// otherwise push its dependencies in order and record it.
pub open spec fn coz_adimi(ps: Seq<Paket>, d: (Seq<Seq<char>>, Seq<Seq<char>>)) -> (Seq<Seq<char>>, Seq<Seq<char>>) {
    if d.0.len() == 0 {
        d
    } else {
        let x = d.0.last();
        let y = d.0.drop_last();
        if d.1.contains(x) {
            (y, d.1)
        } else {
            (y + bagimliliklari(ps, x), d.1.push(x))
        }
    }
}

/// The resolver's state after `n` steps from the stack holding only `kok`.
pub open spec fn coz_durumu(ps: Seq<Paket>, kok: Seq<char>, n: nat) -> (Seq<Seq<char>>, Seq<Seq<char>>)
    decreases n,
{
    if n == 0 {
        (seq![kok], Seq::empty())
    } else {
        coz_adimi(ps, coz_durumu(ps, kok, (n - 1) as nat))
    }
}

/// The empty stack leaves the visited names closed under dependencies.
proof fn lemma_bitti(ps: Seq<Paket>, kok: Seq<char>, sonuc: Seq<Seq<char>>)
    requires
        forall|i: int|
            0 <= i < sonuc.len() ==> #[trigger] ulasilir(komsu(ps), kok, sonuc[i]) && bilinen(ps, sonuc[i]),
        forall|i: int, j: int|
            0 <= i < sonuc.len() && 0 <= j < bagimliliklari(ps, sonuc[i]).len() ==> sonuc.contains(
                #[trigger] bagimliliklari(ps, sonuc[i])[j],
            ),
        sonuc.contains(kok),
    ensures
        forall|n: Seq<char>| sonuc.contains(n) <==> ulasilir(komsu(ps), kok, n),
        hepsi_bilinen(ps, kok),
{
    assert(kapali(komsu(ps), sonuc)) by {
        assert forall|i: int, j: int|
            0 <= i < sonuc.len() && 0 <= j < komsu(ps)(sonuc[i]).len() implies sonuc.contains(
            #[trigger] komsu(ps)(sonuc[i])[j],
        ) by {
            assert(komsu(ps)(sonuc[i]) == bagimliliklari(ps, sonuc[i]));
            assert(!Seq::<Seq<char>>::empty().contains(bagimliliklari(ps, sonuc[i])[j]));
        }
    }
    assert forall|n: Seq<char>| sonuc.contains(n) <==> ulasilir(komsu(ps), kok, n) by {
        if ulasilir(komsu(ps), kok, n) {
            lemma_kapali_ulasilani_icerir(komsu(ps), sonuc, kok, n);
        }
        if sonuc.contains(n) {
            let t = choose|t: int| 0 <= t < sonuc.len() && sonuc[t] == n;
            assert(ulasilir(komsu(ps), kok, sonuc[t]));
        }
    }
    assert forall|n: Seq<char>| ulasilir(komsu(ps), kok, n) implies bilinen(ps, n) by {
        lemma_kapali_ulasilani_icerir(komsu(ps), sonuc, kok, n);
        let t = choose|t: int| 0 <= t < sonuc.len() && sonuc[t] == n;
        assert(ulasilir(komsu(ps), kok, sonuc[t]));
    }
}

/// A stacked name is reachable from the root and known, or is the root itself.
pub open spec fn yiginda_gecerli(ps: Seq<Paket>, kok: Seq<char>, x: Seq<char>) -> bool {
    ulasilir(komsu(ps), kok, x) && (bilinen(ps, x) || x == kok)
}

/// Pushing the dependencies of a reachable, known name keeps every stacked name reachable
/// and known (or the root).
proof fn lemma_yigin_uzar(ps: Seq<Paket>, kok: Seq<char>, taban: Seq<Seq<char>>, bag: Seq<Seq<char>>, ad: Seq<char>)
    requires
        forall|i: int| 0 <= i < taban.len() ==> #[trigger] yiginda_gecerli(ps, kok, taban[i]),
        ulasilir(komsu(ps), kok, ad),
        komsu(ps)(ad) == bag,
        forall|k: int| 0 <= k < bag.len() ==> bilinen(ps, #[trigger] bag[k]),
    ensures
        forall|i: int| 0 <= i < (taban + bag).len() ==> #[trigger] yiginda_gecerli(ps, kok, (taban + bag)[i]),
{
    let y = taban + bag;
    assert forall|i: int| 0 <= i < y.len() implies #[trigger] yiginda_gecerli(ps, kok, y[i]) by {
        if i >= taban.len() {
            let d = bag[i - taban.len()];
            assert(y[i] == d);
            assert(bag.contains(d));
            lemma_uzat(komsu(ps), kok, ad, d);
            assert(bilinen(ps, bag[i - taban.len()]));
        } else {
            assert(y[i] == taban[i]);
            assert(yiginda_gecerli(ps, kok, taban[i]));
        }
    }
}

/// Resolves the names needed by one root package.
pub struct BagimlilikYoneticisi {}

impl BagimlilikYoneticisi {
    pub fn yeni() -> (r: BagimlilikYoneticisi) {
        BagimlilikYoneticisi {  }
    }

    /// Walks the dependencies of `baslangic_paketi` with an explicit stack: a popped name that
    /// was visited is skipped; otherwise each of its dependencies is checked and pushed, and
    /// the name itself is recorded at once, before the pushed names are popped. The last
    /// pushed dependency is therefore the next one processed.
    pub fn bagimliliklari_coz(paketler: &Vec<Paket>, baslangic_paketi: &str) -> (r: Result<
        Vec<String>,
        PaketYoneticisiHata,
    >)
        ensures
            r is Ok <==> bilinen(paketler@, baslangic_paketi@) && hepsi_bilinen(
                paketler@,
                baslangic_paketi@,
            ),
            r is Err ==> r matches Err(PaketYoneticisiHata::PaketBulunamadi(_)) || r matches Err(
                PaketYoneticisiHata::BagimlilikBulunamadi(_),
            ),
            r matches Err(PaketYoneticisiHata::PaketBulunamadi(a)) ==> a@ == baslangic_paketi@
                && !bilinen(paketler@, baslangic_paketi@),
            r matches Err(PaketYoneticisiHata::BagimlilikBulunamadi(d)) ==> exists|n: nat|
                ilk_eksik(paketler@, #[trigger] coz_durumu(paketler@, baslangic_paketi@, n), d@) && forall|m: nat|
                    m < n ==> !adim_hatali(paketler@, #[trigger] coz_durumu(paketler@, baslangic_paketi@, m)),
            r matches Err(PaketYoneticisiHata::BagimlilikBulunamadi(d)) ==> !bilinen(
                paketler@,
                d@,
            ) && exists|n: Seq<char>|
                #[trigger] ulasilir(komsu(paketler@), baslangic_paketi@, n) && bilinen(
                    paketler@,
                    n,
                ) && bagimliliklari(paketler@, n).contains(d@),
            r matches Ok(v) ==> {
                &&& exists|n: nat| #[trigger] coz_durumu(paketler@, baslangic_paketi@, n) == (Seq::<Seq<char>>::empty(), gorunumler(v@))
                &&& v@.len() > 0
                &&& v@[0]@ == baslangic_paketi@
                &&& tekrarsiz(gorunumler(v@))
                &&& forall|n: Seq<char>|
                    gorunumler(v@).contains(n) <==> ulasilir(
                        komsu(paketler@),
                        baslangic_paketi@,
                        n,
                    )
            },
    {
        let ghost ps = paketler@;
        let ghost kok = baslangic_paketi@;
        let ghost mut sayac: nat = 0;
        let mut cozulen: Vec<String> = Vec::new();
        let mut yigin: Vec<String> = Vec::new();
        yigin.push(baslangic_paketi.to_owned());
        proof {
            lemma_kendisi(komsu(ps), kok);
            assert(gorunumler(yigin@) =~= seq![kok]);
            assert(gorunumler(yigin@)[0] == kok);
        }
        while yigin.len() > 0
            invariant
                ps == paketler@,
                kok == baslangic_paketi@,
                coz_durumu(ps, kok, sayac) == (gorunumler(yigin@), gorunumler(cozulen@)),
                forall|m: nat| m < sayac ==> !adim_hatali(ps, #[trigger] coz_durumu(ps, kok, m)),
                forall|i: int|
                    0 <= i < yigin@.len() ==> #[trigger] yiginda_gecerli(ps, kok, gorunumler(yigin@)[i]),
                forall|i: int|
                    0 <= i < cozulen@.len() ==> #[trigger] ulasilir(komsu(ps), kok, gorunumler(cozulen@)[i])
                        && bilinen(ps, gorunumler(cozulen@)[i]),
                tekrarsiz(gorunumler(cozulen@)),
                forall|i: int, j: int|
                    0 <= i < cozulen@.len() && 0 <= j < bagimliliklari(ps, gorunumler(cozulen@)[i]).len()
                        ==> gorunumler(cozulen@).contains(
                        #[trigger] bagimliliklari(ps, gorunumler(cozulen@)[i])[j],
                    ) || gorunumler(yigin@).contains(bagimliliklari(ps, gorunumler(cozulen@)[i])[j]),
                gorunumler(cozulen@).contains(kok) || gorunumler(yigin@).contains(kok),
                cozulen@.len() > 0 ==> gorunumler(cozulen@)[0] == kok,
                cozulen@.len() == 0 ==> gorunumler(yigin@) == seq![kok],
            decreases kalan(ps, gorunumler(cozulen@), ps.len() as int), yigin@.len(),
        {
            let ghost eski_yigin = gorunumler(yigin@);
            let ad = yigin.pop().unwrap();
            proof {
                assert(gorunumler(yigin@) =~= eski_yigin.drop_last());
                assert(eski_yigin.last() == ad@);
            }
            if listede_var(&cozulen, &ad) {
                proof {
                    let s = gorunumler(cozulen@);
                    let y = gorunumler(yigin@);
                    assert forall|i: int, j: int|
                        0 <= i < s.len() && 0 <= j < bagimliliklari(ps, s[i]).len() implies s.contains(
                        #[trigger] bagimliliklari(ps, s[i])[j],
                    ) || y.contains(bagimliliklari(ps, s[i])[j]) by {
                        let d = bagimliliklari(ps, s[i])[j];
                        if eski_yigin.contains(d) && d != ad@ {
                            let t = choose|t: int| 0 <= t < eski_yigin.len() && eski_yigin[t] == d;
                            assert(y[t] == d);
                        }
                    }
                    if !s.contains(kok) {
                        let t = choose|t: int| 0 <= t < eski_yigin.len() && eski_yigin[t] == kok;
                        if t < y.len() {
                            assert(y[t] == kok);
                        } else {
                            assert(eski_yigin[t] == ad@);
                        }
                    }
                    assert forall|i: int| 0 <= i < y.len() implies #[trigger] yiginda_gecerli(ps, kok, y[i]) by {
                        assert(y[i] == eski_yigin[i]);
                    }
                    assert(s.contains(ad@));
                    assert(s.len() > 0);
                    assert(s.contains(kok) || y.contains(kok));
                    assert(coz_adimi(ps, (eski_yigin, s)) == (y, s));
                    assert(!adim_hatali(ps, coz_durumu(ps, kok, sayac)));
                    let onceki_sayac = sayac;
                    sayac = sayac + 1;
                    assert forall|m: nat| m < sayac implies !adim_hatali(ps, #[trigger] coz_durumu(ps, kok, m)) by {
                        if m == onceki_sayac {
                            assert(!adim_hatali(ps, coz_durumu(ps, kok, onceki_sayac)));
                        }
                    }
                }
                continue;
            }
            let bulunan = paket_bul(paketler, &ad);
            proof {
                assert(yiginda_gecerli(ps, kok, eski_yigin[eski_yigin.len() - 1]));
                lemma_son_indeks(ps, ad@);
            }
            match bulunan {
                None => {
                    return Err(PaketYoneticisiHata::PaketBulunamadi(ad));
                },
                Some(idx) => {
                    let paket = &paketler[idx];
                    let ghost bag = gorunumler(paket.bagimliliklar@);
                    let ghost taban = gorunumler(yigin@);
                    assert(bag == bagimliliklari(ps, ad@));
                    let mut j: usize = 0;
                    while j < paket.bagimliliklar.len()
                        invariant
                            ps == paketler@,
                            kok == baslangic_paketi@,
                            idx < ps.len(),
                            paket == &ps[idx as int],
                            bag == gorunumler(paket.bagimliliklar@),
                            bag == bagimliliklari(ps, ad@),
                            bilinen(ps, ad@),
                            ulasilir(komsu(ps), kok, ad@),
                            0 <= j <= bag.len(),
                            gorunumler(yigin@) == taban + bag.subrange(0, j as int),
                            forall|k: int| 0 <= k < j ==> bilinen(ps, #[trigger] bag[k]),
                            coz_durumu(ps, kok, sayac) == (eski_yigin, gorunumler(cozulen@)),
                            eski_yigin.len() > 0,
                            eski_yigin.last() == ad@,
                            !gorunumler(cozulen@).contains(ad@),
                            forall|m: nat| m < sayac ==> !adim_hatali(ps, #[trigger] coz_durumu(ps, kok, m)),
                            forall|i: int|
                                0 <= i < taban.len() ==> #[trigger] yiginda_gecerli(ps, kok, taban[i]),
                        decreases bag.len() - j,
                    {
                        let dep = &paket.bagimliliklar[j];
                        assert(dep@ == bag[j as int]);
                        if paket_bul(paketler, dep).is_none() {
                            proof {
                                assert(bag.contains(dep@));
                                lemma_son_indeks(ps, dep@);
                                assert(komsu(ps)(ad@) == bag);
                                lemma_uzat(komsu(ps), kok, ad@, dep@);
                                assert(ulasilir(komsu(ps), kok, dep@) && !bilinen(ps, dep@));
                                assert(!hepsi_bilinen(ps, kok));
                                assert(bag[j as int] == dep@);
                                assert(ilk_eksik(ps, coz_durumu(ps, kok, sayac), dep@));
                            }
                            return Err(PaketYoneticisiHata::BagimlilikBulunamadi(dep.clone()));
                        }
                        let ghost once = gorunumler(yigin@);
                        yigin.push(dep.clone());
                        j += 1;
                        proof {
                            assert(gorunumler(yigin@) =~= once.push(dep@));
                            assert(gorunumler(yigin@) =~= taban + bag.subrange(0, j as int));
                        }
                    }
                    proof {
                        assert(bag.subrange(0, j as int) =~= bag);
                    }
                    let ghost onceki = gorunumler(cozulen@);
                    cozulen.push(ad);
                    proof {
                        let s = gorunumler(cozulen@);
                        let y = gorunumler(yigin@);
                        assert(s =~= onceki.push(ad@));
                        assert(y =~= taban + bag);
                        lemma_kalan(ps, onceki, ad@, ps.len() as int);
                        assert(ps[son_indeks(ps, ad@)].ad@ == ad@);
                        assert(komsu(ps)(ad@) == bag);
                        lemma_yigin_uzar(ps, kok, taban, bag, ad@);
                        assert forall|i: int| 0 <= i < yigin@.len() implies #[trigger] yiginda_gecerli(ps, kok, gorunumler(yigin@)[i]) by {
                            assert(gorunumler(yigin@)[i] == (taban + bag)[i]);
                        }
                        assert forall|i: int| 0 <= i < s.len() implies #[trigger] ulasilir(
                            komsu(ps),
                            kok,
                            s[i],
                        ) && bilinen(ps, s[i]) by {
                            if i < onceki.len() {
                                assert(s[i] == onceki[i]);
                            }
                        }
                        assert forall|i: int, k: int|
                            0 <= i < s.len() && 0 <= k < bagimliliklari(ps, s[i]).len() implies s.contains(
                            #[trigger] bagimliliklari(ps, s[i])[k],
                        ) || y.contains(bagimliliklari(ps, s[i])[k]) by {
                            let d = bagimliliklari(ps, s[i])[k];
                            if i == onceki.len() {
                                assert(s[i] == ad@);
                                assert(y[taban.len() + k] == d);
                            } else {
                                assert(s[i] == onceki[i]);
                                if onceki.contains(d) {
                                    let t = choose|t: int| 0 <= t < onceki.len() && onceki[t] == d;
                                    assert(s[t] == d);
                                } else if d == ad@ {
                                    assert(s[onceki.len() as int] == d);
                                } else {
                                    let t = choose|t: int|
                                        0 <= t < eski_yigin.len() && eski_yigin[t] == d;
                                    assert(y[t] == d);
                                }
                            }
                        }
                        if onceki.contains(kok) {
                            let t = choose|t: int| 0 <= t < onceki.len() && onceki[t] == kok;
                            assert(s[t] == kok);
                        } else if ad@ == kok {
                            assert(s[onceki.len() as int] == kok);
                        } else {
                            let t = choose|t: int| 0 <= t < eski_yigin.len() && eski_yigin[t] == kok;
                            assert(y[t] == kok);
                        }
                        if onceki.len() == 0 {
                            assert(s[0] == ad@);
                        } else {
                            assert(s[0] == onceki[0]);
                        }
                        assert(eski_yigin.drop_last() =~= taban);
                        assert(coz_adimi(ps, (eski_yigin, onceki)) == (y, s));
                        assert(!adim_hatali(ps, coz_durumu(ps, kok, sayac))) by {
                            assert(eski_yigin.last() == ad@);
                            assert(forall|k: int| 0 <= k < bag.len() ==> bilinen(ps, #[trigger] bag[k]));
                        }
                        let onceki_sayac = sayac;
                        sayac = sayac + 1;
                        assert forall|m: nat| m < sayac implies !adim_hatali(ps, #[trigger] coz_durumu(ps, kok, m)) by {
                            if m == onceki_sayac {
                                assert(!adim_hatali(ps, coz_durumu(ps, kok, onceki_sayac)));
                            }
                        }
                    }
                },
            }
        }
        proof {
            assert(gorunumler(yigin@) =~= Seq::<Seq<char>>::empty());
            assert(coz_durumu(ps, kok, sayac) == (Seq::<Seq<char>>::empty(), gorunumler(cozulen@)));
            lemma_bitti(ps, kok, gorunumler(cozulen@));
            assert(gorunumler(cozulen@)[0] == cozulen@[0]@);
        }
        Ok(cozulen)
    }
}

} // verus!
