//! The dependency declaration text: one declaration per line, `name@version -> dep@v, ...`.
//! Blank lines are ignored; a line, package or dependency that does not have this shape is
//! left out and the rest is still read. A later declaration of the same package replaces an
//! earlier one.
use vstd::prelude::*;
use crate::guven::{kirp, kirp_araligi, satirlar};
use crate::harita::{gereken, kimlikler, komsu, konum, lemma_konum, liste_kopya, Dependencies, Package};
use vstd::string::*;
use crate::metin::{karakterler, parca};

verus! {

/// The arrow between a package and its dependencies starts at `k`.
pub open spec fn ok_var(l: Seq<char>, k: int) -> bool {
    0 <= k && k + 4 <= l.len() && l.subrange(k, k + 4) == seq![' ', '-', '>', ' ']
}

/// The arrow at `k` is the first one, and no other starts after it ends.
pub open spec fn tek_ok(l: Seq<char>, k: int) -> bool {
    &&& ok_var(l, k)
    &&& forall|j: int| 0 <= j < k ==> !ok_var(l, j)
    &&& forall|j: int| k + 4 <= j ==> !ok_var(l, j)
}

/// `p[k]` is the only `@` of `p`.
pub open spec fn tek_at(p: Seq<char>, k: int) -> bool {
    0 <= k < p.len() && p[k] == '@' && forall|j: int| 0 <= j < p.len() && j != k ==> p[j] != '@'
}

/// `name@version` with exactly one `@`.
pub open spec fn kimlik_ayir(p: Seq<char>) -> Option<(Seq<char>, Seq<char>)> {
    if exists|k: int| tek_at(p, k) {
        let k = choose|k: int| tek_at(p, k);
        Some((p.subrange(0, k), p.subrange(k + 1, p.len() as int)))
    } else {
        None
    }
}

/// The pieces of `s` between commas.
pub open spec fn virgulle_bol(s: Seq<char>) -> Seq<Seq<char>>
    decreases s.len(),
{
    if s.len() == 0 {
        seq![Seq::empty()]
    } else if s.last() == ',' {
        virgulle_bol(s.drop_last()).push(Seq::empty())
    } else {
        let l = virgulle_bol(s.drop_last());
        l.update(l.len() - 1, l.last().push(s.last()))
    }
}

/// The well-formed dependencies among the pieces, each without surrounding white space.
pub open spec fn gecerli_kimlikler(ps: Seq<Seq<char>>) -> Seq<(Seq<char>, Seq<char>)>
    decreases ps.len(),
{
    if ps.len() == 0 {
        Seq::empty()
    } else {
        let r = gecerli_kimlikler(ps.drop_last());
        match kimlik_ayir(kirp(ps.last())) {
            Some(x) => r.push(x),
            None => r,
        }
    }
}

/// The declaration on one line, if the line has the declaration's shape.
pub open spec fn satir_ayristir(l: Seq<char>) -> Option<((Seq<char>, Seq<char>), Seq<(Seq<char>, Seq<char>)>)> {
    if exists|k: int| tek_ok(l, k) {
        let k = choose|k: int| tek_ok(l, k);
        match kimlik_ayir(l.subrange(0, k)) {
            Some(p) => Some((p, gecerli_kimlikler(virgulle_bol(l.subrange(k + 4, l.len() as int))))),
            None => None,
        }
    } else {
        None
    }
}

/// The graph after one more declaration.
pub open spec fn ekle(
    g: Seq<((Seq<char>, Seq<char>), Seq<(Seq<char>, Seq<char>)>)>,
    e: ((Seq<char>, Seq<char>), Seq<(Seq<char>, Seq<char>)>),
) -> Seq<((Seq<char>, Seq<char>), Seq<(Seq<char>, Seq<char>)>)> {
    if konum(g, e.0) >= 0 {
        g.update(konum(g, e.0), e)
    } else {
        g.push(e)
    }
}

/// The graph that the lines declare, read in order.
pub open spec fn bildirimler(ls: Seq<Seq<char>>) -> Seq<((Seq<char>, Seq<char>), Seq<(Seq<char>, Seq<char>)>)>
    decreases ls.len(),
{
    if ls.len() == 0 {
        Seq::empty()
    } else {
        let g = bildirimler(ls.drop_last());
        match satir_ayristir(ls.last()) {
            Some(e) => ekle(g, e),
            None => g,
        }
    }
}

/// Whether the arrow starts at `c[j]`.
fn ok_mu(c: &Vec<char>, j: usize) -> (r: bool)
    requires
        j + 4 <= c@.len(),
    ensures
        r == (c@.subrange(j as int, j + 4) == seq![' ', '-', '>', ' ']),
{
    let n = c.len();
    assert(j + 4 <= n);
    let r = c[j] == ' ' && c[j + 1] == '-' && c[j + 2] == '>' && c[j + 3] == ' ';
    proof {
        let s = c@.subrange(j as int, j + 4);
        let o = seq![' ', '-', '>', ' '];
        if r {
            assert(s =~= o);
        } else if s == o {
            assert(s[0] == o[0] && s[1] == o[1] && s[2] == o[2] && s[3] == o[3]);
        }
    }
    r
}

proof fn lemma_ok_kaydir(c: Seq<char>, a: int, b: int, j: int)
    requires
        0 <= a <= b <= c.len(),
    ensures
        ok_var(c.subrange(a, b), j - a) <==> (a <= j && j + 4 <= b && c.subrange(j, j + 4) == seq![' ', '-', '>', ' ']),
{
    if a <= j && j + 4 <= b {
        assert(c.subrange(a, b).subrange(j - a, j - a + 4) =~= c.subrange(j, j + 4));
    }
}

/// The position of the only arrow of `c[a..b]` in the sense of `tek_ok`, if there is one.
fn ok_bul(c: &Vec<char>, a: usize, b: usize) -> (r: Option<usize>)
    requires
        a <= b <= c@.len(),
    ensures
        match r {
            Some(k) => a <= k && tek_ok(c@.subrange(a as int, b as int), k - a),
            None => forall|k: int| !tek_ok(c@.subrange(a as int, b as int), k),
        },
{
    let ghost l = c@.subrange(a as int, b as int);
    let mut j: usize = a;
    while b - j >= 4
        invariant
            a <= j <= b <= c@.len(),
            l == c@.subrange(a as int, b as int),
            forall|t: int| 0 <= t < j - a ==> !ok_var(l, t),
        decreases b - j,
    {
        proof {
            lemma_ok_kaydir(c@, a as int, b as int, j as int);
        }
        if ok_mu(c, j) {
            let k = j;
            proof {
                assert(ok_var(l, k - a));
            }
            let mut t: usize = k + 4;
            while b - t >= 4
                invariant
                    a <= k,
                    ok_var(l, k - a),
                    forall|s: int| 0 <= s < k - a ==> !ok_var(l, s),
                    k + 4 <= t <= b,
                    b <= c@.len(),
                    l == c@.subrange(a as int, b as int),
                    forall|s: int| k + 4 - a <= s < t - a ==> !ok_var(l, s),
                decreases b - t,
            {
                proof {
                    lemma_ok_kaydir(c@, a as int, b as int, t as int);
                }
                if ok_mu(c, t) {
                    proof {
                        assert(ok_var(l, t - a));
                        assert forall|kk: int| !tek_ok(l, kk) by {
                            if tek_ok(l, kk) {
                                if kk < k - a {
                                    assert(!ok_var(l, kk));
                                } else if kk > k - a {
                                    assert(!ok_var(l, k - a));
                                } else {
                                    assert(ok_var(l, t - a));
                                }
                            }
                        }
                    }
                    return None;
                }
                t += 1;
            }
            proof {
                assert forall|s: int| k + 4 - a <= s implies !ok_var(l, s) by {
                    if s >= t - a {
                        assert(s + 4 > l.len());
                    }
                }
            }
            return Some(k);
        }
        j += 1;
    }
    proof {
        assert forall|kk: int| !tek_ok(l, kk) by {
            if tek_ok(l, kk) {
                assert(kk < j - a || kk + 4 > l.len());
            }
        }
    }
    None
}

/// The position of the only `@` of `c[a..b]`, if there is exactly one.
fn at_bul(c: &Vec<char>, a: usize, b: usize) -> (r: Option<usize>)
    requires
        a <= b <= c@.len(),
    ensures
        match r {
            Some(k) => a <= k < b && tek_at(c@.subrange(a as int, b as int), k - a),
            None => forall|k: int| !tek_at(c@.subrange(a as int, b as int), k),
        },
{
    let ghost p = c@.subrange(a as int, b as int);
    let mut bulunan: Option<usize> = None;
    let mut j: usize = a;
    while j < b
        invariant
            a <= j <= b <= c@.len(),
            p == c@.subrange(a as int, b as int),
            match bulunan {
                Some(k) => a <= k < j && p[k - a] == '@' && forall|t: int| 0 <= t < j - a && t != k - a ==> p[t] != '@',
                None => forall|t: int| 0 <= t < j - a ==> p[t] != '@',
            },
        decreases b - j,
    {
        assert(p[j - a] == c@[j as int]);
        if c[j] == '@' {
            match bulunan {
                Some(k) => {
                    proof {
                        assert forall|kk: int| !tek_at(p, kk) by {
                            if tek_at(p, kk) {
                                if kk != k - a {
                                    assert(p[k - a] == '@');
                                } else {
                                    assert(p[j - a] == '@');
                                }
                            }
                        }
                    }
                    return None;
                },
                None => {
                    bulunan = Some(j);
                },
            }
        }
        j += 1;
    }
    proof {
        if bulunan is None {
            assert forall|kk: int| !tek_at(p, kk) by {
                if tek_at(p, kk) {
                    assert(p[kk] == '@');
                }
            }
        }
    }
    bulunan
}

/// `name@version` in `c[a..b]`, if it has exactly one `@`.
fn kimlik_oku(icerik: &str, c: &Vec<char>, a: usize, b: usize) -> (r: Option<Package>)
    requires
        c@ == icerik@,
        a <= b <= c@.len(),
    ensures
        match r {
            Some(p) => kimlik_ayir(c@.subrange(a as int, b as int)) == Some(p@),
            None => kimlik_ayir(c@.subrange(a as int, b as int)) is None,
        },
{
    let ghost p = c@.subrange(a as int, b as int);
    match at_bul(c, a, b) {
        Some(k) => {
            let ad = parca(icerik, a, k);
            let surum = parca(icerik, k + 1, b);
            proof {
                let kk = choose|kk: int| tek_at(p, kk);
                assert(kk == k - a);
                assert(p.subrange(0, k - a) =~= c@.subrange(a as int, k as int));
                assert(p.subrange(k - a + 1, p.len() as int) =~= c@.subrange(k + 1, b as int));
            }
            Some(Package::new(ad, surum))
        },
        None => None,
    }
}

proof fn lemma_virgul_adim(c: Seq<char>, a: int, i: int)
    requires
        0 <= a <= i < c.len(),
    ensures
        c[i] == ',' ==> virgulle_bol(c.subrange(a, i + 1)) == virgulle_bol(c.subrange(a, i)).push(Seq::empty()),
        c[i] != ',' ==> virgulle_bol(c.subrange(a, i + 1)) == virgulle_bol(c.subrange(a, i)).update(
            virgulle_bol(c.subrange(a, i)).len() - 1,
            virgulle_bol(c.subrange(a, i)).last().push(c[i]),
        ),
{
    assert(c.subrange(a, i + 1).drop_last() =~= c.subrange(a, i));
    assert(c.subrange(a, i + 1).last() == c[i]);
}

/// The well-formed dependencies of `c[a..b]`, which is split at commas.
fn bagimliliklari_oku(icerik: &str, c: &Vec<char>, a: usize, b: usize) -> (r: Vec<Package>)
    requires
        c@ == icerik@,
        a <= b <= c@.len(),
    ensures
        kimlikler(r@) == gecerli_kimlikler(virgulle_bol(c@.subrange(a as int, b as int))),
{
    let mut r: Vec<Package> = Vec::new();
    let mut bas: usize = a;
    let mut i: usize = a;
    let ghost mut biten: Seq<Seq<char>> = Seq::empty();
    proof {
        assert(c@.subrange(a as int, a as int) =~= Seq::<char>::empty());
        assert(biten.push(c@.subrange(a as int, a as int)) =~= seq![Seq::<char>::empty()]);
    }
    while i < b
        invariant
            c@ == icerik@,
            a <= bas <= i <= b <= c@.len(),
            virgulle_bol(c@.subrange(a as int, i as int)) == biten.push(c@.subrange(bas as int, i as int)),
            kimlikler(r@) == gecerli_kimlikler(biten),
        decreases b - i,
    {
        proof {
            lemma_virgul_adim(c@, a as int, i as int);
        }
        if c[i] == ',' {
            let ghost parca_ = c@.subrange(bas as int, i as int);
            let (x, y) = kirp_araligi(c, bas, i);
            let ghost eski = kimlikler(r@);
            match kimlik_oku(icerik, c, x, y) {
                Some(p) => {
                    r.push(p);
                    proof {
                        assert(kimlikler(r@) =~= eski.push(p@));
                    }
                },
                None => {},
            }
            proof {
                let yeni = biten.push(parca_);
                assert(yeni.drop_last() =~= biten);
                assert(yeni.last() == parca_);
                biten = yeni;
                assert(c@.subrange(i + 1, i + 1) =~= Seq::<char>::empty());
            }
            bas = i + 1;
        } else {
            proof {
                assert(c@.subrange(bas as int, i + 1) =~= c@.subrange(bas as int, i as int).push(c@[i as int]));
            }
        }
        i += 1;
    }
    let ghost parca_ = c@.subrange(bas as int, b as int);
    let (x, y) = kirp_araligi(c, bas, b);
    let ghost eski = kimlikler(r@);
    match kimlik_oku(icerik, c, x, y) {
        Some(p) => {
            r.push(p);
            proof {
                assert(kimlikler(r@) =~= eski.push(p@));
            }
        },
        None => {},
    }
    proof {
        let yeni = biten.push(parca_);
        assert(yeni.drop_last() =~= biten);
        assert(yeni.last() == parca_);
    }
    r
}

/// The declaration on the line `c[a..b]`, if the line has the declaration's shape.
fn satir_oku(icerik: &str, c: &Vec<char>, a: usize, b: usize) -> (r: Option<(Package, Vec<Package>)>)
    requires
        c@ == icerik@,
        a <= b <= c@.len(),
    ensures
        match r {
            Some(e) => satir_ayristir(c@.subrange(a as int, b as int)) == Some((e.0@, kimlikler(e.1@))),
            None => satir_ayristir(c@.subrange(a as int, b as int)) is None,
        },
{
    let ghost l = c@.subrange(a as int, b as int);
    match ok_bul(c, a, b) {
        None => None,
        Some(k) => {
            proof {
                let kk = choose|kk: int| tek_ok(l, kk);
                if kk != k - a {
                    if kk < k - a {
                        assert(!ok_var(l, kk));
                    } else {
                        assert(!ok_var(l, k - a)) by {
                            if kk >= k - a + 4 {
                            } else {
                                assert(!ok_var(l, k - a));
                            }
                        }
                    }
                }
                assert(kk == k - a);
                assert(l.subrange(0, k - a) =~= c@.subrange(a as int, k as int));
                assert(l.subrange(k - a + 4, l.len() as int) =~= c@.subrange(k + 4, b as int));
            }
            match kimlik_oku(icerik, c, a, k) {
                None => None,
                Some(p) => {
                    let deps = bagimliliklari_oku(icerik, c, k + 4, b);
                    Some((p, deps))
                },
            }
        },
    }
}

pub(crate) proof fn lemma_satir_adim(c: Seq<char>, i: int)
    requires
        0 <= i < c.len(),
    ensures
        c[i] == '\n' ==> satirlar(c.subrange(0, i + 1)) == satirlar(c.subrange(0, i)).push(Seq::empty()),
        c[i] != '\n' ==> satirlar(c.subrange(0, i + 1)) == satirlar(c.subrange(0, i)).update(
            satirlar(c.subrange(0, i)).len() - 1,
            satirlar(c.subrange(0, i)).last().push(c[i]),
        ),
{
    assert(c.subrange(0, i + 1).drop_last() =~= c.subrange(0, i));
}

/// The dependency graph declared by the text.
pub fn get_dependencies(icerik: &str) -> (r: Dependencies)
    ensures
        r@ == bildirimler(satirlar(icerik@)),
{
    let c = karakterler(icerik);
    let mut g = Dependencies::new();
    let mut bas: usize = 0;
    let mut i: usize = 0;
    let ghost mut biten: Seq<Seq<char>> = Seq::empty();
    proof {
        assert(c@.subrange(0, 0) =~= Seq::<char>::empty());
        assert(biten.push(c@.subrange(0, 0)) =~= seq![Seq::<char>::empty()]);
    }
    while i < c.len()
        invariant
            c@ == icerik@,
            0 <= bas <= i <= c@.len(),
            satirlar(c@.subrange(0, i as int)) == biten.push(c@.subrange(bas as int, i as int)),
            g@ == bildirimler(biten),
        decreases c@.len() - i,
    {
        proof {
            lemma_satir_adim(c@, i as int);
        }
        if c[i] == '\n' {
            let ghost satir = c@.subrange(bas as int, i as int);
            let ghost eski = g@;
            match satir_oku(icerik, &c, bas, i) {
                Some((p, deps)) => {
                    let ghost e = (p@, kimlikler(deps@));
                    assert(satir_ayristir(satir) == Some(e));
                    g.insert(p, deps);
                    proof {
                        lemma_konum(eski, e.0);
                        if konum(eski, e.0) >= 0 {
                            assert(g@ == eski.update(konum(eski, e.0), e));
                        } else {
                            assert(g@ == eski.push(e));
                        }
                        assert(g@ == ekle(eski, e));
                    }
                },
                None => {
                    assert(satir_ayristir(satir) is None);
                },
            }
            proof {
                let yeni = biten.push(satir);
                assert(yeni.drop_last() =~= biten);
                assert(yeni.last() == satir);
                biten = yeni;
                assert(c@.subrange(i + 1, i + 1) =~= Seq::<char>::empty());
            }
            bas = i + 1;
        } else {
            proof {
                assert(c@.subrange(bas as int, i + 1) =~= c@.subrange(bas as int, i as int).push(c@[i as int]));
            }
        }
        i += 1;
    }
    let ghost satir = c@.subrange(bas as int, c@.len() as int);
    let ghost eski = g@;
    match satir_oku(icerik, &c, bas, c.len()) {
        Some((p, deps)) => {
            let ghost e = (p@, kimlikler(deps@));
            assert(satir_ayristir(satir) == Some(e));
            g.insert(p, deps);
            proof {
                lemma_konum(eski, e.0);
                if konum(eski, e.0) >= 0 {
                    assert(g@ == eski.update(konum(eski, e.0), e));
                } else {
                    assert(g@ == eski.push(e));
                }
                assert(g@ == ekle(eski, e));
            }
        },
        None => {
            assert(satir_ayristir(satir) is None);
        },
    }
    proof {
        let yeni = biten.push(satir);
        assert(yeni.drop_last() =~= biten);
        assert(yeni.last() == satir);
        assert(c@.subrange(0, c@.len() as int) =~= c@);
    }
    g
}


/// The graph declared by the text, with `A@1.0.0` added to what `C@3.0.0` requires: a
/// graph with a cycle whenever the text leads from `A@1.0.0` to `C@3.0.0`.
pub fn get_dependencies_with_cycle(icerik: &str) -> (r: Dependencies)
    ensures
        gereken(r@, ("C"@, "3.0.0"@)) == gereken(bildirimler(satirlar(icerik@)), ("C"@, "3.0.0"@)).push(("A"@, "1.0.0"@)),
        forall|k: (Seq<char>, Seq<char>)| k != ("C"@, "3.0.0"@) ==> #[trigger] gereken(r@, k) == gereken(bildirimler(satirlar(icerik@)), k),
{
    let mut deps = get_dependencies(icerik);
    let c = Package::new(String::from_str("C"), String::from_str("3.0.0"));
    let a = Package::new(String::from_str("A"), String::from_str("1.0.0"));
    let ghost eski = deps@;
    let mut yeni: Vec<Package> = match deps.get(&c) {
        Some(v) => liste_kopya(v),
        None => Vec::new(),
    };
    let ghost once = kimlikler(yeni@);
    assert(once == gereken(eski, c@)) by {
        if konum(eski, c@) < 0 {
            assert(once =~= Seq::<(Seq<char>, Seq<char>)>::empty());
        }
    }
    yeni.push(a);
    proof {
        assert(kimlikler(yeni@) =~= once.push(a@));
    }
    deps.insert(c, yeni);
    proof {
        assert(komsu(deps@)(("C"@, "3.0.0"@)) == gereken(deps@, ("C"@, "3.0.0"@)));
    }
    deps
}

} // verus!
