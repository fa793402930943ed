//! Searching packages by a regular expression over their names and descriptions.
use vstd::prelude::*;
use crate::hata::PaketYoneticisiHata;
use vstd::string::*;
use crate::bildirim::lemma_satir_adim;
use crate::guven::{kirp, kirp_araligi, satirlar};
use crate::metin::{karakterler, parca};
use crate::paket::Paket;

verus! {

/// Whether the regular expression `desen` matches somewhere in `metin`; none when `desen`
/// is not a valid pattern.
pub uninterp spec fn regex_eslesir(desen: Seq<char>, metin: Seq<char>) -> Option<bool>;

/// Relies on `regex::Regex::new` and `Regex::is_match`: an invalid pattern fails; otherwise
/// whether the pattern matches somewhere in the text.
#[verifier::external_body]
fn eslesir(desen: &str, metin: &str) -> (r: Result<bool, String>)
    ensures
        r is Ok <==> regex_eslesir(desen@, metin@) is Some,
        r matches Ok(b) ==> regex_eslesir(desen@, metin@) == Some(b),
{
    let re = regex::Regex::new(desen).map_err(|e| e.to_string())?;
    Ok(re.is_match(metin))
}

/// Whether the pattern matches the package's name, or else its description; none when the
/// pattern is invalid.
pub open spec fn paket_sonucu(desen: Seq<char>, p: Paket) -> Option<bool> {
    match regex_eslesir(desen, p.ad@) {
        None => None,
        Some(true) => Some(true),
        Some(false) => match p.aciklama {
            None => Some(false),
            Some(a) => regex_eslesir(desen, a@),
        },
    }
}

/// `l[k]` is the only comma of `l`.
pub open spec fn tek_virgul(l: Seq<char>, k: int) -> bool {
    0 <= k < l.len() && l[k] == ',' && forall|j: int| 0 <= j < l.len() && j != k ==> l[j] != ','
}

/// A line `name,description` with exactly one comma gives the name and the description,
/// each without surrounding white space.
pub open spec fn satir_paketi(l: Seq<char>) -> Option<(Seq<char>, Seq<char>)> {
    if exists|k: int| tek_virgul(l, k) {
        let k = choose|k: int| tek_virgul(l, k);
        Some((kirp(l.subrange(0, k)), kirp(l.subrange(k + 1, l.len() as int))))
    } else {
        None
    }
}

/// The packages that the lines describe, in order; other lines are left out.
pub open spec fn liste_paketleri(ls: Seq<Seq<char>>) -> Seq<(Seq<char>, Seq<char>)>
    decreases ls.len(),
{
    if ls.len() == 0 {
        Seq::empty()
    } else {
        let r = liste_paketleri(ls.drop_last());
        match satir_paketi(ls.last()) {
            Some(x) => r.push(x),
            None => r,
        }
    }
}

/// The position of the only comma of `c[a..b]`, if there is exactly one.
fn virgul_bul(c: &Vec<char>, a: usize, b: usize) -> (r: Option<usize>)
    requires
        a <= b <= c@.len(),
    ensures
        match r {
            Some(k) => a <= k < b && tek_virgul(c@.subrange(a as int, b as int), k - a),
            None => forall|k: int| !tek_virgul(c@.subrange(a as int, b as int), k),
        },
{
    let ghost p = c@.subrange(a as int, b as int);
    let mut bulunan: Option<usize> = None;
    let mut j: usize = a;
    while j < b
        invariant
            a <= j <= b <= c@.len(),
            p == c@.subrange(a as int, b as int),
            match bulunan {
                Some(k) => a <= k < j && p[k - a] == ',' && forall|t: int| 0 <= t < j - a && t != k - a ==> p[t] != ',',
                None => forall|t: int| 0 <= t < j - a ==> p[t] != ',',
            },
        decreases b - j,
    {
        assert(p[j - a] == c@[j as int]);
        if c[j] == ',' {
            match bulunan {
                Some(k) => {
                    proof {
                        assert forall|kk: int| !tek_virgul(p, kk) by {
                            if tek_virgul(p, kk) {
                                if kk != k - a {
                                    assert(p[k - a] == ',');
                                } else {
                                    assert(p[j - a] == ',');
                                }
                            }
                        }
                    }
                    return None;
                },
                None => {
                    bulunan = Some(j);
                },
            }
        }
        j += 1;
    }
    proof {
        if bulunan is None {
            assert forall|kk: int| !tek_virgul(p, kk) by {
                if tek_virgul(p, kk) {
                    assert(p[kk] == ',');
                }
            }
        }
    }
    bulunan
}

/// The name and the description in a package of the list.
pub open spec fn ad_aciklama(p: Paket) -> (Seq<char>, Seq<char>) {
    (p.ad@, match p.aciklama {
        Some(a) => a@,
        None => Seq::empty(),
    })
}

/// The package that the line `c[a..b]` describes, if it has the `name,description` shape.
fn satir_paketi_oku(icerik: &str, c: &Vec<char>, a: usize, b: usize) -> (r: Option<Paket>)
    requires
        c@ == icerik@,
        a <= b <= c@.len(),
    ensures
        match r {
            Some(p) => satir_paketi(c@.subrange(a as int, b as int)) == Some(ad_aciklama(p)) && p.aciklama is Some,
            None => satir_paketi(c@.subrange(a as int, b as int)) is None,
        },
{
    let ghost l = c@.subrange(a as int, b as int);
    match virgul_bul(c, a, b) {
        None => None,
        Some(k) => {
            let (x1, y1) = kirp_araligi(c, a, k);
            let (x2, y2) = kirp_araligi(c, k + 1, b);
            let ad = parca(icerik, x1, y1);
            let aciklama = parca(icerik, x2, y2);
            proof {
                let kk = choose|kk: int| tek_virgul(l, kk);
                assert(kk == k - a);
                assert(l.subrange(0, k - a) =~= c@.subrange(a as int, k as int));
                assert(l.subrange(k - a + 1, l.len() as int) =~= c@.subrange(k + 1, b as int));
            }
            let mut p = Paket::yeni(ad, String::new(), Vec::new());
            p.aciklama = Some(aciklama);
            Some(p)
        },
    }
}

/// Package search.
pub struct AramaYoneticisi {}

impl AramaYoneticisi {
    pub fn yeni() -> (r: AramaYoneticisi) {
        AramaYoneticisi {  }
    }

    /// The packages of a list text with one `name,description` line per package; lines of
    /// another shape are left out.
    pub fn paketleri_yukle(icerik: &str) -> (r: Vec<Paket>)
        ensures
            r@.len() == liste_paketleri(satirlar(icerik@)).len(),
            forall|i: int| 0 <= i < r@.len() ==> ad_aciklama(#[trigger] r@[i]) == liste_paketleri(satirlar(icerik@))[i]
                && r@[i].aciklama is Some,
    {
        let c = karakterler(icerik);
        let mut r: Vec<Paket> = Vec::new();
        let mut bas: usize = 0;
        let mut i: usize = 0;
        let ghost mut biten: Seq<Seq<char>> = Seq::empty();
        proof {
            assert(c@.subrange(0, 0) =~= Seq::<char>::empty());
            assert(biten.push(c@.subrange(0, 0)) =~= seq![Seq::<char>::empty()]);
        }
        while i < c.len()
            invariant
                c@ == icerik@,
                0 <= bas <= i <= c@.len(),
                satirlar(c@.subrange(0, i as int)) == biten.push(c@.subrange(bas as int, i as int)),
                r@.len() == liste_paketleri(biten).len(),
                forall|k: int| 0 <= k < r@.len() ==> ad_aciklama(#[trigger] r@[k]) == liste_paketleri(biten)[k]
                    && r@[k].aciklama is Some,
            decreases c@.len() - i,
        {
            proof {
                lemma_satir_adim(c@, i as int);
            }
            if c[i] == '\n' {
                let ghost satir = c@.subrange(bas as int, i as int);
                let ghost eski = r@;
                match satir_paketi_oku(icerik, &c, bas, i) {
                    Some(p) => {
                        r.push(p);
                    },
                    None => {},
                }
                proof {
                    let yeni = biten.push(satir);
                    assert(yeni.drop_last() =~= biten);
                    assert(yeni.last() == satir);
                    assert forall|k: int| 0 <= k < r@.len() implies ad_aciklama(#[trigger] r@[k]) == liste_paketleri(yeni)[k]
                        && r@[k].aciklama is Some by {
                        if k < eski.len() {
                            assert(r@[k] == eski[k]);
                        }
                    }
                    biten = yeni;
                    assert(c@.subrange(i + 1, i + 1) =~= Seq::<char>::empty());
                }
                bas = i + 1;
            } else {
                proof {
                    assert(c@.subrange(bas as int, i + 1) =~= c@.subrange(bas as int, i as int).push(c@[i as int]));
                }
            }
            i += 1;
        }
        let ghost satir = c@.subrange(bas as int, c@.len() as int);
        let ghost eski = r@;
        match satir_paketi_oku(icerik, &c, bas, c.len()) {
            Some(p) => {
                r.push(p);
            },
            None => {},
        }
        proof {
            let yeni = biten.push(satir);
            assert(yeni.drop_last() =~= biten);
            assert(yeni.last() == satir);
            assert(c@.subrange(0, c@.len() as int) =~= c@);
            assert forall|k: int| 0 <= k < r@.len() implies ad_aciklama(#[trigger] r@[k]) == liste_paketleri(yeni)[k]
                && r@[k].aciklama is Some by {
                if k < eski.len() {
                    assert(r@[k] == eski[k]);
                }
            }
        }
        r
    }

    /// The positions, in increasing order, of the packages whose name or description the
    /// pattern matches; an invalid pattern is an error.
    pub fn paket_ara(paketler: &Vec<Paket>, arama_deseni: &str) -> (r: Result<Vec<usize>, PaketYoneticisiHata>)
        ensures
            r is Ok <==> forall|i: int|
                0 <= i < paketler@.len() ==> #[trigger] paket_sonucu(arama_deseni@, paketler@[i]) is Some,
            r matches Ok(v) ==> (forall|a: int, b: int| 0 <= a < b < v@.len() ==> v@[a] < v@[b])
                && (forall|k: int| 0 <= k < v@.len() ==> v@[k] < paketler@.len())
                && (forall|i: int| 0 <= i < paketler@.len() ==> (v@.contains(i as usize) <==> #[trigger] paket_sonucu(arama_deseni@, paketler@[i]) == Some(true))),
            r is Err ==> r matches Err(PaketYoneticisiHata::AramaYoneticisiHatasi(_)),
    {
        let mut sonuclar: Vec<usize> = Vec::new();
        let mut i: usize = 0;
        while i < paketler.len()
            invariant
                0 <= i <= paketler@.len(),
                forall|a: int, b: int| 0 <= a < b < sonuclar@.len() ==> sonuclar@[a] < sonuclar@[b],
                forall|k: int| 0 <= k < sonuclar@.len() ==> sonuclar@[k] < i,
                forall|j: int| 0 <= j < i ==> #[trigger] paket_sonucu(arama_deseni@, paketler@[j]) is Some,
                forall|j: int| 0 <= j < i ==> (sonuclar@.contains(j as usize) <==> #[trigger] paket_sonucu(arama_deseni@, paketler@[j]) == Some(true)),
            decreases paketler.len() - i,
        {
            let p = &paketler[i];
            let ad_uyar = match eslesir(arama_deseni, p.ad.as_str()) {
                Ok(b) => b,
                Err(m) => {
                    assert(paket_sonucu(arama_deseni@, paketler@[i as int]) is None);
                    return Err(PaketYoneticisiHata::AramaYoneticisiHatasi(m));
                },
            };
            let uyar = if ad_uyar {
                true
            } else {
                match &p.aciklama {
                    Some(a) => match eslesir(arama_deseni, a.as_str()) {
                        Ok(b) => b,
                        Err(m) => {
                            assert(paket_sonucu(arama_deseni@, paketler@[i as int]) is None);
                            return Err(PaketYoneticisiHata::AramaYoneticisiHatasi(m));
                        },
                    },
                    None => false,
                }
            };
            let ghost eski = sonuclar@;
            if uyar {
                sonuclar.push(i);
            }
            proof {
                let y = sonuclar@;
                assert(paket_sonucu(arama_deseni@, paketler@[i as int]) == Some(uyar));
                assert forall|j: int| 0 <= j < i + 1 implies (y.contains(j as usize) <==> #[trigger] paket_sonucu(arama_deseni@, paketler@[j]) == Some(true)) by {
                    if j < i {
                        if y.contains(j as usize) {
                            let t = choose|t: int| 0 <= t < y.len() && y[t] == j as usize;
                            if t < eski.len() {
                                assert(eski[t] == j as usize);
                            }
                        }
                        if eski.contains(j as usize) {
                            let t = choose|t: int| 0 <= t < eski.len() && eski[t] == j as usize;
                            assert(y[t] == j as usize);
                        }
                    } else {
                        if uyar {
                            assert(y[eski.len() as int] == i);
                        } else {
                            if y.contains(j as usize) {
                                let t = choose|t: int| 0 <= t < y.len() && y[t] == j as usize;
                                assert(eski[t] < i);
                            }
                        }
                    }
                }
            }
            i += 1;
        }
        Ok(sonuclar)
    }
}

} // verus!
