//! Safe extraction of a zip archive: every entry is checked against the target directory and
//! turned into a step (make a directory, write a file); the caller carries the steps out only
//! when the whole archive passed.
use vstd::prelude::*;
use vstd::string::*;
use std::io::Read;
use crate::hata::PaketYoneticisiHata;
use crate::metin::karakterler;

verus! {

/// The number of entries in the archive's central directory; none when the archive cannot
/// be opened.
pub uninterp spec fn zip_girdi_sayisi(b: Seq<u8>) -> Option<nat>;

/// The name of entry `i` of the archive; none when it cannot be read.
pub uninterp spec fn zip_girdi_adi(b: Seq<u8>, i: int) -> Option<Seq<char>>;

/// The uncompressed content of entry `i` of the archive; none when it cannot be read.
pub uninterp spec fn zip_girdi_verisi(b: Seq<u8>, i: int) -> Option<Seq<u8>>;

/// Relies on zip's `ZipArchive::new` and `ZipArchive::len`: whether the archive opens, and
/// the number of entries.
#[verifier::external_body]
fn girdi_sayisi(arsiv: &[u8]) -> (r: Result<usize, String>)
    ensures
        r is Ok <==> zip_girdi_sayisi(arsiv@) is Some,
        r matches Ok(n) ==> zip_girdi_sayisi(arsiv@) == Some(n as nat),
{
    let a = zip::ZipArchive::new(std::io::Cursor::new(arsiv)).map_err(|e| e.to_string())?;
    Ok(a.len())
}

/// Relies on zip's `ZipArchive::by_index_raw` and `ZipFile::name`: the name of entry `i`,
/// read without decrypting or decompressing anything.
#[verifier::external_body]
fn girdi_adi(arsiv: &[u8], i: usize) -> (r: Result<String, String>)
    ensures
        r is Ok <==> zip_girdi_adi(arsiv@, i as int) is Some,
        r matches Ok(s) ==> zip_girdi_adi(arsiv@, i as int) == Some(s@),
{
    let mut a = zip::ZipArchive::new(std::io::Cursor::new(arsiv)).map_err(|e| e.to_string())?;
    let f = a.by_index_raw(i).map_err(|e| e.to_string())?;
    Ok(f.name().to_string())
}

/// Relies on zip's `ZipArchive::by_index_decrypt` with an empty password (ignored for entries
/// that are not encrypted) and reading the `ZipFile`: the content of entry `i`.
#[verifier::external_body]
fn girdi_verisi(arsiv: &[u8], i: usize) -> (r: Result<Vec<u8>, String>)
    ensures
        r is Ok <==> zip_girdi_verisi(arsiv@, i as int) is Some,
        r matches Ok(v) ==> zip_girdi_verisi(arsiv@, i as int) == Some(v@),
{
    let mut a = zip::ZipArchive::new(std::io::Cursor::new(arsiv)).map_err(|e| e.to_string())?;
    let mut f = a.by_index_decrypt(i, b"").map_err(|e| e.to_string())?.map_err(|e| e.to_string())?;
    let mut v = Vec::new();
    f.read_to_end(&mut v).map_err(|e| e.to_string())?;
    Ok(v)
}

/// The pieces of a path between slashes.
pub open spec fn yol_bilesenleri(s: Seq<char>) -> Seq<Seq<char>>
    decreases s.len(),
{
    if s.len() == 0 {
        seq![Seq::empty()]
    } else if s.last() == '/' {
        yol_bilesenleri(s.drop_last()).push(Seq::empty())
    } else {
        let l = yol_bilesenleri(s.drop_last());
        l.update(l.len() - 1, l.last().push(s.last()))
    }
}

/// How deep below the start the path pieces lead, or -1 once they climb above it.
pub open spec fn derinlik(b: Seq<Seq<char>>) -> int
    decreases b.len(),
{
    if b.len() == 0 {
        0
    } else {
        let d = derinlik(b.drop_last());
        if d < 0 {
            -1
        } else if b.last() == seq!['.', '.'] {
            d - 1
        } else if b.last() == seq!['.'] || b.last().len() == 0 {
            d
        } else {
            d + 1
        }
    }
}

/// An entry name that stays inside the target directory: not absolute, and no `..` climbs
/// above the start.
pub open spec fn guvenli(ad: Seq<char>) -> bool {
    !(ad.len() > 0 && ad[0] == '/') && derinlik(yol_bilesenleri(ad)) >= 0
}

/// The path of `ad` inside directory `dizin`.
pub open spec fn birlestir(dizin: Seq<char>, ad: Seq<char>) -> Seq<char> {
    if dizin.len() == 0 {
        ad
    } else if dizin.last() == '/' {
        dizin + ad
    } else {
        dizin + seq!['/'] + ad
    }
}

proof fn lemma_bilesen_adim(c: Seq<char>, i: int)
    requires
        0 <= i < c.len(),
    ensures
        c[i] == '/' ==> yol_bilesenleri(c.subrange(0, i + 1)) == yol_bilesenleri(c.subrange(0, i)).push(
            Seq::empty(),
        ),
        c[i] != '/' ==> yol_bilesenleri(c.subrange(0, i + 1)) == yol_bilesenleri(c.subrange(0, i)).update(
            yol_bilesenleri(c.subrange(0, i)).len() - 1,
            yol_bilesenleri(c.subrange(0, i)).last().push(c[i]),
        ),
{
    assert(c.subrange(0, i + 1).drop_last() =~= c.subrange(0, i));
}

/// The depth after one more path piece `c[a..b]`.
fn sonraki_derinlik(c: &Vec<char>, a: usize, b: usize, d: usize, asildi: bool, Ghost(biten): Ghost<Seq<Seq<char>>>) -> (r: (usize, bool))
    requires
        a <= b <= c@.len(),
        derinlik(biten) == (if asildi { -1 } else { d as int }),
        d <= a,
    ensures
        derinlik(biten.push(c@.subrange(a as int, b as int))) == (if r.1 { -1 } else { r.0 as int }),
        r.0 <= b + 1,
{
    let ghost p = c@.subrange(a as int, b as int);
    assert(biten.push(p).drop_last() =~= biten);
    assert(seq!['.', '.'].len() == 2 && seq!['.'].len() == 1);
    assert(biten.push(p).last() == p);
    if asildi {
        return (0, true);
    }
    if b - a == 2 && c[a] == '.' && c[a + 1] == '.' {
        assert(p =~= seq!['.', '.']);
        if d == 0 {
            (0, true)
        } else {
            (d - 1, false)
        }
    } else if b - a == 0 || (b - a == 1 && c[a] == '.') {
        if b - a == 1 {
            assert(p =~= seq!['.']);
        }
        assert(p != seq!['.', '.']);
        (d, false)
    } else {
        if b - a == 2 {
            assert(p[0] != '.' || p[1] != '.');
            assert(p != seq!['.', '.']);
        }
        if b - a == 1 {
            assert(p[0] == c@[a as int]);
            assert(p[0] != seq!['.'][0]);
            assert(p != seq!['.']);
        }
        (d + 1, false)
    }
}

/// Whether the entry name stays inside the target directory.
pub fn guvenli_mi(ad: &str) -> (r: bool)
    ensures
        r == guvenli(ad@),
{
    let c = karakterler(ad);
    if c.len() > 0 && c[0] == '/' {
        return false;
    }
    let mut bas: usize = 0;
    let mut i: usize = 0;
    let mut d: usize = 0;
    let mut asildi: bool = false;
    let ghost mut biten: Seq<Seq<char>> = Seq::empty();
    proof {
        assert(c@.subrange(0, 0) =~= Seq::<char>::empty());
        assert(biten.push(c@.subrange(0, 0)) =~= seq![Seq::<char>::empty()]);
    }
    while i < c.len()
        invariant
            c@ == ad@,
            0 <= bas <= i <= c@.len(),
            d <= bas,
            yol_bilesenleri(c@.subrange(0, i as int)) == biten.push(c@.subrange(bas as int, i as int)),
            derinlik(biten) == (if asildi { -1 } else { d as int }),
        decreases c@.len() - i,
    {
        proof {
            lemma_bilesen_adim(c@, i as int);
        }
        if c[i] == '/' {
            let (d2, a2) = sonraki_derinlik(&c, bas, i, d, asildi, Ghost(biten));
            proof {
                biten = biten.push(c@.subrange(bas as int, i as int));
                assert(c@.subrange(i + 1, i + 1) =~= Seq::<char>::empty());
            }
            d = d2;
            asildi = a2;
            bas = i + 1;
        } else {
            proof {
                assert(c@.subrange(bas as int, i + 1) =~= c@.subrange(bas as int, i as int).push(c@[i as int]));
            }
        }
        i += 1;
    }
    let (d2, a2) = sonraki_derinlik(&c, bas, c.len(), d, asildi, Ghost(biten));
    proof {
        assert(c@.subrange(0, c@.len() as int) =~= c@);
    }
    !a2
}

/// The path of `ad` inside `dizin`.
pub fn birlestir_yol(dizin: &str, ad: &str) -> (r: String)
    ensures
        r@ == birlestir(dizin@, ad@),
{
    let n = dizin.unicode_len();
    if n == 0 {
        return ad.to_owned();
    }
    let mut r = dizin.to_owned();
    if dizin.get_char(n - 1) != '/' {
        r.append("/");
        proof {
            reveal_strlit("/");
        }
    }
    r.append(ad);
    r
}

/// Where one entry goes.
#[derive(Debug, Clone, PartialEq, Eq)]
pub enum CikartmaHedefi {
    Dizin(String),
    Dosya(String),
}

/// One step of an extraction.
#[derive(Debug, Clone, PartialEq, Eq)]
pub enum CikartmaAdimi {
    /// Create the directory and its parents.
    DizinOlustur(String),
    /// Create the file's parent directories, then create or truncate the file and write the bytes.
    DosyaYaz(String, Vec<u8>),
}

/// The entry name ends with a slash: it stands for a directory.
pub open spec fn dizin_girdisi(ad: Seq<char>) -> bool {
    ad.len() > 0 && ad.last() == '/'
}

/// The destination of an entry inside `cikartma_dizini`, or the refusal of a name that would
/// leave it.
pub fn girdi_hedefi(cikartma_dizini: &str, ad: &str) -> (r: Result<CikartmaHedefi, PaketYoneticisiHata>)
    ensures
        r is Err <==> !guvenli(ad@),
        r matches Err(PaketYoneticisiHata::GecersizCikartmaYolu(m)) ==> m@ == ad@,
        r matches Err(e) ==> e is GecersizCikartmaYolu,
        r matches Ok(CikartmaHedefi::Dizin(p)) ==> dizin_girdisi(ad@) && p@ == birlestir(cikartma_dizini@, ad@),
        r matches Ok(CikartmaHedefi::Dosya(p)) ==> !dizin_girdisi(ad@) && p@ == birlestir(cikartma_dizini@, ad@),
{
    if !guvenli_mi(ad) {
        return Err(PaketYoneticisiHata::GecersizCikartmaYolu(ad.to_owned()));
    }
    let yol = birlestir_yol(cikartma_dizini, ad);
    let n = ad.unicode_len();
    if n > 0 && ad.get_char(n - 1) == '/' {
        Ok(CikartmaHedefi::Dizin(yol))
    } else {
        Ok(CikartmaHedefi::Dosya(yol))
    }
}


/// Entry `i` can be extracted: its name can be read and stays inside the target, and a file
/// entry's content can be read.
pub open spec fn girdi_tamam(b: Seq<u8>, i: int) -> bool {
    &&& zip_girdi_adi(b, i) is Some
    &&& guvenli(zip_girdi_adi(b, i)->Some_0)
    &&& (dizin_girdisi(zip_girdi_adi(b, i)->Some_0) || zip_girdi_verisi(b, i) is Some)
}

/// The archive opens and every entry can be extracted.
pub open spec fn arsiv_tamam(b: Seq<u8>) -> bool {
    &&& zip_girdi_sayisi(b) is Some
    &&& forall|i: int| 0 <= i < zip_girdi_sayisi(b)->Some_0 ==> #[trigger] girdi_tamam(b, i)
}

/// Entry `i` is the first entry that cannot be extracted, because its name leaves the
/// target directory.
pub open spec fn kacan_girdi(b: Seq<u8>, i: int) -> bool {
    &&& zip_girdi_sayisi(b) is Some
    &&& 0 <= i < zip_girdi_sayisi(b)->Some_0
    &&& forall|j: int| 0 <= j < i ==> #[trigger] girdi_tamam(b, j)
    &&& zip_girdi_adi(b, i) is Some
    &&& !guvenli(zip_girdi_adi(b, i)->Some_0)
}

/// Entry `i` can be extracted, and step `v` is what it asks for inside `dizin`.
pub open spec fn adim_uyar(v: CikartmaAdimi, dizin: Seq<char>, b: Seq<u8>, i: int) -> bool {
    let ad = zip_girdi_adi(b, i)->Some_0;
    girdi_tamam(b, i) && match v {
        CikartmaAdimi::DizinOlustur(p) => dizin_girdisi(ad) && p@ == birlestir(dizin, ad),
        CikartmaAdimi::DosyaYaz(p, veri) => !dizin_girdisi(ad) && p@ == birlestir(dizin, ad)
            && zip_girdi_verisi(b, i) == Some(veri@),
    }
}

proof fn lemma_tek_kacan(b: Seq<u8>, i: int)
    requires
        kacan_girdi(b, i),
    ensures
        forall|j: int| kacan_girdi(b, j) ==> j == i,
{
    assert forall|j: int| kacan_girdi(b, j) implies j == i by {
        if j < i {
            assert(girdi_tamam(b, j));
        } else if j > i {
            assert(girdi_tamam(b, i));
        }
    }
}

proof fn lemma_kacan_yok(b: Seq<u8>, i: int)
    requires
        zip_girdi_sayisi(b) is Some,
        0 <= i < zip_girdi_sayisi(b)->Some_0,
        !girdi_tamam(b, i),
        zip_girdi_adi(b, i) is Some ==> guvenli(zip_girdi_adi(b, i)->Some_0),
        forall|k: int| 0 <= k < i ==> #[trigger] girdi_tamam(b, k),
    ensures
        forall|j: int| !kacan_girdi(b, j),
        !arsiv_tamam(b),
{
    assert forall|j: int| !kacan_girdi(b, j) by {
        if kacan_girdi(b, j) {
            if j < i {
                assert(girdi_tamam(b, j));
            } else if j > i {
                assert(girdi_tamam(b, i));
            }
        }
    }
}

/// The steps that extract the archive into `cikartma_dizini`, one per entry in order. The
/// entries are checked in order; the first that cannot be extracted decides the error, and no
/// step is handed out unless every entry passed.
pub fn zip_ac(arsiv: &[u8], cikartma_dizini: &str) -> (r: Result<Vec<CikartmaAdimi>, PaketYoneticisiHata>)
    ensures
        r is Ok <==> arsiv_tamam(arsiv@),
        r matches Ok(v) ==> zip_girdi_sayisi(arsiv@) == Some(v@.len() as nat) && forall|i: int|
            0 <= i < v@.len() ==> adim_uyar(#[trigger] v@[i], cikartma_dizini@, arsiv@, i),
        r matches Err(PaketYoneticisiHata::GecersizCikartmaYolu(m)) ==> exists|i: int|
            #[trigger] kacan_girdi(arsiv@, i) && zip_girdi_adi(arsiv@, i) == Some(m@),
        forall|i: int| #[trigger] kacan_girdi(arsiv@, i) ==> (r matches Err(
            PaketYoneticisiHata::GecersizCikartmaYolu(m),
        ) && zip_girdi_adi(arsiv@, i) == Some(m@)),
        r is Err ==> r matches Err(PaketYoneticisiHata::GecersizCikartmaYolu(_)) || r matches Err(
            PaketYoneticisiHata::ZipHatasi(_),
        ),
{
    let n = match girdi_sayisi(arsiv) {
        Ok(n) => n,
        Err(e) => {
            return Err(PaketYoneticisiHata::ZipHatasi(e));
        },
    };
    let ghost b = arsiv@;
    let mut adimlar: Vec<CikartmaAdimi> = Vec::new();
    let mut i: usize = 0;
    while i < n
        invariant
            b == arsiv@,
            zip_girdi_sayisi(b) == Some(n as nat),
            0 <= i <= n,
            adimlar@.len() == i,
            forall|k: int| 0 <= k < i ==> adim_uyar(#[trigger] adimlar@[k], cikartma_dizini@, b, k),
        decreases n - i,
    {
        assert forall|k: int| 0 <= k < i implies #[trigger] girdi_tamam(b, k) by {
            assert(adim_uyar(adimlar@[k], cikartma_dizini@, b, k));
        }
        let ad = match girdi_adi(arsiv, i) {
            Ok(ad) => ad,
            Err(e) => {
                proof {
                    lemma_kacan_yok(b, i as int);
                }
                return Err(PaketYoneticisiHata::ZipHatasi(e));
            },
        };
        let ghost eski = adimlar@;
        let hedef = girdi_hedefi(cikartma_dizini, ad.as_str());
        match hedef {
            Err(e) => {
                proof {
                    assert(kacan_girdi(b, i as int));
                    lemma_tek_kacan(b, i as int);
                    if arsiv_tamam(b) {
                        assert(girdi_tamam(b, i as int));
                    }
                }
                return Err(e);
            },
            Ok(CikartmaHedefi::Dizin(p)) => {
                adimlar.push(CikartmaAdimi::DizinOlustur(p));
                proof {
                    assert(adim_uyar(adimlar@[i as int], cikartma_dizini@, b, i as int));
                    assert forall|k: int| 0 <= k < i + 1 implies adim_uyar(
                        #[trigger] adimlar@[k], cikartma_dizini@, b, k) by {
                        if k < i {
                            assert(adimlar@[k] == eski[k]);
                        }
                    }
                }
            },
            Ok(CikartmaHedefi::Dosya(p)) => {
                let veri = match girdi_verisi(arsiv, i) {
                    Ok(v) => v,
                    Err(e) => {
                        proof {
                            lemma_kacan_yok(b, i as int);
                        }
                        return Err(PaketYoneticisiHata::ZipHatasi(e));
                    },
                };
                adimlar.push(CikartmaAdimi::DosyaYaz(p, veri));
                proof {
                    assert(adim_uyar(adimlar@[i as int], cikartma_dizini@, b, i as int));
                    assert forall|k: int| 0 <= k < i + 1 implies adim_uyar(
                        #[trigger] adimlar@[k], cikartma_dizini@, b, k) by {
                        if k < i {
                            assert(adimlar@[k] == eski[k]);
                        }
                    }
                }
            },
        }
        i += 1;
    }
    proof {
        assert forall|k: int| 0 <= k < n implies #[trigger] girdi_tamam(b, k) by {
            assert(adim_uyar(adimlar@[k], cikartma_dizini@, b, k));
        }
        assert forall|k: int| !kacan_girdi(b, k) by {
            if kacan_girdi(b, k) {
                assert(girdi_tamam(b, k));
            }
        }
    }
    Ok(adimlar)
}

/// The names of all entries, in order, without extracting anything.
pub fn zip_icerik_listele(arsiv: &[u8]) -> (r: Result<Vec<String>, PaketYoneticisiHata>)
    ensures
        r is Ok <==> zip_girdi_sayisi(arsiv@) is Some && forall|i: int|
            0 <= i < zip_girdi_sayisi(arsiv@)->Some_0 ==> #[trigger] zip_girdi_adi(arsiv@, i) is Some,
        r matches Ok(v) ==> zip_girdi_sayisi(arsiv@) == Some(v@.len() as nat) && forall|i: int|
            0 <= i < v@.len() ==> zip_girdi_adi(arsiv@, i) == Some((#[trigger] v@[i])@),
        r is Err ==> r matches Err(PaketYoneticisiHata::ZipHatasi(_)),
{
    let n = match girdi_sayisi(arsiv) {
        Ok(n) => n,
        Err(e) => {
            return Err(PaketYoneticisiHata::ZipHatasi(e));
        },
    };
    let mut adlar: Vec<String> = Vec::new();
    let mut i: usize = 0;
    while i < n
        invariant
            zip_girdi_sayisi(arsiv@) == Some(n as nat),
            0 <= i <= n,
            adlar@.len() == i,
            forall|k: int| 0 <= k < i ==> zip_girdi_adi(arsiv@, k) == Some((#[trigger] adlar@[k])@),
        decreases n - i,
    {
        match girdi_adi(arsiv, i) {
            Ok(ad) => {
                adlar.push(ad);
            },
            Err(e) => {
                return Err(PaketYoneticisiHata::ZipHatasi(e));
            },
        }
        i += 1;
    }
    proof {
        assert forall|k: int| 0 <= k < n implies #[trigger] zip_girdi_adi(arsiv@, k) is Some by {
            assert(zip_girdi_adi(arsiv@, k) == Some(adlar@[k]@));
        }
    }
    Ok(adlar)
}

proof fn lemma_ilk_bilesen_ust(ad: Seq<char>, j: int)
    requires
        ad.len() >= 3,
        ad[0] == '.',
        ad[1] == '.',
        ad[2] == '/',
        3 <= j <= ad.len(),
    ensures
        yol_bilesenleri(ad.subrange(0, j)).len() >= 2,
        yol_bilesenleri(ad.subrange(0, j))[0] == seq!['.', '.'],
    decreases j,
{
    if j == 3 {
        let s = ad.subrange(0, 3);
        assert(s.drop_last() =~= seq!['.', '.']);
        assert(seq!['.', '.'].drop_last() =~= seq!['.']);
        assert(seq!['.'].drop_last() =~= Seq::<char>::empty());
        reveal_with_fuel(yol_bilesenleri, 4);
        assert(yol_bilesenleri(Seq::<char>::empty()) =~= seq![Seq::<char>::empty()]);
        assert(Seq::<char>::empty().push('.') =~= seq!['.']);
        assert(yol_bilesenleri(seq!['.']) =~= seq![seq!['.']]);
        assert(seq!['.'].push('.') =~= seq!['.', '.']);
        assert(seq!['.', '.'].last() == '.');
        assert(yol_bilesenleri(seq!['.', '.']) =~= seq![seq!['.', '.']]);
        assert(s.last() == '/');
        assert(yol_bilesenleri(s) =~= seq![seq!['.', '.'], Seq::<char>::empty()]);
    } else {
        lemma_ilk_bilesen_ust(ad, j - 1);
        lemma_bilesen_adim(ad, j - 1);
    }
}

proof fn lemma_ust_derinlik(b: Seq<Seq<char>>)
    requires
        b.len() >= 1,
        b[0] == seq!['.', '.'],
    ensures
        derinlik(b) == -1,
    decreases b.len(),
{
    if b.len() == 1 {
        assert(b.drop_last() =~= Seq::<Seq<char>>::empty());
        assert(derinlik(Seq::<Seq<char>>::empty()) == 0);
        assert(b.last() == seq!['.', '.']);
    } else {
        assert(b.drop_last()[0] == b[0]);
        lemma_ust_derinlik(b.drop_last());
    }
}

/// An entry name that starts by climbing to the parent directory is never extracted.
pub proof fn lemma_ust_dizin_reddedilir(ad: Seq<char>)
    requires
        ad.len() >= 3,
        ad[0] == '.',
        ad[1] == '.',
        ad[2] == '/',
    ensures
        !guvenli(ad),
{
    lemma_ilk_bilesen_ust(ad, ad.len() as int);
    assert(ad.subrange(0, ad.len() as int) =~= ad);
    lemma_ust_derinlik(yol_bilesenleri(ad));
}

} // verus!
