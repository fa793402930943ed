//! The trust store: trusted publishers and trusted packages, each kept as a line-delimited
//! text. The texts are handed in and out; reading and writing the files is left to the caller.
use vstd::prelude::*;
use vstd::string::*;
use crate::metin::{gorunumler, karakterler, listede_var, parca, tekrarsiz};

verus! {

/// Whether a character has the Unicode White_Space property: tab through carriage return,
/// space, U+0085, U+00A0, U+1680, U+2000 through U+200A, U+2028, U+2029, U+202F, U+205F and
/// U+3000.
pub open spec fn bosluk(c: char) -> bool {
    ('\t' <= c && c <= '\r') || c == ' ' || c == '\u{85}' || c == '\u{a0}' || c == '\u{1680}'
        || ('\u{2000}' <= c && c <= '\u{200a}') || c == '\u{2028}' || c == '\u{2029}' || c
        == '\u{202f}' || c == '\u{205f}' || c == '\u{3000}'
}

/// Whether a character has the Unicode White_Space property.
pub fn bosluk_mu(c: char) -> (r: bool)
    ensures
        r == bosluk(c),
{
    ('\t' <= c && c <= '\r') || c == ' ' || c == '\u{85}' || c == '\u{a0}' || c == '\u{1680}'
        || ('\u{2000}' <= c && c <= '\u{200a}') || c == '\u{2028}' || c == '\u{2029}' || c
        == '\u{202f}' || c == '\u{205f}' || c == '\u{3000}'
}

/// The text without its leading white space.
pub open spec fn bas_kirp(s: Seq<char>) -> Seq<char>
    decreases s.len(),
{
    if s.len() > 0 && bosluk(s[0]) {
        bas_kirp(s.drop_first())
    } else {
        s
    }
}

/// The text without its trailing white space.
pub open spec fn son_kirp(s: Seq<char>) -> Seq<char>
    decreases s.len(),
{
    if s.len() > 0 && bosluk(s.last()) {
        son_kirp(s.drop_last())
    } else {
        s
    }
}

/// The text without leading and trailing white space.
pub open spec fn kirp(s: Seq<char>) -> Seq<char> {
    son_kirp(bas_kirp(s))
}

/// The pieces of the text between line breaks; a text ending in a line break ends in an
/// empty piece.
pub open spec fn satirlar(s: Seq<char>) -> Seq<Seq<char>>
    decreases s.len(),
{
    if s.len() == 0 {
        seq![Seq::empty()]
    } else if s.last() == '\n' {
        satirlar(s.drop_last()).push(Seq::empty())
    } else {
        let l = satirlar(s.drop_last());
        l.update(l.len() - 1, l.last().push(s.last()))
    }
}

/// The identifiers that a list text names: its lines without surrounding white space,
/// empty ones left out.
pub open spec fn listedeki_kimlikler(s: Seq<char>) -> Set<Seq<char>> {
    Set::new(
        |x: Seq<char>|
            x.len() > 0 && exists|i: int|
                0 <= i < satirlar(s).len() && #[trigger] kirp(satirlar(s)[i]) == x,
    )
}

/// Each identifier followed by a line break, in order.
pub open spec fn satir_satir(v: Seq<Seq<char>>) -> Seq<char>
    decreases v.len(),
{
    if v.len() == 0 {
        Seq::empty()
    } else {
        satir_satir(v.drop_last()) + v.last() + seq!['\n']
    }
}

proof fn lemma_satirlar_uzunluk(s: Seq<char>)
    ensures
        satirlar(s).len() >= 1,
    decreases s.len(),
{
    if s.len() > 0 {
        lemma_satirlar_uzunluk(s.drop_last());
    }
}

/// Appending text without a line break extends the last piece.
proof fn lemma_satirlar_ekle(s: Seq<char>, e: Seq<char>)
    requires
        !e.contains('\n'),
    ensures
        satirlar(s + e) == satirlar(s).update(satirlar(s).len() - 1, satirlar(s).last() + e),
    decreases e.len(),
{
    lemma_satirlar_uzunluk(s);
    if e.len() == 0 {
        assert(s + e =~= s);
        assert(satirlar(s).last() + e =~= satirlar(s).last());
        assert(satirlar(s).update(satirlar(s).len() - 1, satirlar(s).last()) =~= satirlar(s));
    } else {
        let e1 = e.drop_last();
        assert(!e1.contains('\n')) by {
            if e1.contains('\n') {
                let t = choose|t: int| 0 <= t < e1.len() && e1[t] == '\n';
                assert(e[t] == '\n');
            }
        }
        lemma_satirlar_ekle(s, e1);
        assert((s + e).drop_last() =~= s + e1);
        assert(e.contains(e.last()));
        assert((s + e).last() == e.last());
        let l = satirlar(s + e1);
        assert(l.last() == satirlar(s).last() + e1);
        assert(l.last().push(e.last()) =~= satirlar(s).last() + e);
        assert(l.update(l.len() - 1, l.last().push(e.last())) =~= satirlar(s).update(
            satirlar(s).len() - 1,
            satirlar(s).last() + e,
        ));
    }
}

proof fn lemma_bas_kirp_onek(c: Seq<char>, a: int, b: int)
    requires
        0 <= a < b <= c.len(),
        bosluk(c[a]),
    ensures
        bas_kirp(c.subrange(a, b)) == bas_kirp(c.subrange(a + 1, b)),
{
    assert(c.subrange(a, b).drop_first() =~= c.subrange(a + 1, b));
}

proof fn lemma_son_kirp_onek(c: Seq<char>, a: int, b: int)
    requires
        0 <= a < b <= c.len(),
        bosluk(c[b - 1]),
    ensures
        son_kirp(c.subrange(a, b)) == son_kirp(c.subrange(a, b - 1)),
{
    assert(c.subrange(a, b).drop_last() =~= c.subrange(a, b - 1));
}

/// The bounds of `c[a..b]` without surrounding white space.
pub(crate) fn kirp_araligi(c: &Vec<char>, a: usize, b: usize) -> (r: (usize, usize))
    requires
        a <= b <= c@.len(),
    ensures
        a <= r.0 <= r.1 <= b,
        kirp(c@.subrange(a as int, b as int)) == c@.subrange(r.0 as int, r.1 as int),
{
    let mut x: usize = a;
    while x < b && bosluk_mu(c[x])
        invariant
            a <= x <= b <= c@.len(),
            bas_kirp(c@.subrange(a as int, b as int)) == bas_kirp(c@.subrange(x as int, b as int)),
        decreases b - x,
    {
        proof {
            lemma_bas_kirp_onek(c@, x as int, b as int);
        }
        x += 1;
    }
    assert(bas_kirp(c@.subrange(x as int, b as int)) == c@.subrange(x as int, b as int)) by {
        if x < b {
            assert(c@.subrange(x as int, b as int)[0] == c@[x as int]);
        }
    }
    let mut y: usize = b;
    while y > x && bosluk_mu(c[y - 1])
        invariant
            a <= x <= y <= b <= c@.len(),
            son_kirp(c@.subrange(x as int, b as int)) == son_kirp(c@.subrange(x as int, y as int)),
        decreases y,
    {
        proof {
            lemma_son_kirp_onek(c@, x as int, y as int);
        }
        y -= 1;
    }
    assert(son_kirp(c@.subrange(x as int, y as int)) == c@.subrange(x as int, y as int)) by {
        if y > x {
            assert(c@.subrange(x as int, y as int).last() == c@[y - 1]);
        }
    }
    (x, y)
}

proof fn lemma_satirlar_adim(c: Seq<char>, i: int)
    requires
        0 <= i < c.len(),
    ensures
        c[i] == '\n' ==> satirlar(c.subrange(0, i + 1)) == satirlar(c.subrange(0, i)).push(Seq::empty()),
        c[i] != '\n' ==> satirlar(c.subrange(0, i + 1)) == satirlar(c.subrange(0, i)).update(
            satirlar(c.subrange(0, i)).len() - 1,
            satirlar(c.subrange(0, i)).last().push(c[i]),
        ),
{
    assert(c.subrange(0, i + 1).drop_last() =~= c.subrange(0, i));
}

/// The identifiers of a list text: each line without surrounding white space, empty ones
/// left out, in order.
pub fn kimlikleri_oku(icerik: &str) -> (r: Vec<String>)
    ensures
        forall|x: Seq<char>| gorunumler(r@).contains(x) <==> listedeki_kimlikler(icerik@).contains(x),
{
    let c = karakterler(icerik);
    let ghost n = c@.len();
    let mut r: Vec<String> = Vec::new();
    let mut bas: usize = 0;
    let mut i: usize = 0;
    let ghost mut biten: Seq<Seq<char>> = Seq::empty();
    proof {
        assert(c@.subrange(0, 0) =~= Seq::<char>::empty());
        assert(c@.subrange(0, 0) =~= c@.subrange(0, 0));
        assert(satirlar(Seq::<char>::empty()) == seq![Seq::<char>::empty()]);
        assert(biten.push(c@.subrange(0, 0)) =~= seq![Seq::<char>::empty()]);
    }
    while i < c.len()
        invariant
            c@ == icerik@,
            0 <= bas <= i <= c@.len(),
            satirlar(c@.subrange(0, i as int)) == biten.push(c@.subrange(bas as int, i as int)),
            forall|x: Seq<char>|
                gorunumler(r@).contains(x) <==> (x.len() > 0 && exists|j: int|
                    0 <= j < biten.len() && #[trigger] kirp(biten[j]) == x),
        decreases c@.len() - i,
    {
        proof {
            lemma_satirlar_adim(c@, i as int);
        }
        if c[i] == '\n' {
            let (a, b) = kirp_araligi(&c, bas, i);
            let ghost parca_ = c@.subrange(bas as int, i as int);
            let ghost eski = gorunumler(r@);
            if a < b {
                let s = parca(icerik, a, b);
                r.push(s);
                proof {
                    assert(gorunumler(r@) =~= eski.push(c@.subrange(a as int, b as int)));
                }
            }
            proof {
                let yeni = biten.push(parca_);
                assert forall|x: Seq<char>|
                    gorunumler(r@).contains(x) <==> (x.len() > 0 && exists|j: int|
                        0 <= j < yeni.len() && #[trigger] kirp(yeni[j]) == x) by {
                    if gorunumler(r@).contains(x) && !eski.contains(x) {
                        let t = choose|t: int| 0 <= t < gorunumler(r@).len() && gorunumler(r@)[t] == x;
                        assert(t == eski.len());
                        assert(kirp(yeni[biten.len() as int]) == x);
                    }
                    if eski.contains(x) {
                        let t = choose|t: int| 0 <= t < eski.len() && eski[t] == x;
                        assert(gorunumler(r@)[t] == x);
                        let j = choose|j: int| 0 <= j < biten.len() && #[trigger] kirp(biten[j]) == x;
                        assert(yeni[j] == biten[j]);
                    }
                    if x.len() > 0 && exists|j: int| 0 <= j < yeni.len() && #[trigger] kirp(yeni[j]) == x {
                        let j = choose|j: int| 0 <= j < yeni.len() && #[trigger] kirp(yeni[j]) == x;
                        if j < biten.len() {
                            assert(yeni[j] == biten[j]);
                            assert(eski.contains(x));
                            let t = choose|t: int| 0 <= t < eski.len() && eski[t] == x;
                            assert(gorunumler(r@)[t] == x);
                        } else {
                            assert(gorunumler(r@)[eski.len() as int] == x);
                        }
                    }
                }
                biten = yeni;
                assert(c@.subrange(i + 1, i + 1) =~= Seq::<char>::empty());
            }
            bas = i + 1;
        } else {
            proof {
                assert(c@.subrange(bas as int, i + 1) =~= c@.subrange(bas as int, i as int).push(c@[i as int]));
            }
        }
        i += 1;
    }
    let (a, b) = kirp_araligi(&c, bas, c.len());
    let ghost eski = gorunumler(r@);
    let ghost yeni = biten.push(c@.subrange(bas as int, n as int));
    if a < b {
        let s = parca(icerik, a, b);
        r.push(s);
        proof {
            assert(gorunumler(r@) =~= eski.push(c@.subrange(a as int, b as int)));
        }
    }
    proof {
        assert(c@.subrange(0, n as int) =~= c@);
        assert forall|x: Seq<char>| gorunumler(r@).contains(x) <==> listedeki_kimlikler(icerik@).contains(x) by {
            if gorunumler(r@).contains(x) && !eski.contains(x) {
                let t = choose|t: int| 0 <= t < gorunumler(r@).len() && gorunumler(r@)[t] == x;
                assert(t == eski.len());
                assert(kirp(yeni[biten.len() as int]) == x);
            }
            if eski.contains(x) {
                let t = choose|t: int| 0 <= t < eski.len() && eski[t] == x;
                assert(gorunumler(r@)[t] == x);
                let j = choose|j: int| 0 <= j < biten.len() && #[trigger] kirp(biten[j]) == x;
                assert(yeni[j] == biten[j]);
            }
            if listedeki_kimlikler(icerik@).contains(x) {
                let j = choose|j: int| 0 <= j < yeni.len() && #[trigger] kirp(yeni[j]) == x;
                if j < biten.len() {
                    assert(yeni[j] == biten[j]);
                    assert(eski.contains(x));
                    let t = choose|t: int| 0 <= t < eski.len() && eski[t] == x;
                    assert(gorunumler(r@)[t] == x);
                } else {
                    assert(gorunumler(r@)[eski.len() as int] == x);
                }
            }
        }
    }
    r
}


/// Adds `s` to a list without repetitions; tells whether it was new.
fn kume_ekle(v: &mut Vec<String>, s: &str) -> (r: bool)
    requires
        tekrarsiz(gorunumler(old(v)@)),
    ensures
        tekrarsiz(gorunumler(final(v)@)),
        r == !gorunumler(old(v)@).contains(s@),
        forall|x: Seq<char>| gorunumler(final(v)@).contains(x) <==> (gorunumler(old(v)@).contains(x) || x == s@),
{
    let yeni = s.to_owned();
    if listede_var(v, &yeni) {
        return false;
    }
    let ghost eski = gorunumler(v@);
    v.push(yeni);
    proof {
        let g = gorunumler(v@);
        assert(g =~= eski.push(s@));
        assert forall|x: Seq<char>| g.contains(x) <==> (eski.contains(x) || x == s@) by {
            if eski.contains(x) {
                let t = choose|t: int| 0 <= t < eski.len() && eski[t] == x;
                assert(g[t] == x);
            }
            if x == s@ {
                assert(g[eski.len() as int] == x);
            }
            if g.contains(x) {
                let t = choose|t: int| 0 <= t < g.len() && g[t] == x;
                if t < eski.len() {
                    assert(eski[t] == x);
                }
            }
        }
        assert forall|i: int, j: int| 0 <= i < j < g.len() implies g[i] != g[j] by {
            if j == eski.len() {
                assert(g[i] == eski[i]);
                assert(eski.contains(eski[i]));
            } else {
                assert(g[i] == eski[i] && g[j] == eski[j]);
            }
        }
    }
    true
}

/// Removes `s` from a list without repetitions; tells whether it was there.
fn kume_cikar(v: &mut Vec<String>, s: &str) -> (r: bool)
    requires
        tekrarsiz(gorunumler(old(v)@)),
    ensures
        tekrarsiz(gorunumler(final(v)@)),
        r == gorunumler(old(v)@).contains(s@),
        forall|x: Seq<char>| gorunumler(final(v)@).contains(x) <==> (gorunumler(old(v)@).contains(x) && x != s@),
{
    let aranan = s.to_owned();
    let ghost eski = gorunumler(v@);
    let mut i: usize = 0;
    while i < v.len()
        invariant
            eski == gorunumler(v@),
            eski == gorunumler(old(v)@),
            tekrarsiz(eski),
            aranan@ == s@,
            0 <= i <= v@.len(),
            forall|k: int| 0 <= k < i ==> eski[k] != s@,
        decreases v.len() - i,
    {
        assert(eski[i as int] == v@[i as int]@);
        if v[i] == aranan {
            v.remove(i);
            proof {
                let g = gorunumler(v@);
                assert(g =~= eski.remove(i as int));
                assert(eski.contains(s@));
                assert forall|x: Seq<char>| g.contains(x) <==> (eski.contains(x) && x != s@) by {
                    if g.contains(x) {
                        let t = choose|t: int| 0 <= t < g.len() && g[t] == x;
                        if t < i {
                            assert(eski[t] == x);
                        } else {
                            assert(eski[t + 1] == x);
                        }
                    }
                    if eski.contains(x) && x != s@ {
                        let t = choose|t: int| 0 <= t < eski.len() && eski[t] == x;
                        if t < i {
                            assert(g[t] == x);
                        } else {
                            assert(t != i);
                            assert(g[t - 1] == x);
                        }
                    }
                }
                assert forall|a: int, b: int| 0 <= a < b < g.len() implies g[a] != g[b] by {
                    let a2 = if a < i { a } else { a + 1 };
                    let b2 = if b < i { b } else { b + 1 };
                    assert(g[a] == eski[a2] && g[b] == eski[b2]);
                }
            }
            return true;
        }
        i += 1;
    }
    false
}

/// Adds every identifier named by a list text to a list without repetitions.
fn kume_yukle(v: &mut Vec<String>, icerik: &str)
    requires
        tekrarsiz(gorunumler(old(v)@)),
    ensures
        tekrarsiz(gorunumler(final(v)@)),
        forall|x: Seq<char>| #[trigger] gorunumler(final(v)@).contains(x) <==> (gorunumler(old(v)@).contains(x)
            || listedeki_kimlikler(icerik@).contains(x)),
{
    let kimlikler = kimlikleri_oku(icerik);
    let mut i: usize = 0;
    while i < kimlikler.len()
        invariant
            tekrarsiz(gorunumler(v@)),
            0 <= i <= kimlikler@.len(),
            forall|x: Seq<char>| gorunumler(kimlikler@).contains(x) <==> listedeki_kimlikler(icerik@).contains(x),
            forall|x: Seq<char>| gorunumler(v@).contains(x) <==> (gorunumler(old(v)@).contains(x)
                || gorunumler(kimlikler@).subrange(0, i as int).contains(x)),
        decreases kimlikler.len() - i,
    {
        let ghost onceki = gorunumler(kimlikler@).subrange(0, i as int);
        kume_ekle(v, kimlikler[i].as_str());
        i += 1;
        proof {
            let simdi = gorunumler(kimlikler@).subrange(0, i as int);
            assert(simdi =~= onceki.push(kimlikler@[i - 1]@));
            assert forall|x: Seq<char>| simdi.contains(x) <==> (onceki.contains(x) || x == kimlikler@[i - 1]@) by {
                if onceki.contains(x) {
                    let t = choose|t: int| 0 <= t < onceki.len() && onceki[t] == x;
                    assert(simdi[t] == x);
                }
                if x == kimlikler@[i - 1]@ {
                    assert(simdi[i - 1] == x);
                }
                if simdi.contains(x) {
                    let t = choose|t: int| 0 <= t < simdi.len() && simdi[t] == x;
                    if t < i - 1 {
                        assert(onceki[t] == x);
                    }
                }
            }
        }
    }
    proof {
        assert(gorunumler(kimlikler@).subrange(0, i as int) =~= gorunumler(kimlikler@));
    }
}

/// The trusted publishers and the trusted packages.
pub struct TrustManager {
    trusted_publishers: Vec<String>,
    trusted_packages: Vec<String>,
}

impl TrustManager {
    /// The trusted publishers, in the order in which they were added.
    pub closed spec fn yayincilar(&self) -> Seq<Seq<char>> {
        gorunumler(self.trusted_publishers@)
    }

    /// The trusted packages, in the order in which they were added.
    pub closed spec fn paketler(&self) -> Seq<Seq<char>> {
        gorunumler(self.trusted_packages@)
    }

    /// Neither list repeats an identifier.
    pub open spec fn wf(&self) -> bool {
        tekrarsiz(self.yayincilar()) && tekrarsiz(self.paketler())
    }

    /// A store that trusts nothing yet.
    pub fn new() -> (r: TrustManager)
        ensures
            r.wf(),
            r.yayincilar().len() == 0,
            r.paketler().len() == 0,
    {
        TrustManager { trusted_publishers: Vec::new(), trusted_packages: Vec::new() }
    }

    /// Adds every identifier named by the text of the publishers list.
    pub fn load_trusted_publishers(&mut self, icerik: &str)
        requires
            old(self).wf(),
        ensures
            final(self).wf(),
            final(self).paketler() == old(self).paketler(),
            forall|x: Seq<char>| final(self).yayincilar().contains(x) <==> (old(self).yayincilar().contains(x)
                || listedeki_kimlikler(icerik@).contains(x)),
    {
        let ghost eski = self.yayincilar();
        kume_yukle(&mut self.trusted_publishers, icerik);
        assert forall|x: Seq<char>| self.yayincilar().contains(x) <==> (eski.contains(x)
            || listedeki_kimlikler(icerik@).contains(x)) by {
            assert(gorunumler(self.trusted_publishers@).contains(x) == self.yayincilar().contains(x));
        }
    }

    /// Adds every identifier named by the text of the packages list.
    pub fn load_trusted_packages(&mut self, icerik: &str)
        requires
            old(self).wf(),
        ensures
            final(self).wf(),
            final(self).yayincilar() == old(self).yayincilar(),
            forall|x: Seq<char>| final(self).paketler().contains(x) <==> (old(self).paketler().contains(x)
                || listedeki_kimlikler(icerik@).contains(x)),
    {
        let ghost eski = self.paketler();
        kume_yukle(&mut self.trusted_packages, icerik);
        assert forall|x: Seq<char>| self.paketler().contains(x) <==> (eski.contains(x)
            || listedeki_kimlikler(icerik@).contains(x)) by {
            assert(gorunumler(self.trusted_packages@).contains(x) == self.paketler().contains(x));
        }
    }

    /// Loads both lists from their texts.
    pub fn load_trusted_data(&mut self, yayinci_icerigi: &str, paket_icerigi: &str)
        requires
            old(self).wf(),
        ensures
            final(self).wf(),
            forall|x: Seq<char>| final(self).yayincilar().contains(x) <==> (old(self).yayincilar().contains(x)
                || listedeki_kimlikler(yayinci_icerigi@).contains(x)),
            forall|x: Seq<char>| final(self).paketler().contains(x) <==> (old(self).paketler().contains(x)
                || listedeki_kimlikler(paket_icerigi@).contains(x)),
    {
        self.load_trusted_publishers(yayinci_icerigi);
        self.load_trusted_packages(paket_icerigi);
    }

    /// Trusts `publisher_name`; true when it was not trusted before, in which case the line
    /// of `persist_trusted_publisher` is to be appended to the publishers list.
    pub fn add_trusted_publisher(&mut self, publisher_name: &str) -> (r: bool)
        requires
            old(self).wf(),
        ensures
            final(self).wf(),
            r == !old(self).yayincilar().contains(publisher_name@),
            final(self).paketler() == old(self).paketler(),
            forall|x: Seq<char>| final(self).yayincilar().contains(x) <==> (old(self).yayincilar().contains(x)
                || x == publisher_name@),
    {
        kume_ekle(&mut self.trusted_publishers, publisher_name)
    }

    /// The line that records one trusted publisher.
    pub fn persist_trusted_publisher(&self, publisher_name: &str) -> (r: String)
        ensures
            r@ == publisher_name@ + seq!['\n'],
    {
        satir(publisher_name)
    }

    /// Stops trusting `publisher_name`; true when it was trusted, in which case the list is to
    /// be rewritten with `persist_trusted_publishers`.
    pub fn remove_trusted_publisher(&mut self, publisher_name: &str) -> (r: bool)
        requires
            old(self).wf(),
        ensures
            final(self).wf(),
            r == old(self).yayincilar().contains(publisher_name@),
            final(self).paketler() == old(self).paketler(),
            forall|x: Seq<char>| final(self).yayincilar().contains(x) <==> (old(self).yayincilar().contains(x)
                && x != publisher_name@),
    {
        kume_cikar(&mut self.trusted_publishers, publisher_name)
    }

    /// The whole publishers list: one line per trusted publisher.
    pub fn persist_trusted_publishers(&self) -> (r: String)
        ensures
            r@ == satir_satir(self.yayincilar()),
    {
        satirlari_yaz(&self.trusted_publishers)
    }

    pub fn is_trusted_publisher(&self, publisher_name: &str) -> (r: bool)
        ensures
            r == self.yayincilar().contains(publisher_name@),
    {
        listede_var(&self.trusted_publishers, &publisher_name.to_owned())
    }

    /// Trusts `package_name`; true when it was not trusted before, in which case the line
    /// of `persist_trusted_package` is to be appended to the packages list.
    pub fn add_trusted_package(&mut self, package_name: &str) -> (r: bool)
        requires
            old(self).wf(),
        ensures
            final(self).wf(),
            r == !old(self).paketler().contains(package_name@),
            final(self).yayincilar() == old(self).yayincilar(),
            forall|x: Seq<char>| final(self).paketler().contains(x) <==> (old(self).paketler().contains(x)
                || x == package_name@),
    {
        kume_ekle(&mut self.trusted_packages, package_name)
    }

    /// The line that records one trusted package.
    pub fn persist_trusted_package(&self, package_name: &str) -> (r: String)
        ensures
            r@ == package_name@ + seq!['\n'],
    {
        satir(package_name)
    }

    /// Stops trusting `package_name`; true when it was trusted, in which case the list is to
    /// be rewritten with `persist_trusted_packages`.
    pub fn remove_trusted_package(&mut self, package_name: &str) -> (r: bool)
        requires
            old(self).wf(),
        ensures
            final(self).wf(),
            r == old(self).paketler().contains(package_name@),
            final(self).yayincilar() == old(self).yayincilar(),
            forall|x: Seq<char>| final(self).paketler().contains(x) <==> (old(self).paketler().contains(x)
                && x != package_name@),
    {
        kume_cikar(&mut self.trusted_packages, package_name)
    }

    /// The whole packages list: one line per trusted package.
    pub fn persist_trusted_packages(&self) -> (r: String)
        ensures
            r@ == satir_satir(self.paketler()),
    {
        satirlari_yaz(&self.trusted_packages)
    }

    pub fn is_trusted_package(&self, package_name: &str) -> (r: bool)
        ensures
            r == self.paketler().contains(package_name@),
    {
        listede_var(&self.trusted_packages, &package_name.to_owned())
    }
}

/// `s` followed by a line break.
fn satir(s: &str) -> (r: String)
    ensures
        r@ == s@ + seq!['\n'],
{
    let mut r = s.to_owned();
    r.append("\n");
    proof {
        reveal_strlit("\n");
    }
    r
}

/// Each string of `v` followed by a line break.
fn satirlari_yaz(v: &Vec<String>) -> (r: String)
    ensures
        r@ == satir_satir(gorunumler(v@)),
{
    let mut r = String::new();
    let mut i: usize = 0;
    while i < v.len()
        invariant
            0 <= i <= v@.len(),
            r@ == satir_satir(gorunumler(v@).subrange(0, i as int)),
        decreases v.len() - i,
    {
        r.append(v[i].as_str());
        r.append("\n");
        proof {
            reveal_strlit("\n");
            let a = gorunumler(v@).subrange(0, i as int);
            let b = gorunumler(v@).subrange(0, i + 1);
            assert(b.drop_last() =~= a);
            assert(b.last() == v@[i as int]@);
        }
        i += 1;
    }
    proof {
        assert(gorunumler(v@).subrange(0, i as int) =~= gorunumler(v@));
    }
    r
}

proof fn lemma_kirp_bos()
    ensures
        kirp(Seq::<char>::empty()) == Seq::<char>::empty(),
{
}

proof fn lemma_satir_satir_satirlari(v: Seq<Seq<char>>)
    requires
        forall|i: int| 0 <= i < v.len() ==> !(#[trigger] v[i]).contains('\n'),
    ensures
        satirlar(satir_satir(v)) == v.push(Seq::empty()),
    decreases v.len(),
{
    if v.len() == 0 {
        assert(satir_satir(v) =~= Seq::<char>::empty());
        assert(v.push(Seq::empty()) =~= seq![Seq::<char>::empty()]);
    } else {
        let w = v.drop_last();
        assert forall|i: int| 0 <= i < w.len() implies !(#[trigger] w[i]).contains('\n') by {
            assert(w[i] == v[i]);
        }
        lemma_satir_satir_satirlari(w);
        let onek = satir_satir(w);
        assert(!v[v.len() - 1].contains('\n'));
        lemma_satirlar_ekle(onek, v.last());
        let orta = onek + v.last();
        assert(satirlar(orta) =~= w.push(v.last())) by {
            assert(satirlar(onek).last() == Seq::<char>::empty());
            assert(Seq::<char>::empty() + v.last() =~= v.last());
        }
        assert((orta + seq!['\n']).drop_last() =~= orta);
        assert(satir_satir(v) == orta + seq!['\n']);
        assert(w.push(v.last()) =~= v);
    }
}

/// After a trusted identifier is appended as a line to a list of whole lines, reading the list
/// back trusts it, provided it is not empty, holds no line break, and has no surrounding white
/// space.
pub proof fn lemma_eklenen_yeniden_okunur(onceki: Seq<char>, p: Seq<char>)
    requires
        onceki.len() == 0 || onceki.last() == '\n',
        p.len() > 0,
        !p.contains('\n'),
        kirp(p) == p,
    ensures
        listedeki_kimlikler(onceki + p + seq!['\n']).contains(p),
{
    lemma_satirlar_uzunluk(onceki);
    assert(satirlar(onceki).last() == Seq::<char>::empty()) by {
        if onceki.len() > 0 {
            assert(satirlar(onceki) == satirlar(onceki.drop_last()).push(Seq::empty()));
        }
    }
    lemma_satirlar_ekle(onceki, p);
    let orta = onceki + p;
    let l = satirlar(orta);
    assert(l[l.len() - 1] == Seq::<char>::empty() + p);
    assert(Seq::<char>::empty() + p =~= p);
    assert((orta + seq!['\n']).drop_last() =~= orta);
    let son = satirlar(orta + seq!['\n']);
    assert(son == l.push(Seq::empty()));
    assert(son[l.len() - 1] == p);
    assert(kirp(son[l.len() - 1]) == p);
}

/// A list rewritten from identifiers that have no surrounding white space and no line break
/// does not name an identifier that was left out of it.
pub proof fn lemma_cikarilan_yeniden_okunmaz(liste: Seq<Seq<char>>, p: Seq<char>)
    requires
        !liste.contains(p),
        forall|i: int| 0 <= i < liste.len() ==> kirp(#[trigger] liste[i]) == liste[i] && !liste[i].contains('\n'),
    ensures
        !listedeki_kimlikler(satir_satir(liste)).contains(p),
{
    lemma_satir_satir_satirlari(liste);
    lemma_kirp_bos();
    let l = satirlar(satir_satir(liste));
    if listedeki_kimlikler(satir_satir(liste)).contains(p) {
        let j = choose|j: int| 0 <= j < l.len() && #[trigger] kirp(l[j]) == p;
        if j < liste.len() {
            assert(l[j] == liste[j]);
        } else {
            assert(l[j] == Seq::<char>::empty());
        }
    }
}

} // verus!
