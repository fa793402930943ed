//! The transaction journal: a text with one event per line, opened by a start line and
//! closed by a completion line. Rollback only clears the journal; it undoes nothing that
//! earlier steps did to the file system.
use vstd::prelude::*;
use vstd::string::*;
use crate::hata::PaketYoneticisiHata;
use crate::metin::karakterler;

verus! {

/// The line that opens a transaction.
pub open spec fn baslangic_satiri() -> Seq<char> {
    "ISLEM BASLADI"@
}

/// The line that closes a completed transaction.
pub open spec fn tamamlanma_satiri() -> Seq<char> {
    "ISLEM TAMAMLANDI"@
}

/// The text without its trailing line breaks.
pub open spec fn sondaki_satir_sonlari_atilmis(s: Seq<char>) -> Seq<char>
    decreases s.len(),
{
    if s.len() > 0 && s.last() == '\n' {
        sondaki_satir_sonlari_atilmis(s.drop_last())
    } else {
        s
    }
}

/// The last non-empty line of the journal is the completion line.
pub open spec fn tamamlandi(s: Seq<char>) -> bool {
    let t = sondaki_satir_sonlari_atilmis(s);
    let n = tamamlanma_satiri().len();
    &&& t.len() >= n
    &&& t.subrange(t.len() - n, t.len() as int) == tamamlanma_satiri()
    &&& (t.len() == n || t[t.len() - n - 1] == '\n')
}

/// Writes the journal of one install operation; the journal's text is handed in and out.
pub struct IslemYoneticisi {
    islem_gunlugu: String,
}

impl IslemYoneticisi {
    /// A journal kept in the file at `islem_gunlugu`.
    pub fn yeni(islem_gunlugu: &str) -> (r: IslemYoneticisi)
        ensures
            r.gunluk_yolu_spec() == islem_gunlugu@,
    {
        IslemYoneticisi { islem_gunlugu: islem_gunlugu.to_owned() }
    }

    pub closed spec fn gunluk_yolu_spec(&self) -> Seq<char> {
        self.islem_gunlugu@
    }

    /// The path of the journal file.
    pub fn gunluk_yolu(&self) -> (r: &String)
        ensures
            r@ == self.gunluk_yolu_spec(),
    {
        &self.islem_gunlugu
    }

    /// Appends the start line.
    pub fn baslat_islem(&self, gunluk: &mut String)
        ensures
            final(gunluk)@ == old(gunluk)@ + baslangic_satiri() + seq!['\n'],
    {
        gunluk.append("ISLEM BASLADI");
        gunluk.append("\n");
        proof {
            reveal_strlit("\n");
        }
    }

    /// Appends a line with the description of one step.
    pub fn islem_adimi(&self, gunluk: &mut String, adim: &str)
        ensures
            final(gunluk)@ == old(gunluk)@ + adim@ + seq!['\n'],
    {
        gunluk.append(adim);
        gunluk.append("\n");
        proof {
            reveal_strlit("\n");
        }
    }

    /// Appends the completion line.
    pub fn tamamla_islem(&self, gunluk: &mut String)
        ensures
            final(gunluk)@ == old(gunluk)@ + tamamlanma_satiri() + seq!['\n'],
    {
        gunluk.append("ISLEM TAMAMLANDI");
        gunluk.append("\n");
        proof {
            reveal_strlit("\n");
        }
    }

    /// Refuses when the journal records a completed operation and leaves it as it was;
    /// clears it otherwise.
    pub fn geri_al_islem(&self, gunluk: &mut String) -> (r: Result<(), PaketYoneticisiHata>)
        ensures
            r is Err <==> tamamlandi(old(gunluk)@),
            r is Err ==> r == Err::<(), PaketYoneticisiHata>(PaketYoneticisiHata::IslemZatenTamamlandi)
                && final(gunluk)@ == old(gunluk)@,
            r is Ok ==> final(gunluk)@ == Seq::<char>::empty(),
    {
        if gunluk_tamamlandi(gunluk.as_str()) {
            return Err(PaketYoneticisiHata::IslemZatenTamamlandi);
        }
        *gunluk = String::new();
        Ok(())
    }
}

proof fn lemma_atilmis_onek(c: Seq<char>, e: int)
    requires
        0 < e <= c.len(),
        c[e - 1] == '\n',
    ensures
        sondaki_satir_sonlari_atilmis(c.subrange(0, e)) == sondaki_satir_sonlari_atilmis(
            c.subrange(0, e - 1),
        ),
{
    assert(c.subrange(0, e).drop_last() =~= c.subrange(0, e - 1));
}

/// Whether the last non-empty line of `gunluk` is the completion line.
pub fn gunluk_tamamlandi(gunluk: &str) -> (r: bool)
    ensures
        r == tamamlandi(gunluk@),
{
    let c = karakterler(gunluk);
    let t = karakterler("ISLEM TAMAMLANDI");
    let mut e: usize = c.len();
    proof {
        assert(c@.subrange(0, e as int) =~= c@);
    }
    while e > 0 && c[e - 1] == '\n'
        invariant
            0 <= e <= c@.len(),
            sondaki_satir_sonlari_atilmis(c@) == sondaki_satir_sonlari_atilmis(c@.subrange(0, e as int)),
        decreases e,
    {
        proof {
            lemma_atilmis_onek(c@, e as int);
        }
        e -= 1;
    }
    let ghost s = c@.subrange(0, e as int);
    assert(sondaki_satir_sonlari_atilmis(s) == s);
    let n = t.len();
    if e < n {
        return false;
    }
    let mut i: usize = 0;
    while i < n
        invariant
            n == t@.len(),
            t@ == tamamlanma_satiri(),
            n <= e <= c@.len(),
            s == c@.subrange(0, e as int),
            sondaki_satir_sonlari_atilmis(c@) == s,
            c@ == gunluk@,
            0 <= i <= n,
            forall|k: int| 0 <= k < i ==> c@[e - n + k] == t@[k],
        decreases n - i,
    {
        if c[e - n + i] != t[i] {
            assert(s.subrange(s.len() - n, s.len() as int)[i as int] == c@[e - n + i]);
            assert(s.subrange(s.len() - n, s.len() as int)[i as int] != tamamlanma_satiri()[i as int]);
            assert(s.subrange(s.len() - n, s.len() as int) != tamamlanma_satiri());
            assert(!tamamlandi(gunluk@));
            return false;
        }
        i += 1;
    }
    assert(s.subrange(s.len() - n, s.len() as int) =~= tamamlanma_satiri());
    e == n || c[e - n - 1] == '\n'
}

/// No line break occurs in the completion line.
proof fn lemma_tamamlanma_satiri()
    ensures
        forall|j: int| 0 <= j < tamamlanma_satiri().len() ==> tamamlanma_satiri()[j] != '\n',
        tamamlanma_satiri().len() == 16,
        tamamlanma_satiri().last() == 'I',
{
    reveal_strlit("ISLEM TAMAMLANDI");
    assert(tamamlanma_satiri() =~= seq!['I', 'S', 'L', 'E', 'M', ' ', 'T', 'A', 'M', 'A', 'M', 'L', 'A', 'N', 'D', 'I']);
}

/// A journal of whole lines, followed by a step line with text other than the completion
/// line and no line break in it, can be rolled back.
pub proof fn lemma_adimdan_sonra_geri_alinir(s: Seq<char>, adim: Seq<char>)
    requires
        s.len() == 0 || s.last() == '\n',
        adim.len() > 0,
        adim != tamamlanma_satiri(),
        !adim.contains('\n'),
    ensures
        !tamamlandi(s + adim + seq!['\n']),
{
    lemma_tamamlanma_satiri();
    let u = s + adim + seq!['\n'];
    let t = s + adim;
    assert(u.drop_last() =~= t);
    assert(t.last() == adim.last());
    assert(adim.contains(adim.last()));
    assert(sondaki_satir_sonlari_atilmis(t) == t);
    let n = tamamlanma_satiri().len();
    if tamamlandi(u) {
        let suf = t.subrange(t.len() - n, t.len() as int);
        assert(suf == tamamlanma_satiri());
        if adim.len() < n {
            if s.len() > 0 {
                let k = s.len() - 1;
                assert(t[k] == '\n');
                assert(suf[k - (t.len() - n)] == t[k]);
            } else {
                assert(t.len() < n);
            }
        } else if adim.len() == n {
            assert(adim =~= suf);
        } else {
            let k = t.len() - n - 1;
            assert(t[k] == adim[k - s.len()]);
            assert(adim.contains(adim[k - s.len()]));
        }
    }
}

/// A journal of whole lines whose last line is the completion line cannot be rolled back.
pub proof fn lemma_tamamlanan_geri_alinamaz(s: Seq<char>)
    requires
        s.len() == 0 || s.last() == '\n',
    ensures
        tamamlandi(s + tamamlanma_satiri() + seq!['\n']),
{
    lemma_tamamlanma_satiri();
    let u = s + tamamlanma_satiri() + seq!['\n'];
    let t = s + tamamlanma_satiri();
    assert(u.drop_last() =~= t);
    assert(t.last() == 'I');
    assert(sondaki_satir_sonlari_atilmis(t) == t);
    assert(t.subrange(t.len() - tamamlanma_satiri().len(), t.len() as int) =~= tamamlanma_satiri());
    if t.len() > tamamlanma_satiri().len() {
        assert(t[t.len() - tamamlanma_satiri().len() - 1] == s.last());
    }
}

} // verus!
