//! The package record.
use vstd::prelude::*;
use crate::metin::gorunumler;

verus! {

/// A named, versioned unit with the names of the packages it depends on.
#[derive(Debug, Clone)]
pub struct Paket {
    pub ad: String,
    pub surum: String,
    pub bagimliliklar: Vec<String>,
    pub aciklama: Option<String>,
    pub dosya_adi: Option<String>,
}

impl Paket {
    /// A package with no description and no artifact file.
    pub fn yeni(ad: String, surum: String, bagimliliklar: Vec<String>) -> (r: Paket)
        ensures
            r.ad@ == ad@,
            r.surum@ == surum@,
            r.bagimliliklar@ == bagimliliklar@,
            r.aciklama is None,
            r.dosya_adi is None,
    {
        Paket { ad, surum, bagimliliklar, aciklama: None, dosya_adi: None }
    }
}


/// A package as plain values: name, version, dependency names, description, artifact file.
pub open spec fn paket_gorunumu(p: Paket) -> (
    Seq<char>,
    Seq<char>,
    Seq<Seq<char>>,
    Option<Seq<char>>,
    Option<Seq<char>>,
) {
    (
        p.ad@,
        p.surum@,
        gorunumler(p.bagimliliklar@),
        match p.aciklama {
            Some(a) => Some(a@),
            None => None,
        },
        match p.dosya_adi {
            Some(d) => Some(d@),
            None => None,
        },
    )
}

/// Copies a list of strings.
pub fn metinleri_kopyala(v: &Vec<String>) -> (r: Vec<String>)
    ensures
        gorunumler(r@) == gorunumler(v@),
{
    let mut r: Vec<String> = Vec::new();
    let mut i: usize = 0;
    while i < v.len()
        invariant
            0 <= i <= v@.len(),
            gorunumler(r@) == gorunumler(v@).subrange(0, i as int),
        decreases v.len() - i,
    {
        let ghost once = gorunumler(r@);
        r.push(v[i].clone());
        i += 1;
        proof {
            assert(gorunumler(r@) =~= once.push(v@[i - 1]@));
            assert(gorunumler(r@) =~= gorunumler(v@).subrange(0, i as int));
        }
    }
    assert(gorunumler(v@).subrange(0, i as int) =~= gorunumler(v@));
    r
}

fn secenek_kopyala(o: &Option<String>) -> (r: Option<String>)
    ensures
        match (r, *o) {
            (Some(a), Some(b)) => a@ == b@,
            (None, None) => true,
            _ => false,
        },
{
    match o {
        Some(s) => Some(s.clone()),
        None => None,
    }
}

impl Paket {
    /// A copy with the same fields.
    pub fn kopya(&self) -> (r: Paket)
        ensures
            paket_gorunumu(r) == paket_gorunumu(*self),
    {
        Paket {
            ad: self.ad.clone(),
            surum: self.surum.clone(),
            bagimliliklar: metinleri_kopyala(&self.bagimliliklar),
            aciklama: secenek_kopyala(&self.aciklama),
            dosya_adi: secenek_kopyala(&self.dosya_adi),
        }
    }
}

/// Copies a list of packages.
pub fn paketleri_kopyala(v: &Vec<Paket>) -> (r: Vec<Paket>)
    ensures
        r@.len() == v@.len(),
        forall|i: int| 0 <= i < v@.len() ==> paket_gorunumu(#[trigger] r@[i]) == paket_gorunumu(v@[i]),
{
    let mut r: Vec<Paket> = Vec::new();
    let mut i: usize = 0;
    while i < v.len()
        invariant
            0 <= i <= v@.len(),
            r@.len() == i,
            forall|k: int| 0 <= k < i ==> paket_gorunumu(#[trigger] r@[k]) == paket_gorunumu(v@[k]),
        decreases v.len() - i,
    {
        r.push(v[i].kopya());
        i += 1;
    }
    r
}

} // verus!
