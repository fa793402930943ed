//! The cross-process advisory lock, as decisions over the lock's state. The caller opens the
//! lock file and tries the non-blocking exclusive lock, hands the outcome in, and unlocks when
//! told to; there is no waiting and no retry.
use vstd::prelude::*;
use crate::hata::PaketYoneticisiHata;

verus! {

/// What a non-blocking attempt at the exclusive lock gave.
#[derive(Debug, Clone, PartialEq, Eq)]
pub enum KilitDenemesi {
    /// The lock is now held.
    Alindi,
    /// Another holder has it.
    Mesgul,
    /// The attempt failed for another reason.
    Hata(String),
}

/// What releasing asks of the caller.
#[derive(Debug, Clone, Copy, PartialEq, Eq)]
pub enum Birakma {
    /// Unlock the file.
    KilidiAc,
    /// Nothing was held: nothing to do but note it.
    ZatenSerbest,
}

/// The state of the lock on one file.
pub struct KilitYoneticisi {
    kilit_dosyasi_yolu: String,
    kilit_tutuldu: bool,
}

impl KilitYoneticisi {
    /// The path of the lock file.
    pub closed spec fn yol(&self) -> Seq<char> {
        self.kilit_dosyasi_yolu@
    }

    /// Whether this holder has the lock.
    pub closed spec fn tutuluyor(&self) -> bool {
        self.kilit_tutuldu
    }

    /// A manager for the lock file at `kilit_dosyasi_yolu`, not holding the lock.
    pub fn yeni(kilit_dosyasi_yolu: &str) -> (r: KilitYoneticisi)
        ensures
            r.yol() == kilit_dosyasi_yolu@,
            !r.tutuluyor(),
    {
        KilitYoneticisi { kilit_dosyasi_yolu: kilit_dosyasi_yolu.to_owned(), kilit_tutuldu: false }
    }

    pub fn kilit_dosyasi_yolu(&self) -> (r: &String)
        ensures
            r@ == self.yol(),
    {
        &self.kilit_dosyasi_yolu
    }

    pub fn kilit_tutuluyor_mu(&self) -> (r: bool)
        ensures
            r == self.tutuluyor(),
    {
        self.kilit_tutuldu
    }

    /// Takes in the outcome of one attempt at the lock: held on success, `KilitTutuluyor` at
    /// once when another holder has it.
    pub fn kilit_al(&mut self, deneme: KilitDenemesi) -> (r: Result<(), PaketYoneticisiHata>)
        ensures
            final(self).yol() == old(self).yol(),
            (deneme is Alindi) <==> r is Ok,
            r is Ok ==> final(self).tutuluyor(),
            r is Err ==> final(self).tutuluyor() == old(self).tutuluyor(),
            (deneme is Mesgul) <==> r == Err::<(), PaketYoneticisiHata>(PaketYoneticisiHata::KilitTutuluyor),
            deneme matches KilitDenemesi::Hata(m) ==> r matches Err(PaketYoneticisiHata::KilitYoneticisiHatasi(m2))
                && m2@ == m@,
    {
        match deneme {
            KilitDenemesi::Alindi => {
                self.kilit_tutuldu = true;
                Ok(())
            },
            KilitDenemesi::Mesgul => Err(PaketYoneticisiHata::KilitTutuluyor),
            KilitDenemesi::Hata(m) => Err(PaketYoneticisiHata::KilitYoneticisiHatasi(m)),
        }
    }

    /// Releases the lock: the file is to be unlocked when it was held; calling it again, or
    /// without holding the lock, asks for nothing.
    pub fn kilidi_serbest_birak(&mut self) -> (r: Birakma)
        ensures
            final(self).yol() == old(self).yol(),
            !final(self).tutuluyor(),
            r == (if old(self).tutuluyor() { Birakma::KilidiAc } else { Birakma::ZatenSerbest }),
    {
        if self.kilit_tutuldu {
            self.kilit_tutuldu = false;
            Birakma::KilidiAc
        } else {
            Birakma::ZatenSerbest
        }
    }
}

} // verus!
