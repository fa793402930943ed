//! The error kinds of the package manager core.
use vstd::prelude::*;

verus! {

/// What can go wrong in the core operations.
#[derive(Debug, Clone, PartialEq, Eq)]
pub enum PaketYoneticisiHata {
    /// A requested package is not among the known packages.
    PaketBulunamadi(String),
    /// A dependency names a package that is not known.
    BagimlilikBulunamadi(String),
    /// Two versions of one package are required together.
    PaketCakismaHatasi(String),
    /// A file could not be read or written.
    DosyaSistemiHatasi(String),
    /// Computing a checksum failed.
    ChecksumHatasi(String),
    /// Rollback was refused because the journal records a completed operation.
    IslemZatenTamamlandi,
    /// The advisory lock is held by another holder.
    KilitTutuluyor,
    /// The lock file could not be handled.
    KilitYoneticisiHatasi(String),
    /// An archive entry would land outside the target directory.
    GecersizCikartmaYolu(String),
    /// The archive could not be read.
    ZipHatasi(String),
    /// The content cache failed.
    OnbellekHatasi(String),
    /// The search pattern is not a valid regular expression.
    AramaYoneticisiHatasi(String),
    /// Running an install script failed.
    BetikCalistirmaHatasi(String),
}

} // verus!
