use fs2::FileExt;
use paket_yoneticisi::hata::PaketYoneticisiHata;
use paket_yoneticisi::kilit::{Birakma, KilitDenemesi, KilitYoneticisi};
use std::time::{Duration, Instant};

fn dene<F: FileExt>(f: &F) -> KilitDenemesi {
    match f.try_lock_exclusive() {
        Ok(()) => KilitDenemesi::Alindi,
        Err(e) if e.kind() == fs2::lock_contended_error().kind() => KilitDenemesi::Mesgul,
        Err(e) => KilitDenemesi::Hata(e.to_string()),
    }
}

#[test]
fn lock_held_elsewhere_is_refused_at_once() {
    let dosya = tempfile::NamedTempFile::new().unwrap();
    let yol = dosya.path().to_path_buf();
    let birinci = dosya.reopen().unwrap();
    let ikinci = dosya.reopen().unwrap();

    let mut sahip = KilitYoneticisi::yeni(yol.to_str().unwrap());
    assert_eq!(sahip.kilit_al(dene(&birinci)), Ok(()));
    assert!(sahip.kilit_tutuluyor_mu());

    let mut diger = KilitYoneticisi::yeni(yol.to_str().unwrap());
    let basla = Instant::now();
    let r = diger.kilit_al(dene(&ikinci));
    assert!(basla.elapsed() < Duration::from_secs(1));
    assert_eq!(r, Err(PaketYoneticisiHata::KilitTutuluyor));
    assert!(!diger.kilit_tutuluyor_mu());

    assert_eq!(sahip.kilidi_serbest_birak(), Birakma::KilidiAc);
    birinci.unlock().unwrap();
    assert_eq!(sahip.kilidi_serbest_birak(), Birakma::ZatenSerbest);
    assert_eq!(diger.kilit_al(dene(&ikinci)), Ok(()));
}

#[test]
fn other_lock_failures_keep_their_message() {
    let mut k = KilitYoneticisi::yeni("/x/kilit");
    assert_eq!(
        k.kilit_al(KilitDenemesi::Hata("izin yok".to_string())),
        Err(PaketYoneticisiHata::KilitYoneticisiHatasi("izin yok".to_string()))
    );
    assert_eq!(k.kilit_dosyasi_yolu(), "/x/kilit");
    assert_eq!(k.kilidi_serbest_birak(), Birakma::ZatenSerbest);
}
