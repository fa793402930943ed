use paket_yoneticisi::hata::PaketYoneticisiHata;
use paket_yoneticisi::islem::{gunluk_tamamlandi, IslemYoneticisi};

#[test]
fn rollback_of_an_open_transaction_clears_the_journal() {
    let m = IslemYoneticisi::yeni("islem.log");
    let mut gunluk = String::new();
    m.baslat_islem(&mut gunluk);
    m.islem_adimi(&mut gunluk, "x");
    assert_eq!(gunluk, "ISLEM BASLADI\nx\n");
    assert_eq!(m.geri_al_islem(&mut gunluk), Ok(()));
    assert_eq!(gunluk, "");
}

#[test]
fn rollback_of_a_completed_transaction_is_refused() {
    let m = IslemYoneticisi::yeni("islem.log");
    let mut gunluk = String::new();
    m.baslat_islem(&mut gunluk);
    m.islem_adimi(&mut gunluk, "x");
    m.tamamla_islem(&mut gunluk);
    let once = gunluk.clone();
    assert_eq!(m.geri_al_islem(&mut gunluk), Err(PaketYoneticisiHata::IslemZatenTamamlandi));
    assert_eq!(gunluk, once);
    assert_eq!(m.gunluk_yolu(), "islem.log");
}

#[test]
fn completion_is_read_from_the_last_non_empty_line() {
    assert!(gunluk_tamamlandi("ISLEM BASLADI\nISLEM TAMAMLANDI\n\n\n"));
    assert!(gunluk_tamamlandi("ISLEM TAMAMLANDI"));
    assert!(!gunluk_tamamlandi("ISLEM TAMAMLANDI\nsonra\n"));
    assert!(!gunluk_tamamlandi("xISLEM TAMAMLANDI\n"));
    assert!(!gunluk_tamamlandi(""));
}
