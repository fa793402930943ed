use paket_yoneticisi::arama::AramaYoneticisi;
use paket_yoneticisi::betik::{betik_komutu, betik_sonucu};
use paket_yoneticisi::depo::{
    get_index_path, DepoYoneticisi, KurulumYoneticisi, LocalRepository, PackageIndex, RemoteRepository,
    Yapilandirma,
};
use paket_yoneticisi::hata::PaketYoneticisiHata;
use paket_yoneticisi::ilerleme::ProgressBar;
use paket_yoneticisi::paket::Paket;

#[test]
fn remote_package_url() {
    let repo = RemoteRepository::new("http://localhost:8080".to_string());
    assert_eq!(
        repo.get_package_url("test_package", "1.0.0"),
        "http://localhost:8080/test_package/1.0.0/test_package"
    );
}

#[test]
fn index_keeps_versions_in_order_with_duplicates() {
    let mut index = PackageIndex::new();
    index.add_package("package_a", "1.0.0");
    index.add_package("package_a", "1.1.0");
    index.add_package("package_b", "2.0.0");
    index.add_package("dup_package", "1.0.0");
    index.add_package("dup_package", "1.0.0");
    assert!(index.has_package("package_a"));
    assert!(!index.has_package("package_c"));
    assert_eq!(index.get_versions("package_a").unwrap(), &vec!["1.0.0".to_string(), "1.1.0".to_string()]);
    assert_eq!(index.get_versions("package_b").unwrap(), &vec!["2.0.0".to_string()]);
    assert_eq!(index.get_versions("dup_package").unwrap(), &vec!["1.0.0".to_string(), "1.0.0".to_string()]);
    assert_eq!(index.paketler().len(), 3);
    assert_eq!(PackageIndex::new().paketler().len(), 0);
    assert_eq!(get_index_path("repo"), "repo/index.json");
}

#[test]
fn package_list_is_kept_after_the_first_fetch() {
    let mut d = DepoYoneticisi::yeni("http://r".to_string(), "/yerel".to_string());
    assert!(!d.onbellekte_var());
    assert!(d.paket_ara("a").is_none());
    let ilk = vec![Paket::yeni("a".to_string(), "1".to_string(), vec![])];
    let l = d.paket_listesini_indir(ilk);
    assert_eq!(l.len(), 1);
    assert!(d.onbellekte_var());
    let l = d.paket_listesini_indir(vec![]);
    assert_eq!(l.len(), 1);
    assert_eq!(d.paket_ara("a").unwrap().surum, "1");
    assert!(d.paket_ara("b").is_none());
}

#[test]
fn installer_and_local_paths() {
    let k = KurulumYoneticisi::yeni("/depo".to_string(), "/kurulum".to_string());
    let mut p = Paket::yeni("a".to_string(), "1".to_string(), vec![]);
    assert_eq!(k.paket_dosyasi_yolu(&p), None);
    p.dosya_adi = Some("a.zip".to_string());
    assert_eq!(k.paket_dosyasi_yolu(&p), Some("/depo/a.zip".to_string()));
    let l = LocalRepository::new("repo".to_string());
    assert_eq!(l.paket_dizini("test_package", "2.0.0"), "repo/test_package/2.0.0");
    let y = Yapilandirma::yeni("u".to_string(), "y".to_string(), "k".to_string(), "o".to_string());
    assert_eq!(y.onbellek_dizini, "o");
}

#[test]
fn search_matches_names_and_descriptions() {
    let mut b = Paket::yeni("beta".to_string(), "1".to_string(), vec![]);
    b.aciklama = Some("archive tool".to_string());
    let paketler = vec![Paket::yeni("alpha".to_string(), "1".to_string(), vec![]), b];
    assert_eq!(AramaYoneticisi::paket_ara(&paketler, "^al").unwrap(), vec![0]);
    assert_eq!(AramaYoneticisi::paket_ara(&paketler, "archive").unwrap(), vec![1]);
    assert_eq!(AramaYoneticisi::paket_ara(&paketler, "a").unwrap(), vec![0, 1]);
    assert!(matches!(
        AramaYoneticisi::paket_ara(&paketler, "("),
        Err(PaketYoneticisiHata::AramaYoneticisiHatasi(_))
    ));
}

#[test]
fn progress_bar_fill_and_percentage() {
    let mut bar = ProgressBar::new(100, 40);
    bar.set_message("Doğrudan Ayarlama Testi");
    bar.set_current(30);
    let c = bar.draw();
    assert_eq!(c.dolu_sayisi, 12);
    assert_eq!(c.bos_sayisi, 28);
    assert_eq!(c.yuzde, Some(30));
    assert_eq!(c.mesaj, "Doğrudan Ayarlama Testi: ");
    bar.update(70);
    assert_eq!(bar.draw().dolu_sayisi, 40);
    assert_eq!(bar.finish(), "\n");

    let mut sifir = ProgressBar::new(0, 30);
    sifir.update(1);
    let c = sifir.draw();
    assert_eq!((c.dolu_sayisi, c.bos_sayisi, c.yuzde), (0, 30, Some(0)));

    let mut ozel = ProgressBar::with_config(200, 30, '=', '.', false, true);
    ozel.update(25);
    let c = ozel.draw();
    assert_eq!((c.dolu_sayisi, c.bos_sayisi, c.yuzde, c.sure_goster), (3, 27, None, true));
    assert_eq!((c.dolu_karakter, c.bos_karakter), ('=', '.'));
    assert_eq!(c.mesaj, "");
}

#[test]
fn script_command_and_outcome() {
    let (p, a) = betik_komutu("kur.sh", false);
    assert_eq!(p, "sh");
    assert_eq!(a, vec!["-c".to_string(), "kur.sh".to_string()]);
    let (p, a) = betik_komutu("kur.bat", true);
    assert_eq!(p, "cmd");
    assert_eq!(a, vec!["/C".to_string(), "kur.bat".to_string()]);
    assert_eq!(betik_sonucu(0, "kur.sh", ""), Ok(()));
    assert_eq!(
        betik_sonucu(2, "kur.sh", "boom"),
        Err(PaketYoneticisiHata::BetikCalistirmaHatasi(
            "Betik hatayla sonlandı. Betik yolu: kur.sh. Hata içeriği: boom".to_string()
        ))
    );
}

#[test]
fn package_list_lines_give_name_and_description() {
    let v = AramaYoneticisi::paketleri_yukle(" a , first tool \nbad line\nx,y,z\n\nb,second\r\n");
    assert_eq!(v.len(), 2);
    assert_eq!(v[0].ad, "a");
    assert_eq!(v[0].aciklama, Some("first tool".to_string()));
    assert_eq!(v[1].ad, "b");
    assert_eq!(v[1].aciklama, Some("second".to_string()));
    assert!(AramaYoneticisi::paketleri_yukle("").is_empty());
}
