use paket_yoneticisi::arsiv::{
    birlestir_yol, girdi_hedefi, guvenli_mi, zip_ac, zip_icerik_listele, CikartmaAdimi, CikartmaHedefi,
};
use paket_yoneticisi::hata::PaketYoneticisiHata;
use std::io::Write;

fn arsiv(girdiler: &[(&str, &[u8])]) -> Vec<u8> {
    let mut w = zip::ZipWriter::new(std::io::Cursor::new(Vec::new()));
    for (ad, veri) in girdiler {
        if ad.ends_with('/') {
            w.add_directory(*ad, zip::write::FileOptions::default()).unwrap();
        } else {
            w.start_file(*ad, zip::write::FileOptions::default()).unwrap();
            w.write_all(veri).unwrap();
        }
    }
    w.finish().unwrap().into_inner()
}

#[test]
fn entry_climbing_out_of_the_target_is_refused() {
    let b = arsiv(&[("ok.txt", b"fine"), ("../evil.txt", b"bad")]);
    let r = zip_ac(&b, "/tmp/hedef");
    assert_eq!(r, Err(PaketYoneticisiHata::GecersizCikartmaYolu("../evil.txt".to_string())));
}

#[test]
fn archive_turns_into_directory_and_file_steps() {
    let b = arsiv(&[("dir/", b""), ("dir/a.txt", b"hello")]);
    let r = zip_ac(&b, "/tmp/hedef").unwrap();
    assert_eq!(
        r,
        vec![
            CikartmaAdimi::DizinOlustur("/tmp/hedef/dir/".to_string()),
            CikartmaAdimi::DosyaYaz("/tmp/hedef/dir/a.txt".to_string(), b"hello".to_vec()),
        ]
    );
    assert_eq!(zip_icerik_listele(&b).unwrap(), vec!["dir/".to_string(), "dir/a.txt".to_string()]);
}

#[test]
fn bytes_that_are_no_archive_fail_as_zip_errors() {
    assert!(matches!(zip_ac(b"no archive", "/tmp/x"), Err(PaketYoneticisiHata::ZipHatasi(_))));
    assert!(matches!(zip_icerik_listele(b"no archive"), Err(PaketYoneticisiHata::ZipHatasi(_))));
}

#[test]
fn entry_names_are_checked_by_depth() {
    assert!(guvenli_mi("a/b/c.txt"));
    assert!(guvenli_mi("a/../b"));
    assert!(guvenli_mi("./x"));
    assert!(guvenli_mi("a//b/"));
    assert!(!guvenli_mi("../evil.txt"));
    assert!(!guvenli_mi("a/../../b"));
    assert!(!guvenli_mi("/etc/passwd"));
    assert!(!guvenli_mi(".."));
}

#[test]
fn destinations_join_the_target_directory() {
    assert_eq!(birlestir_yol("/t", "a"), "/t/a");
    assert_eq!(birlestir_yol("/t/", "a"), "/t/a");
    assert_eq!(birlestir_yol("", "a"), "a");
    assert_eq!(girdi_hedefi("/t", "d/"), Ok(CikartmaHedefi::Dizin("/t/d/".to_string())));
    assert_eq!(girdi_hedefi("/t", "d/f"), Ok(CikartmaHedefi::Dosya("/t/d/f".to_string())));
    assert_eq!(
        girdi_hedefi("/t", "../f"),
        Err(PaketYoneticisiHata::GecersizCikartmaYolu("../f".to_string()))
    );
}
