use paket_yoneticisi::guven::{kimlikleri_oku, TrustManager};

#[test]
fn trusted_package_survives_reload_and_removal_is_persisted() {
    let mut t = TrustManager::new();
    assert!(t.add_trusted_package("p"));
    let mut dosya = String::new();
    dosya.push_str(&t.persist_trusted_package("p"));

    let mut yeniden = TrustManager::new();
    yeniden.load_trusted_data("", &dosya);
    assert!(yeniden.is_trusted_package("p"));

    assert!(yeniden.remove_trusted_package("p"));
    let yazilan = yeniden.persist_trusted_packages();
    let mut son = TrustManager::new();
    son.load_trusted_data("", &yazilan);
    assert!(!son.is_trusted_package("p"));
}

#[test]
fn publishers_and_packages_are_independent() {
    let mut t = TrustManager::new();
    assert!(t.add_trusted_publisher("acme"));
    assert!(!t.add_trusted_publisher("acme"));
    assert!(t.is_trusted_publisher("acme"));
    assert!(!t.is_trusted_package("acme"));
    assert_eq!(t.persist_trusted_publisher("acme"), "acme\n");
    assert!(!t.remove_trusted_package("acme"));
    assert!(t.remove_trusted_publisher("acme"));
    assert!(!t.remove_trusted_publisher("acme"));
    assert_eq!(t.persist_trusted_publishers(), "");
}

#[test]
fn list_lines_are_trimmed_and_blank_lines_skipped() {
    let v = kimlikleri_oku("  a  \n\n b\r\n\t\nc");
    assert_eq!(v, vec!["a".to_string(), "b".to_string(), "c".to_string()]);
    let mut t = TrustManager::new();
    t.load_trusted_publishers("x\ny\nx\n");
    assert_eq!(t.persist_trusted_publishers(), "x\ny\n");
}

#[test]
fn white_space_test_agrees_with_the_unicode_property() {
    for kod in 0u32..0x3100 {
        if let Some(c) = char::from_u32(kod) {
            assert_eq!(paket_yoneticisi::guven::bosluk_mu(c), c.is_whitespace(), "{:?}", c);
        }
    }
    assert!(!paket_yoneticisi::guven::bosluk_mu('p'));
}
