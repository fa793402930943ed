use paket_yoneticisi::butunluk::{
    dogrula_md5, hesapla_md5, sign_package, verify_package, SecurityError, SecurityManager,
};

#[test]
fn md5_of_known_content() {
    assert_eq!(hesapla_md5(b"abc"), "900150983cd24fb0d6963f7d28e17f72");
    assert_eq!(hesapla_md5(b""), "d41d8cd98f00b204e9800998ecf8427e");
    let r = hesapla_md5(b"Test package content");
    assert_eq!(r.len(), 32);
    assert!(r.chars().all(|c| c.is_ascii_hexdigit() && !c.is_ascii_uppercase()));
}

#[test]
fn checksum_verifies_and_one_changed_byte_does_not() {
    let icerik = b"Test package content".to_vec();
    let ozet = hesapla_md5(&icerik);
    assert!(dogrula_md5(&icerik, &ozet));
    let mut bozuk = icerik.clone();
    bozuk[3] ^= 1;
    assert!(!dogrula_md5(&bozuk, &ozet));
}

#[test]
fn test_sign_and_verify() {
    let package_content = b"Test package content";
    let signature = sign_package(package_content);
    let is_valid = verify_package(package_content, &signature);
    assert!(is_valid);

    let is_invalid = verify_package(package_content, "invalid_signature");
    assert!(!is_invalid);
}

#[test]
fn signature_is_the_sha256_hex_digest() {
    assert_eq!(sign_package(b"abc"), "ba7816bf8f01cfea414140de5dae2223b00361a396177a9cb410ff61f20015ad");
    assert!(!verify_package(b"abc", "not-hex-or-wrong"));
}

#[test]
fn signature_check_decodes_hex_and_compares_digests() {
    let m = SecurityManager::new();
    let icerik = b"abc";
    let imza = sign_package(icerik);
    assert!(matches!(m.verify_signature(icerik, &imza), Ok(true)));
    assert!(matches!(m.verify_signature(icerik, &imza.to_uppercase()), Ok(true)));
    assert!(matches!(m.verify_signature(icerik, "not-hex-or-wrong"), Err(SecurityError::HexDecodeError(_))));
    assert!(matches!(m.verify_signature(icerik, "abc"), Err(SecurityError::HexDecodeError(_))));
    let baska = sign_package(b"abd");
    assert!(matches!(m.verify_signature(icerik, &baska), Err(SecurityError::SignatureVerificationFailed)));
}

#[test]
fn vulnerability_report_is_the_sample_list() {
    let m = SecurityManager::new();
    let r = m.scan_for_vulnerabilities("paket.zip").unwrap();
    assert_eq!(r, vec!["CVE-2023-1234".to_string(), "CVE-2023-5678".to_string()]);
}
