use paket_yoneticisi::bayrak::FeatureFlags;
use paket_yoneticisi::ozellikler::{
    ozellik_ayristir, ozellik_bul, CompressionAlgorithm, Feature, FeatureSet, LoggingFramework,
    NetworkProtocol, SecurityFeature,
};
use std::str::FromStr;

#[test]
fn test_from_str() {
    assert_eq!(Feature::from_str("gzip").unwrap(), Feature::Compression(CompressionAlgorithm::Gzip));
    assert_eq!(Feature::from_str("Bzip2").unwrap(), Feature::Compression(CompressionAlgorithm::Bzip2));
    assert_eq!(Feature::from_str("lz4").unwrap(), Feature::Compression(CompressionAlgorithm::Lz4));
    assert_eq!(Feature::from_str("HTTP").unwrap(), Feature::Network(NetworkProtocol::Http));
    assert_eq!(Feature::from_str("https").unwrap(), Feature::Network(NetworkProtocol::Https));
    assert_eq!(Feature::from_str("websocket").unwrap(), Feature::Network(NetworkProtocol::Websocket));
    assert_eq!(
        Feature::from_str("signature_verification").unwrap(),
        Feature::Security(SecurityFeature::SignatureVerification)
    );
    assert_eq!(Feature::from_str("sandbox").unwrap(), Feature::Security(SecurityFeature::Sandbox));
    assert_eq!(Feature::from_str("firewall").unwrap(), Feature::Security(SecurityFeature::Firewall));
    assert_eq!(Feature::from_str("file_logging").unwrap(), Feature::Logging(LoggingFramework::File));
    assert_eq!(Feature::from_str("console_logging").unwrap(), Feature::Logging(LoggingFramework::Console));

    assert!(Feature::from_str("unknown_feature").is_err());
}

#[test]
fn test_feature_set() {
    let mut feature_set = FeatureSet::new();

    let gzip_feature = Feature::Compression(CompressionAlgorithm::Gzip);
    let https_feature = Feature::Network(NetworkProtocol::Https);

    feature_set.enable(gzip_feature);
    feature_set.enable(https_feature);

    assert!(feature_set.is_enabled(&gzip_feature));
    assert!(feature_set.is_enabled(&https_feature));

    feature_set.disable(gzip_feature);
    assert!(!feature_set.is_enabled(&gzip_feature));
    assert!(feature_set.is_enabled(&https_feature));

    let enabled_features = feature_set.enabled_features();
    assert_eq!(enabled_features.len(), 1);
    assert!(enabled_features.contains(&https_feature));
}

#[test]
fn test_from_strs() {
    let features_str = &["gzip", "https", "sandbox", "file_logging"];
    let feature_set = FeatureSet::from_strs(features_str).unwrap();

    assert!(feature_set.is_enabled(&Feature::Compression(CompressionAlgorithm::Gzip)));
    assert!(feature_set.is_enabled(&Feature::Network(NetworkProtocol::Https)));
    assert!(feature_set.is_enabled(&Feature::Security(SecurityFeature::Sandbox)));
    assert!(feature_set.is_enabled(&Feature::Logging(LoggingFramework::File)));
}

#[test]
fn unknown_feature_message_names_the_input() {
    let r = ozellik_ayristir("Quantum");
    assert_eq!(r, Err("Bilinmeyen özellik: Quantum".to_string()));
}

#[test]
fn lookup_takes_lowercase_names_only() {
    assert_eq!(ozellik_bul("event_tracing"), Some(Feature::Logging(LoggingFramework::EventTracing)));
    assert_eq!(ozellik_bul("GZIP"), None);
    assert_eq!(ozellik_ayristir("GZIP"), Ok(Feature::Compression(CompressionAlgorithm::Gzip)));
}

#[test]
fn from_strs_stops_at_first_unknown_name() {
    let r = FeatureSet::from_strs(&["gzip", "nope", "also_nope"]);
    assert_eq!(r.err(), Some("Bilinmeyen özellik: nope".to_string()));
}

#[test]
fn enabling_twice_keeps_one_entry() {
    let mut s = FeatureSet::new();
    s.enable(Feature::Network(NetworkProtocol::Tcp));
    s.enable(Feature::Network(NetworkProtocol::Tcp));
    assert_eq!(s.enabled_features().len(), 1);
    s.disable(Feature::Network(NetworkProtocol::Udp));
    assert_eq!(s.enabled_features().len(), 1);
}

#[test]
fn feature_flag_values() {
    assert!(FeatureFlags::get_feature_flag(Some("TRUE"), false));
    assert!(FeatureFlags::get_feature_flag(Some("1"), false));
    assert!(FeatureFlags::get_feature_flag(Some("yes"), false));
    assert!(!FeatureFlags::get_feature_flag(Some("No"), true));
    assert!(!FeatureFlags::get_feature_flag(Some(""), true));
    assert!(FeatureFlags::get_feature_flag(Some("maybe"), true));
    assert!(!FeatureFlags::get_feature_flag(None, false));
    let f = FeatureFlags::new(Some("on"), Some("true"), None);
    assert!(!f.compression);
    assert!(f.network);
    assert!(!f.security);
}
