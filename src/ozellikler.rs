//! Optional capabilities, named by text and collected in a set.
use vstd::prelude::*;
use vstd::string::*;
use crate::metin::{esit, tekrarsiz};

verus! {

#[derive(Debug, PartialEq, Eq, Hash, Clone, Copy, Structural)]
pub enum Feature {
    Compression(CompressionAlgorithm),
    Network(NetworkProtocol),
    Security(SecurityFeature),
    Logging(LoggingFramework),
}

#[derive(Debug, PartialEq, Eq, Hash, Clone, Copy, Structural)]
pub enum CompressionAlgorithm {
    Gzip,
    Bzip2,
    Zstd,
    Lz4,
    Brotli,
}

#[derive(Debug, PartialEq, Eq, Hash, Clone, Copy, Structural)]
pub enum NetworkProtocol {
    Http,
    Https,
    Ftp,
    Tcp,
    Udp,
    Websocket,
    Smtp,
    Pop3,
    Imap,
}

#[derive(Debug, PartialEq, Eq, Hash, Clone, Copy, Structural)]
pub enum SecurityFeature {
    SignatureVerification,
    Sandbox,
    Firewall,
    Encryption,
    Authorization,
    Authentication,
    DataMasking,
    RateLimiting,
}

#[derive(Debug, PartialEq, Eq, Hash, Clone, Copy, Structural)]
pub enum LoggingFramework {
    File,
    Console,
    Database,
    Remote,
    Syslog,
    EventTracing,
}

/// The feature that a lower-case name stands for.
pub open spec fn ozellik_tablosu(s: Seq<char>) -> Option<Feature> {
    if s == "gzip"@ {
        Some(Feature::Compression(CompressionAlgorithm::Gzip))
    } else if s == "bzip2"@ {
        Some(Feature::Compression(CompressionAlgorithm::Bzip2))
    } else if s == "zstd"@ {
        Some(Feature::Compression(CompressionAlgorithm::Zstd))
    } else if s == "lz4"@ {
        Some(Feature::Compression(CompressionAlgorithm::Lz4))
    } else if s == "brotli"@ {
        Some(Feature::Compression(CompressionAlgorithm::Brotli))
    } else if s == "http"@ {
        Some(Feature::Network(NetworkProtocol::Http))
    } else if s == "https"@ {
        Some(Feature::Network(NetworkProtocol::Https))
    } else if s == "ftp"@ {
        Some(Feature::Network(NetworkProtocol::Ftp))
    } else if s == "tcp"@ {
        Some(Feature::Network(NetworkProtocol::Tcp))
    } else if s == "udp"@ {
        Some(Feature::Network(NetworkProtocol::Udp))
    } else if s == "websocket"@ {
        Some(Feature::Network(NetworkProtocol::Websocket))
    } else if s == "smtp"@ {
        Some(Feature::Network(NetworkProtocol::Smtp))
    } else if s == "pop3"@ {
        Some(Feature::Network(NetworkProtocol::Pop3))
    } else if s == "imap"@ {
        Some(Feature::Network(NetworkProtocol::Imap))
    } else if s == "signature_verification"@ {
        Some(Feature::Security(SecurityFeature::SignatureVerification))
    } else if s == "sandbox"@ {
        Some(Feature::Security(SecurityFeature::Sandbox))
    } else if s == "firewall"@ {
        Some(Feature::Security(SecurityFeature::Firewall))
    } else if s == "encryption"@ {
        Some(Feature::Security(SecurityFeature::Encryption))
    } else if s == "authorization"@ {
        Some(Feature::Security(SecurityFeature::Authorization))
    } else if s == "authentication"@ {
        Some(Feature::Security(SecurityFeature::Authentication))
    } else if s == "data_masking"@ {
        Some(Feature::Security(SecurityFeature::DataMasking))
    } else if s == "rate_limiting"@ {
        Some(Feature::Security(SecurityFeature::RateLimiting))
    } else if s == "file_logging"@ {
        Some(Feature::Logging(LoggingFramework::File))
    } else if s == "console_logging"@ {
        Some(Feature::Logging(LoggingFramework::Console))
    } else if s == "database_logging"@ {
        Some(Feature::Logging(LoggingFramework::Database))
    } else if s == "remote_logging"@ {
        Some(Feature::Logging(LoggingFramework::Remote))
    } else if s == "syslog_logging"@ {
        Some(Feature::Logging(LoggingFramework::Syslog))
    } else if s == "event_tracing"@ {
        Some(Feature::Logging(LoggingFramework::EventTracing))
    } else {
        None
    }
}

/// The lower-case form of the text.
pub uninterp spec fn kucuk_harf(s: Seq<char>) -> Seq<char>;

/// Relies on `str::to_lowercase`: the result depends on the characters alone.
#[verifier::external_body]
pub(crate) fn kucuk_harfe(s: &str) -> (r: String)
    ensures
        r@ == kucuk_harf(s@),
{
    s.to_lowercase()
}

/// The feature named by an already lower-cased name.
pub fn ozellik_bul(kucuk_harfli: &str) -> (r: Option<Feature>)
    ensures
        r == ozellik_tablosu(kucuk_harfli@),
{
    let k = String::from_str(kucuk_harfli);
    if esit(&k, "gzip") {
        return Some(Feature::Compression(CompressionAlgorithm::Gzip));
    }
    if esit(&k, "bzip2") {
        return Some(Feature::Compression(CompressionAlgorithm::Bzip2));
    }
    if esit(&k, "zstd") {
        return Some(Feature::Compression(CompressionAlgorithm::Zstd));
    }
    if esit(&k, "lz4") {
        return Some(Feature::Compression(CompressionAlgorithm::Lz4));
    }
    if esit(&k, "brotli") {
        return Some(Feature::Compression(CompressionAlgorithm::Brotli));
    }
    if esit(&k, "http") {
        return Some(Feature::Network(NetworkProtocol::Http));
    }
    if esit(&k, "https") {
        return Some(Feature::Network(NetworkProtocol::Https));
    }
    if esit(&k, "ftp") {
        return Some(Feature::Network(NetworkProtocol::Ftp));
    }
    if esit(&k, "tcp") {
        return Some(Feature::Network(NetworkProtocol::Tcp));
    }
    if esit(&k, "udp") {
        return Some(Feature::Network(NetworkProtocol::Udp));
    }
    if esit(&k, "websocket") {
        return Some(Feature::Network(NetworkProtocol::Websocket));
    }
    if esit(&k, "smtp") {
        return Some(Feature::Network(NetworkProtocol::Smtp));
    }
    if esit(&k, "pop3") {
        return Some(Feature::Network(NetworkProtocol::Pop3));
    }
    if esit(&k, "imap") {
        return Some(Feature::Network(NetworkProtocol::Imap));
    }
    if esit(&k, "signature_verification") {
        return Some(Feature::Security(SecurityFeature::SignatureVerification));
    }
    if esit(&k, "sandbox") {
        return Some(Feature::Security(SecurityFeature::Sandbox));
    }
    if esit(&k, "firewall") {
        return Some(Feature::Security(SecurityFeature::Firewall));
    }
    if esit(&k, "encryption") {
        return Some(Feature::Security(SecurityFeature::Encryption));
    }
    if esit(&k, "authorization") {
        return Some(Feature::Security(SecurityFeature::Authorization));
    }
    if esit(&k, "authentication") {
        return Some(Feature::Security(SecurityFeature::Authentication));
    }
    if esit(&k, "data_masking") {
        return Some(Feature::Security(SecurityFeature::DataMasking));
    }
    if esit(&k, "rate_limiting") {
        return Some(Feature::Security(SecurityFeature::RateLimiting));
    }
    if esit(&k, "file_logging") {
        return Some(Feature::Logging(LoggingFramework::File));
    }
    if esit(&k, "console_logging") {
        return Some(Feature::Logging(LoggingFramework::Console));
    }
    if esit(&k, "database_logging") {
        return Some(Feature::Logging(LoggingFramework::Database));
    }
    if esit(&k, "remote_logging") {
        return Some(Feature::Logging(LoggingFramework::Remote));
    }
    if esit(&k, "syslog_logging") {
        return Some(Feature::Logging(LoggingFramework::Syslog));
    }
    if esit(&k, "event_tracing") {
        return Some(Feature::Logging(LoggingFramework::EventTracing));
    }
    None
}

/// The message for an unknown feature name.
pub open spec fn bilinmeyen_mesaji(s: Seq<char>) -> Seq<char> {
    "Bilinmeyen özellik: "@ + s
}

/// The feature named by `s`, whatever its letter case.
pub fn ozellik_ayristir(s: &str) -> (r: Result<Feature, String>)
    ensures
        ozellik_tablosu(kucuk_harf(s@)) matches Some(f) ==> r == Ok::<Feature, String>(f),
        ozellik_tablosu(kucuk_harf(s@)) is None ==> (r matches Err(m) && m@ == bilinmeyen_mesaji(s@)),
{
    let k = kucuk_harfe(s);
    match ozellik_bul(k.as_str()) {
        Some(f) => Ok(f),
        None => {
            let m = String::from_str("Bilinmeyen özellik: ");
            Err(m.concat(s))
        },
    }
}

impl std::str::FromStr for Feature {
    type Err = String;

    fn from_str(s: &str) -> Result<Self, Self::Err> {
        ozellik_ayristir(s)
    }
}


/// A set of enabled features.
pub struct FeatureSet {
    features: Vec<Feature>,
}

impl FeatureSet {
    /// The enabled features, in the order in which they were first enabled.
    pub closed spec fn etkin(&self) -> Seq<Feature> {
        self.features@
    }

    /// No feature is listed twice.
    pub open spec fn wf(&self) -> bool {
        tekrarsiz(self.etkin())
    }

    /// No feature enabled.
    pub fn new() -> (r: FeatureSet)
        ensures
            r.wf(),
            r.etkin().len() == 0,
    {
        FeatureSet { features: Vec::new() }
    }

    pub fn enable(&mut self, feature: Feature)
        requires
            old(self).wf(),
        ensures
            final(self).wf(),
            forall|f: Feature| final(self).etkin().contains(f) <==> (old(self).etkin().contains(f) || f == feature),
    {
        if self.is_enabled(&feature) {
            return;
        }
        let ghost eski = self.features@;
        self.features.push(feature);
        proof {
            let y = self.features@;
            assert(y =~= eski.push(feature));
            assert forall|f: Feature| y.contains(f) <==> (eski.contains(f) || f == feature) by {
                if eski.contains(f) {
                    let t = choose|t: int| 0 <= t < eski.len() && eski[t] == f;
                    assert(y[t] == f);
                }
                if f == feature {
                    assert(y[eski.len() as int] == f);
                }
                if y.contains(f) {
                    let t = choose|t: int| 0 <= t < y.len() && y[t] == f;
                    if t < eski.len() {
                        assert(eski[t] == f);
                    }
                }
            }
            assert forall|i: int, j: int| 0 <= i < j < y.len() implies y[i] != y[j] by {
                if j == eski.len() {
                    assert(y[i] == eski[i]);
                    assert(eski.contains(eski[i]));
                } else {
                    assert(y[i] == eski[i] && y[j] == eski[j]);
                }
            }
        }
    }

    pub fn disable(&mut self, feature: Feature)
        requires
            old(self).wf(),
        ensures
            final(self).wf(),
            forall|f: Feature| final(self).etkin().contains(f) <==> (old(self).etkin().contains(f) && f != feature),
    {
        let ghost eski = self.features@;
        let mut i: usize = 0;
        while i < self.features.len()
            invariant
                self.features@ == eski,
                eski == old(self).etkin(),
                tekrarsiz(eski),
                0 <= i <= eski.len(),
                forall|k: int| 0 <= k < i ==> eski[k] != feature,
            decreases self.features.len() - i,
        {
            if self.features[i] == feature {
                self.features.remove(i);
                proof {
                    let y = self.features@;
                    assert(y =~= eski.remove(i as int));
                    assert forall|f: Feature| y.contains(f) <==> (eski.contains(f) && f != feature) by {
                        if y.contains(f) {
                            let t = choose|t: int| 0 <= t < y.len() && y[t] == f;
                            if t < i {
                                assert(eski[t] == f);
                            } else {
                                assert(eski[t + 1] == f);
                            }
                        }
                        if eski.contains(f) && f != feature {
                            let t = choose|t: int| 0 <= t < eski.len() && eski[t] == f;
                            if t < i {
                                assert(y[t] == f);
                            } else {
                                assert(t != i);
                                assert(y[t - 1] == f);
                            }
                        }
                    }
                    assert forall|a: int, b: int| 0 <= a < b < y.len() implies y[a] != y[b] by {
                        let a2 = if a < i { a } else { a + 1 };
                        let b2 = if b < i { b } else { b + 1 };
                        assert(y[a] == eski[a2] && y[b] == eski[b2]);
                    }
                }
                return;
            }
            i += 1;
        }
    }

    pub fn is_enabled(&self, feature: &Feature) -> (r: bool)
        ensures
            r == self.etkin().contains(*feature),
    {
        let mut i: usize = 0;
        while i < self.features.len()
            invariant
                0 <= i <= self.features@.len(),
                forall|k: int| 0 <= k < i ==> self.features@[k] != *feature,
            decreases self.features.len() - i,
        {
            if self.features[i] == *feature {
                return true;
            }
            i += 1;
        }
        false
    }

    /// The set of the features named by the texts; the first unknown name fails the whole.
    pub fn from_strs(features: &[&str]) -> (r: Result<FeatureSet, String>)
        ensures
            r is Ok <==> forall|i: int| 0 <= i < features@.len() ==> ozellik_tablosu(kucuk_harf(#[trigger] features@[i]@)) is Some,
            r matches Ok(fs) ==> fs.wf() && forall|f: Feature| fs.etkin().contains(f) <==> exists|i: int|
                0 <= i < features@.len() && ozellik_tablosu(kucuk_harf(#[trigger] features@[i]@)) == Some(f),
            r matches Err(m) ==> exists|i: int|
                0 <= i < features@.len() && ozellik_tablosu(kucuk_harf(#[trigger] features@[i]@)) is None
                    && m@ == bilinmeyen_mesaji(features@[i]@) && forall|j: int|
                    0 <= j < i ==> ozellik_tablosu(kucuk_harf(#[trigger] features@[j]@)) is Some,
    {
        let mut feature_set = FeatureSet::new();
        let mut i: usize = 0;
        while i < features.len()
            invariant
                0 <= i <= features@.len(),
                feature_set.wf(),
                forall|k: int| 0 <= k < i ==> ozellik_tablosu(kucuk_harf(#[trigger] features@[k]@)) is Some,
                forall|f: Feature| feature_set.etkin().contains(f) <==> exists|k: int|
                    0 <= k < i && ozellik_tablosu(kucuk_harf(#[trigger] features@[k]@)) == Some(f),
            decreases features.len() - i,
        {
            let feature = match ozellik_ayristir(features[i]) {
                Ok(f) => f,
                Err(m) => {
                    return Err(m);
                },
            };
            let ghost once = feature_set.etkin();
            feature_set.enable(feature);
            proof {
                assert forall|f: Feature| feature_set.etkin().contains(f) <==> exists|k: int|
                    0 <= k < i + 1 && ozellik_tablosu(kucuk_harf(#[trigger] features@[k]@)) == Some(f) by {
                    if feature_set.etkin().contains(f) && f != feature {
                        let k = choose|k: int| 0 <= k < i && ozellik_tablosu(kucuk_harf(#[trigger] features@[k]@)) == Some(f);
                    }
                    if exists|k: int| 0 <= k < i + 1 && ozellik_tablosu(kucuk_harf(#[trigger] features@[k]@)) == Some(f) {
                        let k = choose|k: int| 0 <= k < i + 1 && ozellik_tablosu(kucuk_harf(#[trigger] features@[k]@)) == Some(f);
                        if k < i {
                            assert(once.contains(f));
                        }
                    }
                }
            }
            i += 1;
        }
        Ok(feature_set)
    }

    /// The enabled features.
    pub fn enabled_features(&self) -> (r: Vec<Feature>)
        ensures
            r@ == self.etkin(),
    {
        let mut r: Vec<Feature> = Vec::new();
        let mut i: usize = 0;
        while i < self.features.len()
            invariant
                0 <= i <= self.features@.len(),
                r@ == self.features@.subrange(0, i as int),
            decreases self.features.len() - i,
        {
            r.push(self.features[i]);
            i += 1;
            proof {
                assert(r@ =~= self.features@.subrange(0, i as int));
            }
        }
        assert(r@ =~= self.features@);
        r
    }
}

} // verus!
