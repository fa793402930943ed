//! Integrity checks: content digests compared with expected values. The "signature" here is a
//! digest of the content: it detects corruption and tampering, not who published the package.
use vstd::prelude::*;
use vstd::string::*;
use sha2::Digest;

verus! {

/// The 16 bytes of the MD5 digest of the bytes.
pub uninterp spec fn md5_ozeti(b: Seq<u8>) -> Seq<u8>;

/// The 32 bytes of the SHA-256 digest of the bytes.
pub uninterp spec fn sha256_ozeti(b: Seq<u8>) -> Seq<u8>;

/// The lowercase hex digit of a value below 16.
pub open spec fn hex_karakteri(v: int) -> char {
    if v == 0 {
        '0'
    } else if v == 1 {
        '1'
    } else if v == 2 {
        '2'
    } else if v == 3 {
        '3'
    } else if v == 4 {
        '4'
    } else if v == 5 {
        '5'
    } else if v == 6 {
        '6'
    } else if v == 7 {
        '7'
    } else if v == 8 {
        '8'
    } else if v == 9 {
        '9'
    } else if v == 10 {
        'a'
    } else if v == 11 {
        'b'
    } else if v == 12 {
        'c'
    } else if v == 13 {
        'd'
    } else if v == 14 {
        'e'
    } else {
        'f'
    }
}

/// A lowercase hex digit.
pub open spec fn kucuk_hex_rakami(c: char) -> bool {
    c == '0' || c == '1' || c == '2' || c == '3' || c == '4' || c == '5' || c == '6' || c == '7' || c == '8' || c == '9' || c == 'a' || c == 'b' || c == 'c' || c == 'd' || c == 'e' || c == 'f'
}

/// Two lowercase hex digits per byte, the high digit first.
pub open spec fn kucuk_hex(b: Seq<u8>) -> Seq<char> {
    Seq::new(
        2 * b.len(),
        |j: int|
            hex_karakteri(
                if j % 2 == 0 {
                    (b[j / 2] as int) / 16
                } else {
                    (b[j / 2] as int) % 16
                },
            ),
    )
}

/// Relies on md-5's `Md5::digest`, printed with `{:x}`: generic-array writes each of the 16
/// bytes as two lowercase hex digits, high digit first.
#[verifier::external_body]
fn md5_hex(veri: &[u8]) -> (r: String)
    ensures
        r@ == kucuk_hex(md5_ozeti(veri@)),
        r@.len() == 32,
{
    format!("{:x}", md5::Md5::digest(veri))
}

/// Relies on `sha256::digest`: `hex::encode` of sha2's 32-byte SHA-256 digest.
#[verifier::external_body]
fn sha256_hex(veri: &[u8]) -> (r: String)
    ensures
        r@ == kucuk_hex(sha256_ozeti(veri@)),
        r@.len() == 64,
{
    sha256::digest(veri)
}

/// Relies on sha2's `Sha256::digest`: the 32-byte digest.
#[verifier::external_body]
fn sha256_baytlari(veri: &[u8]) -> (r: Vec<u8>)
    ensures
        r@ == sha256_ozeti(veri@),
        r@.len() == 32,
{
    sha2::Sha256::digest(veri).to_vec()
}

/// The error of `hex::decode`, carried through unchanged.
#[verifier::external_type_specification]
#[verifier::external_body]
pub struct ExFromHexError(hex::FromHexError);

/// A hex digit, upper or lower case.
pub open spec fn hex_rakami(c: char) -> bool {
    ('0' <= c && c <= '9') || ('A' <= c && c <= 'F') || ('a' <= c && c <= 'f')
}

/// The value of a hex digit.
pub open spec fn hex_degeri(c: char) -> int {
    if '0' <= c && c <= '9' {
        (c as int) - 48
    } else if 'A' <= c && c <= 'F' {
        (c as int) - 55
    } else {
        (c as int) - 87
    }
}

/// An even number of hex digits.
pub open spec fn hex_gecerli(s: Seq<char>) -> bool {
    s.len() % 2 == 0 && forall|i: int| 0 <= i < s.len() ==> hex_rakami(#[trigger] s[i])
}

/// The bytes that pairs of hex digits stand for, the first digit of each pair the high one.
pub open spec fn hex_cozulmus(s: Seq<char>) -> Seq<u8> {
    Seq::new((s.len() / 2) as nat, |i: int| (16 * hex_degeri(s[2 * i]) + hex_degeri(s[2 * i + 1])) as u8)
}

/// Relies on `hex::decode`: odd length or a byte that is no ASCII hex digit fails (a text
/// made of hex digits is ASCII, one byte per character); otherwise each pair of digits, high
/// digit first, gives one byte.
#[verifier::external_body]
fn hex_coz(s: &str) -> (r: Result<Vec<u8>, hex::FromHexError>)
    ensures
        r is Ok <==> hex_gecerli(s@),
        r matches Ok(v) ==> v@ == hex_cozulmus(s@),
{
    hex::decode(s)
}

/// The content has the expected MD5 checksum.
pub open spec fn md5_tutar(icerik: Seq<u8>, beklenen: Seq<char>) -> bool {
    kucuk_hex(md5_ozeti(icerik)) == beklenen
}

/// The signature is the one the content gets.
pub open spec fn imza_tutar(icerik: Seq<u8>, imza: Seq<char>) -> bool {
    kucuk_hex(sha256_ozeti(icerik)) == imza
}

/// The MD5 checksum of the content: 32 lowercase hex digits.
pub fn hesapla_md5(icerik: &[u8]) -> (r: String)
    ensures
        r@ == kucuk_hex(md5_ozeti(icerik@)),
        r@.len() == 32,
        forall|i: int| 0 <= i < r@.len() ==> kucuk_hex_rakami(#[trigger] r@[i]),
{
    let r = md5_hex(icerik);
    proof {
        assert forall|i: int| 0 <= i < r@.len() implies kucuk_hex_rakami(#[trigger] r@[i]) by {
            let b = md5_ozeti(icerik@);
            let v = if i % 2 == 0 { (b[i / 2] as int) / 16 } else { (b[i / 2] as int) % 16 };
            assert(r@[i] == hex_karakteri(v));
        }
    }
    r
}

/// Whether the content has the expected MD5 checksum. A mismatch is an answer, not an error.
pub fn dogrula_md5(icerik: &[u8], beklenen_md5: &str) -> (r: bool)
    ensures
        r == md5_tutar(icerik@, beklenen_md5@),
{
    let hesaplanan = hesapla_md5(icerik);
    hesaplanan == beklenen_md5.to_owned()
}

/// The checksum and the signature computed from a content verify against that content.
pub proof fn lemma_kendi_ozeti_dogrulanir(icerik: Seq<u8>)
    ensures
        md5_tutar(icerik, kucuk_hex(md5_ozeti(icerik))),
        imza_tutar(icerik, kucuk_hex(sha256_ozeti(icerik))),
{
}

/// Lowercase hex text decodes back to the bytes it was made from.
pub proof fn lemma_hex_geri_cozulur(b: Seq<u8>)
    ensures
        hex_gecerli(kucuk_hex(b)),
        hex_cozulmus(kucuk_hex(b)) == b,
{
    let s = kucuk_hex(b);
    assert forall|j: int| 0 <= j < s.len() implies hex_rakami(#[trigger] s[j]) by {
        let v = if j % 2 == 0 { (b[j / 2] as int) / 16 } else { (b[j / 2] as int) % 16 };
        assert(s[j] == hex_karakteri(v));
    }
    assert forall|i: int| 0 <= i < b.len() implies #[trigger] hex_cozulmus(s)[i] == b[i] by {
        let yuksek = (b[i] as int) / 16;
        let dusuk = (b[i] as int) % 16;
        assert(s[2 * i] == hex_karakteri(yuksek));
        assert(s[2 * i + 1] == hex_karakteri(dusuk));
        assert(hex_degeri(hex_karakteri(yuksek)) == yuksek);
        assert(hex_degeri(hex_karakteri(dusuk)) == dusuk);
        assert(16 * yuksek + dusuk == b[i]);
    }
    assert(hex_cozulmus(s) =~= b);
}

/// A signature made by `sign_package` passes `SecurityManager::verify_signature` for the same
/// content: it is valid hex, and it decodes to the content's digest.
pub proof fn lemma_imza_dogrulanir(icerik: Seq<u8>)
    ensures
        hex_gecerli(kucuk_hex(sha256_ozeti(icerik))),
        sha256_ozeti(icerik) == hex_cozulmus(kucuk_hex(sha256_ozeti(icerik))),
{
    lemma_hex_geri_cozulur(sha256_ozeti(icerik));
}

/// The signature of a package: the SHA-256 digest of its content, as lowercase hex.
pub fn sign_package(icerik: &[u8]) -> (r: String)
    ensures
        r@ == kucuk_hex(sha256_ozeti(icerik@)),
        r@.len() == 64,
{
    sha256_hex(icerik)
}

/// Whether the signature is the one `sign_package` gives for the content. A signature that is
/// not 64 characters long never matches.
pub fn verify_package(icerik: &[u8], expected_signature: &str) -> (r: bool)
    ensures
        r == imza_tutar(icerik@, expected_signature@),
        expected_signature@.len() != 64 ==> !r,
{
    let signature = sign_package(icerik);
    signature == expected_signature.to_owned()
}

/// What can go wrong in the security checks.
#[derive(Debug)]
pub enum SecurityError {
    FileReadError(String),
    InvalidSignatureFile(String),
    SignatureVerificationFailed,
    VulnerabilityScanError(String),
    SandboxError(String),
    HexDecodeError(hex::FromHexError),
}

/// Signature checks and the vulnerability report.
pub struct SecurityManager {}

impl SecurityManager {
    pub fn new() -> (r: SecurityManager) {
        SecurityManager {  }
    }

    /// Decodes the hex text of the signature and compares it byte for byte with the SHA-256
    /// digest of the package content.
    pub fn verify_signature(&self, package_data: &[u8], signature_data: &str) -> (r: Result<bool, SecurityError>)
        ensures
            r matches Err(SecurityError::HexDecodeError(_)) <==> !hex_gecerli(signature_data@),
            r is Ok <==> hex_gecerli(signature_data@) && sha256_ozeti(package_data@) == hex_cozulmus(signature_data@),
            r matches Err(SecurityError::SignatureVerificationFailed) <==> hex_gecerli(signature_data@)
                && sha256_ozeti(package_data@) != hex_cozulmus(signature_data@),
            r matches Ok(b) ==> b,
    {
        let package_digest = sha256_baytlari(package_data);
        let signature_digest = match hex_coz(signature_data) {
            Ok(v) => v,
            Err(e) => {
                return Err(SecurityError::HexDecodeError(e));
            },
        };
        if baytlar_esit(&package_digest, &signature_digest) {
            Ok(true)
        } else {
            Err(SecurityError::SignatureVerificationFailed)
        }
    }

    /// The known findings for a package: at present a fixed sample report.
    pub fn scan_for_vulnerabilities(&self, package_path: &str) -> (r: Result<Vec<String>, SecurityError>)
        ensures
            r matches Ok(v) && v@.len() == 2 && v@[0]@ == "CVE-2023-1234"@ && v@[1]@ == "CVE-2023-5678"@,
    {
        let mut v: Vec<String> = Vec::new();
        v.push(String::from_str("CVE-2023-1234"));
        v.push(String::from_str("CVE-2023-5678"));
        Ok(v)
    }
}

/// Byte-for-byte equality.
fn baytlar_esit(a: &Vec<u8>, b: &Vec<u8>) -> (r: bool)
    ensures
        r == (a@ == b@),
{
    if a.len() != b.len() {
        return false;
    }
    let mut i: usize = 0;
    while i < a.len()
        invariant
            a@.len() == b@.len(),
            0 <= i <= a@.len(),
            forall|k: int| 0 <= k < i ==> a@[k] == b@[k],
        decreases a.len() - i,
    {
        if a[i] != b[i] {
            return false;
        }
        i += 1;
    }
    assert(a@ =~= b@);
    true
}

} // verus!
