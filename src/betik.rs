//! Install scripts: which command runs a script, and what its outcome means. Starting the
//! process is left to the caller.
use vstd::prelude::*;
use vstd::string::*;
use crate::hata::PaketYoneticisiHata;

verus! {

/// The program and arguments that run the script: `cmd /C <script>` on Windows,
/// `sh -c <script>` elsewhere.
pub fn betik_komutu(betik_yolu: &str, windows: bool) -> (r: (String, Vec<String>))
    ensures
        windows ==> r.0@ == "cmd"@ && r.1@.len() == 2 && r.1@[0]@ == "/C"@ && r.1@[1]@ == betik_yolu@,
        !windows ==> r.0@ == "sh"@ && r.1@.len() == 2 && r.1@[0]@ == "-c"@ && r.1@[1]@ == betik_yolu@,
{
    let mut args: Vec<String> = Vec::new();
    if windows {
        args.push(String::from_str("/C"));
        args.push(betik_yolu.to_owned());
        (String::from_str("cmd"), args)
    } else {
        args.push(String::from_str("-c"));
        args.push(betik_yolu.to_owned());
        (String::from_str("sh"), args)
    }
}

/// The message for a script that ended in failure.
pub open spec fn betik_hata_mesaji(betik_yolu: Seq<char>, hata_ciktisi: Seq<char>) -> Seq<char> {
    "Betik hatayla sonlandı. Betik yolu: "@ + betik_yolu + ". Hata içeriği: "@ + hata_ciktisi
}

/// A script succeeded exactly when it exited with code 0.
pub fn betik_sonucu(cikis_kodu: i32, betik_yolu: &str, hata_ciktisi: &str) -> (r: Result<(), PaketYoneticisiHata>)
    ensures
        r is Ok <==> cikis_kodu == 0,
        r matches Err(e) ==> (e matches PaketYoneticisiHata::BetikCalistirmaHatasi(m) && m@ == betik_hata_mesaji(
            betik_yolu@,
            hata_ciktisi@,
        )),
{
    if cikis_kodu == 0 {
        return Ok(());
    }
    let m = String::from_str("Betik hatayla sonlandı. Betik yolu: ");
    let m = m.concat(betik_yolu);
    let m = m.concat(". Hata içeriği: ");
    let m = m.concat(hata_ciktisi);
    Err(PaketYoneticisiHata::BetikCalistirmaHatasi(m))
}

} // verus!
