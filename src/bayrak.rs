//! Feature switches, read once at start-up from the values the caller hands in and passed
//! along as one immutable record.
use vstd::prelude::*;
use crate::metin::esit;
use crate::ozellikler::{kucuk_harf, kucuk_harfe};

verus! {

/// The value of a switch: "true", "1", "yes" switch on and "false", "0", "no" or nothing
/// switch off, in any letter case; no value, or any other text, keeps the default.
pub open spec fn bayrak_degeri(deger: Option<Seq<char>>, varsayilan: bool) -> bool {
    match deger {
        None => varsayilan,
        Some(d) => {
            let k = kucuk_harf(d);
            if k == "true"@ || k == "1"@ || k == "yes"@ {
                true
            } else if k == "false"@ || k == "0"@ || k == "no"@ || k == ""@ {
                false
            } else {
                varsayilan
            }
        },
    }
}

/// The switches of the optional subsystems.
pub struct FeatureFlags {
    pub compression: bool,
    pub network: bool,
    pub security: bool,
}

impl FeatureFlags {
    /// The switches from their raw values; each is off by default.
    pub fn new(compression: Option<&str>, network: Option<&str>, security: Option<&str>) -> (r: FeatureFlags)
        ensures
            r.compression == bayrak_degeri(match compression { Some(s) => Some(s@), None => None }, false),
            r.network == bayrak_degeri(match network { Some(s) => Some(s@), None => None }, false),
            r.security == bayrak_degeri(match security { Some(s) => Some(s@), None => None }, false),
    {
        FeatureFlags {
            compression: FeatureFlags::get_feature_flag(compression, false),
            network: FeatureFlags::get_feature_flag(network, false),
            security: FeatureFlags::get_feature_flag(security, false),
        }
    }

    /// One switch from its raw value.
    pub fn get_feature_flag(deger: Option<&str>, default_value: bool) -> (r: bool)
        ensures
            r == bayrak_degeri(match deger { Some(s) => Some(s@), None => None }, default_value),
    {
        match deger {
            None => default_value,
            Some(d) => {
                let k = kucuk_harfe(d);
                if esit(&k, "true") || esit(&k, "1") || esit(&k, "yes") {
                    true
                } else if esit(&k, "false") || esit(&k, "0") || esit(&k, "no") || esit(&k, "") {
                    false
                } else {
                    default_value
                }
            },
        }
    }
}

} // verus!
