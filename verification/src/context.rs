//! The per-run configuration a caller hands to every construction call:
//! the country and region the records come from, and the token table used
//! to canonicalize display strings.

use vstd::prelude::*;
use crate::chars::{upper_ascii, exec_upper_ascii, str_eq};
use crate::tokens::{Tokens, ParsedTokenView};

verus! {

/// Immutable per-run configuration: ISO country code, optional region
/// (state or province) code, and the canonicalization table. Codes are
/// stored uppercase whatever case the caller hands in.
pub struct Context {
    pub country: String,
    pub region: Option<String>,
    pub tokens: Tokens,
}

pub struct ContextView {
    pub country: Seq<char>,
    pub region: Option<Seq<char>>,
    pub table: Map<Seq<char>, ParsedTokenView>,
}

impl View for Context {
    type V = ContextView;

    open spec fn view(&self) -> ContextView {
        ContextView {
            country: self.country@,
            region: match self.region {
                Some(ref r) => Some(r@),
                None => None,
            },
            table: self.tokens@,
        }
    }
}

impl Context {
    /// A context for one country (and optionally one region), both
    /// normalized to uppercase.
    pub fn new(country: String, region: Option<String>, tokens: Tokens) -> (r: Context)
        ensures
            r@.country == upper_ascii(country@),
            r@.region == match region {
                Some(ref g) => Some(upper_ascii(g@)),
                None => None::<Seq<char>>,
            },
            r@.table == tokens@,
    {
        let up_region = match region {
            Some(g) => Some(exec_upper_ascii(&g)),
            None => None,
        };
        Context { country: exec_upper_ascii(&country), region: up_region, tokens }
    }

    /// The full name of the context's region, when the code is a known
    /// United States or Canadian one.
    pub fn region_name(&self) -> (r: Option<String>)
        ensures
            match r {
                Some(n) => self@.region is Some && region_full_name(self@.region->0)
                    == Some(n@),
                None => self@.region is None || region_full_name(self@.region->0) is None,
            },
    {
        match &self.region {
            None => None,
            Some(code) => exec_region_full_name(code),
        }
    }
}

/// The full name each United States state, district or territory code and
/// each Canadian province or territory code stands for.
pub open spec fn region_full_name(code: Seq<char>) -> Option<Seq<char>> {
    if code == "AL"@ {
        Some("Alabama"@)
    } else if code == "AK"@ {
        Some("Alaska"@)
    } else if code == "AZ"@ {
        Some("Arizona"@)
    } else if code == "AR"@ {
        Some("Arkansas"@)
    } else if code == "CA"@ {
        Some("California"@)
    } else if code == "CO"@ {
        Some("Colorado"@)
    } else if code == "CT"@ {
        Some("Connecticut"@)
    } else if code == "DE"@ {
        Some("Delaware"@)
    } else if code == "FL"@ {
        Some("Florida"@)
    } else if code == "GA"@ {
        Some("Georgia"@)
    } else if code == "HI"@ {
        Some("Hawaii"@)
    } else if code == "ID"@ {
        Some("Idaho"@)
    } else if code == "IL"@ {
        Some("Illinois"@)
    } else if code == "IN"@ {
        Some("Indiana"@)
    } else if code == "IA"@ {
        Some("Iowa"@)
    } else if code == "KS"@ {
        Some("Kansas"@)
    } else if code == "KY"@ {
        Some("Kentucky"@)
    } else if code == "LA"@ {
        Some("Louisiana"@)
    } else if code == "ME"@ {
        Some("Maine"@)
    } else if code == "MD"@ {
        Some("Maryland"@)
    } else if code == "MA"@ {
        Some("Massachusetts"@)
    } else if code == "MI"@ {
        Some("Michigan"@)
    } else if code == "MN"@ {
        Some("Minnesota"@)
    } else if code == "MS"@ {
        Some("Mississippi"@)
    } else if code == "MO"@ {
        Some("Missouri"@)
    } else if code == "MT"@ {
        Some("Montana"@)
    } else if code == "NE"@ {
        Some("Nebraska"@)
    } else if code == "NV"@ {
        Some("Nevada"@)
    } else if code == "NH"@ {
        Some("New Hampshire"@)
    } else if code == "NJ"@ {
        Some("New Jersey"@)
    } else if code == "NM"@ {
        Some("New Mexico"@)
    } else if code == "NY"@ {
        Some("New York"@)
    } else if code == "NC"@ {
        Some("North Carolina"@)
    } else if code == "ND"@ {
        Some("North Dakota"@)
    } else if code == "OH"@ {
        Some("Ohio"@)
    } else if code == "OK"@ {
        Some("Oklahoma"@)
    } else if code == "OR"@ {
        Some("Oregon"@)
    } else if code == "PA"@ {
        Some("Pennsylvania"@)
    } else if code == "RI"@ {
        Some("Rhode Island"@)
    } else if code == "SC"@ {
        Some("South Carolina"@)
    } else if code == "SD"@ {
        Some("South Dakota"@)
    } else if code == "TN"@ {
        Some("Tennessee"@)
    } else if code == "TX"@ {
        Some("Texas"@)
    } else if code == "UT"@ {
        Some("Utah"@)
    } else if code == "VT"@ {
        Some("Vermont"@)
    } else if code == "VA"@ {
        Some("Virginia"@)
    } else if code == "WA"@ {
        Some("Washington"@)
    } else if code == "WV"@ {
        Some("West Virginia"@)
    } else if code == "WI"@ {
        Some("Wisconsin"@)
    } else if code == "WY"@ {
        Some("Wyoming"@)
    } else if code == "DC"@ {
        Some("District of Columbia"@)
    } else if code == "AS"@ {
        Some("American Samoa"@)
    } else if code == "GU"@ {
        Some("Guam"@)
    } else if code == "MP"@ {
        Some("Northern Mariana Islands"@)
    } else if code == "PR"@ {
        Some("Puerto Rico"@)
    } else if code == "UM"@ {
        Some("United States Minor Outlying Islands"@)
    } else if code == "VI"@ {
        Some("Virgin Islands"@)
    } else if code == "ON"@ {
        Some("Ontario"@)
    } else if code == "QC"@ {
        Some("Quebec"@)
    } else if code == "NS"@ {
        Some("Nova Scotia"@)
    } else if code == "NB"@ {
        Some("New Brunswick"@)
    } else if code == "MB"@ {
        Some("Manitoba"@)
    } else if code == "BC"@ {
        Some("British Columbia"@)
    } else if code == "PE"@ {
        Some("Prince Edward Island"@)
    } else if code == "SK"@ {
        Some("Saskatchewan"@)
    } else if code == "AB"@ {
        Some("Alberta"@)
    } else if code == "NL"@ {
        Some("Newfoundland and Labrador"@)
    } else if code == "NT"@ {
        Some("Northwest Territories"@)
    } else if code == "YT"@ {
        Some("Yukon"@)
    } else if code == "NU"@ {
        Some("Nunavut"@)
    } else {
        None
    }
}

/// Look a region code up in the name table.
pub fn exec_region_full_name(code: &str) -> (r: Option<String>)
    ensures
        match r {
            Some(n) => region_full_name(code@) == Some(n@),
            None => region_full_name(code@) is None,
        },
{
    if str_eq(code, "AL") {
        Some(String::from_str("Alabama"))
    } else if str_eq(code, "AK") {
        Some(String::from_str("Alaska"))
    } else if str_eq(code, "AZ") {
        Some(String::from_str("Arizona"))
    } else if str_eq(code, "AR") {
        Some(String::from_str("Arkansas"))
    } else if str_eq(code, "CA") {
        Some(String::from_str("California"))
    } else if str_eq(code, "CO") {
        Some(String::from_str("Colorado"))
    } else if str_eq(code, "CT") {
        Some(String::from_str("Connecticut"))
    } else if str_eq(code, "DE") {
        Some(String::from_str("Delaware"))
    } else if str_eq(code, "FL") {
        Some(String::from_str("Florida"))
    } else if str_eq(code, "GA") {
        Some(String::from_str("Georgia"))
    } else if str_eq(code, "HI") {
        Some(String::from_str("Hawaii"))
    } else if str_eq(code, "ID") {
        Some(String::from_str("Idaho"))
    } else if str_eq(code, "IL") {
        Some(String::from_str("Illinois"))
    } else if str_eq(code, "IN") {
        Some(String::from_str("Indiana"))
    } else if str_eq(code, "IA") {
        Some(String::from_str("Iowa"))
    } else if str_eq(code, "KS") {
        Some(String::from_str("Kansas"))
    } else if str_eq(code, "KY") {
        Some(String::from_str("Kentucky"))
    } else if str_eq(code, "LA") {
        Some(String::from_str("Louisiana"))
    } else if str_eq(code, "ME") {
        Some(String::from_str("Maine"))
    } else if str_eq(code, "MD") {
        Some(String::from_str("Maryland"))
    } else if str_eq(code, "MA") {
        Some(String::from_str("Massachusetts"))
    } else if str_eq(code, "MI") {
        Some(String::from_str("Michigan"))
    } else if str_eq(code, "MN") {
        Some(String::from_str("Minnesota"))
    } else if str_eq(code, "MS") {
        Some(String::from_str("Mississippi"))
    } else if str_eq(code, "MO") {
        Some(String::from_str("Missouri"))
    } else if str_eq(code, "MT") {
        Some(String::from_str("Montana"))
    } else if str_eq(code, "NE") {
        Some(String::from_str("Nebraska"))
    } else if str_eq(code, "NV") {
        Some(String::from_str("Nevada"))
    } else if str_eq(code, "NH") {
        Some(String::from_str("New Hampshire"))
    } else if str_eq(code, "NJ") {
        Some(String::from_str("New Jersey"))
    } else if str_eq(code, "NM") {
        Some(String::from_str("New Mexico"))
    } else if str_eq(code, "NY") {
        Some(String::from_str("New York"))
    } else if str_eq(code, "NC") {
        Some(String::from_str("North Carolina"))
    } else if str_eq(code, "ND") {
        Some(String::from_str("North Dakota"))
    } else if str_eq(code, "OH") {
        Some(String::from_str("Ohio"))
    } else if str_eq(code, "OK") {
        Some(String::from_str("Oklahoma"))
    } else if str_eq(code, "OR") {
        Some(String::from_str("Oregon"))
    } else if str_eq(code, "PA") {
        Some(String::from_str("Pennsylvania"))
    } else if str_eq(code, "RI") {
        Some(String::from_str("Rhode Island"))
    } else if str_eq(code, "SC") {
        Some(String::from_str("South Carolina"))
    } else if str_eq(code, "SD") {
        Some(String::from_str("South Dakota"))
    } else if str_eq(code, "TN") {
        Some(String::from_str("Tennessee"))
    } else if str_eq(code, "TX") {
        Some(String::from_str("Texas"))
    } else if str_eq(code, "UT") {
        Some(String::from_str("Utah"))
    } else if str_eq(code, "VT") {
        Some(String::from_str("Vermont"))
    } else if str_eq(code, "VA") {
        Some(String::from_str("Virginia"))
    } else if str_eq(code, "WA") {
        Some(String::from_str("Washington"))
    } else if str_eq(code, "WV") {
        Some(String::from_str("West Virginia"))
    } else if str_eq(code, "WI") {
        Some(String::from_str("Wisconsin"))
    } else if str_eq(code, "WY") {
        Some(String::from_str("Wyoming"))
    } else if str_eq(code, "DC") {
        Some(String::from_str("District of Columbia"))
    } else if str_eq(code, "AS") {
        Some(String::from_str("American Samoa"))
    } else if str_eq(code, "GU") {
        Some(String::from_str("Guam"))
    } else if str_eq(code, "MP") {
        Some(String::from_str("Northern Mariana Islands"))
    } else if str_eq(code, "PR") {
        Some(String::from_str("Puerto Rico"))
    } else if str_eq(code, "UM") {
        Some(String::from_str("United States Minor Outlying Islands"))
    } else if str_eq(code, "VI") {
        Some(String::from_str("Virgin Islands"))
    } else if str_eq(code, "ON") {
        Some(String::from_str("Ontario"))
    } else if str_eq(code, "QC") {
        Some(String::from_str("Quebec"))
    } else if str_eq(code, "NS") {
        Some(String::from_str("Nova Scotia"))
    } else if str_eq(code, "NB") {
        Some(String::from_str("New Brunswick"))
    } else if str_eq(code, "MB") {
        Some(String::from_str("Manitoba"))
    } else if str_eq(code, "BC") {
        Some(String::from_str("British Columbia"))
    } else if str_eq(code, "PE") {
        Some(String::from_str("Prince Edward Island"))
    } else if str_eq(code, "SK") {
        Some(String::from_str("Saskatchewan"))
    } else if str_eq(code, "AB") {
        Some(String::from_str("Alberta"))
    } else if str_eq(code, "NL") {
        Some(String::from_str("Newfoundland and Labrador"))
    } else if str_eq(code, "NT") {
        Some(String::from_str("Northwest Territories"))
    } else if str_eq(code, "YT") {
        Some(String::from_str("Yukon"))
    } else if str_eq(code, "NU") {
        Some(String::from_str("Nunavut"))
    } else {
        None
    }
}

} // verus!
