//! The closed set of subtitle languages, keyed by three-letter ISO-639-2T
//! codes; two-letter ISO-639-1 codes are used only toward the external
//! subtitle provider.

use vstd::prelude::*;
use vstd::string::*;

verus! {

/// A language from the closed set this system stores subtitles in.
#[derive(Debug, Clone, Copy, PartialEq, Eq, Structural, Hash)]
pub enum LanguageCode {
    English,
    Turkish,
    German,
    French,
    Spanish,
    Italian,
    Portuguese,
    Dutch,
    Russian,
    Japanese,
    Korean,
    Chinese,
    Arabic,
    Hindi,
    Polish,
    Swedish,
    Norwegian,
    Danish,
    Finnish,
    Greek,
    Czech,
    Hungarian,
    Ukrainian,
}

/// The three-letter ISO-639-2T code of each language.
pub open spec fn spec_iso639_2t(l: LanguageCode) -> Seq<char> {
    match l {
        LanguageCode::English => "eng"@,
        LanguageCode::Turkish => "tur"@,
        LanguageCode::German => "deu"@,
        LanguageCode::French => "fra"@,
        LanguageCode::Spanish => "spa"@,
        LanguageCode::Italian => "ita"@,
        LanguageCode::Portuguese => "por"@,
        LanguageCode::Dutch => "nld"@,
        LanguageCode::Russian => "rus"@,
        LanguageCode::Japanese => "jpn"@,
        LanguageCode::Korean => "kor"@,
        LanguageCode::Chinese => "zho"@,
        LanguageCode::Arabic => "ara"@,
        LanguageCode::Hindi => "hin"@,
        LanguageCode::Polish => "pol"@,
        LanguageCode::Swedish => "swe"@,
        LanguageCode::Norwegian => "nor"@,
        LanguageCode::Danish => "dan"@,
        LanguageCode::Finnish => "fin"@,
        LanguageCode::Greek => "ell"@,
        LanguageCode::Czech => "ces"@,
        LanguageCode::Hungarian => "hun"@,
        LanguageCode::Ukrainian => "ukr"@,
    }
}

/// The two-letter ISO-639-1 code of each language.
pub open spec fn spec_iso639_1(l: LanguageCode) -> Seq<char> {
    match l {
        LanguageCode::English => "en"@,
        LanguageCode::Turkish => "tr"@,
        LanguageCode::German => "de"@,
        LanguageCode::French => "fr"@,
        LanguageCode::Spanish => "es"@,
        LanguageCode::Italian => "it"@,
        LanguageCode::Portuguese => "pt"@,
        LanguageCode::Dutch => "nl"@,
        LanguageCode::Russian => "ru"@,
        LanguageCode::Japanese => "ja"@,
        LanguageCode::Korean => "ko"@,
        LanguageCode::Chinese => "zh"@,
        LanguageCode::Arabic => "ar"@,
        LanguageCode::Hindi => "hi"@,
        LanguageCode::Polish => "pl"@,
        LanguageCode::Swedish => "sv"@,
        LanguageCode::Norwegian => "no"@,
        LanguageCode::Danish => "da"@,
        LanguageCode::Finnish => "fi"@,
        LanguageCode::Greek => "el"@,
        LanguageCode::Czech => "cs"@,
        LanguageCode::Hungarian => "hu"@,
        LanguageCode::Ukrainian => "uk"@,
    }
}

/// The language with the given ISO-639-2T code, if it is in the set.
pub open spec fn spec_language_from(s: Seq<char>) -> Option<LanguageCode> {
    if s == "eng"@ {
        Option::Some(LanguageCode::English)
    } else if s == "tur"@ {
        Option::Some(LanguageCode::Turkish)
    } else if s == "deu"@ {
        Option::Some(LanguageCode::German)
    } else if s == "fra"@ {
        Option::Some(LanguageCode::French)
    } else if s == "spa"@ {
        Option::Some(LanguageCode::Spanish)
    } else if s == "ita"@ {
        Option::Some(LanguageCode::Italian)
    } else if s == "por"@ {
        Option::Some(LanguageCode::Portuguese)
    } else if s == "nld"@ {
        Option::Some(LanguageCode::Dutch)
    } else if s == "rus"@ {
        Option::Some(LanguageCode::Russian)
    } else if s == "jpn"@ {
        Option::Some(LanguageCode::Japanese)
    } else if s == "kor"@ {
        Option::Some(LanguageCode::Korean)
    } else if s == "zho"@ {
        Option::Some(LanguageCode::Chinese)
    } else if s == "ara"@ {
        Option::Some(LanguageCode::Arabic)
    } else if s == "hin"@ {
        Option::Some(LanguageCode::Hindi)
    } else if s == "pol"@ {
        Option::Some(LanguageCode::Polish)
    } else if s == "swe"@ {
        Option::Some(LanguageCode::Swedish)
    } else if s == "nor"@ {
        Option::Some(LanguageCode::Norwegian)
    } else if s == "dan"@ {
        Option::Some(LanguageCode::Danish)
    } else if s == "fin"@ {
        Option::Some(LanguageCode::Finnish)
    } else if s == "ell"@ {
        Option::Some(LanguageCode::Greek)
    } else if s == "ces"@ {
        Option::Some(LanguageCode::Czech)
    } else if s == "hun"@ {
        Option::Some(LanguageCode::Hungarian)
    } else if s == "ukr"@ {
        Option::Some(LanguageCode::Ukrainian)
    } else {
        Option::None
    }
}

impl LanguageCode {
    /// The three-letter ISO-639-2T code, as stored on disk.
    pub fn to_iso639_2t(&self) -> (r: &'static str)
        ensures
            r@ == spec_iso639_2t(*self),
    {
        match self {
            LanguageCode::English => "eng",
            LanguageCode::Turkish => "tur",
            LanguageCode::German => "deu",
            LanguageCode::French => "fra",
            LanguageCode::Spanish => "spa",
            LanguageCode::Italian => "ita",
            LanguageCode::Portuguese => "por",
            LanguageCode::Dutch => "nld",
            LanguageCode::Russian => "rus",
            LanguageCode::Japanese => "jpn",
            LanguageCode::Korean => "kor",
            LanguageCode::Chinese => "zho",
            LanguageCode::Arabic => "ara",
            LanguageCode::Hindi => "hin",
            LanguageCode::Polish => "pol",
            LanguageCode::Swedish => "swe",
            LanguageCode::Norwegian => "nor",
            LanguageCode::Danish => "dan",
            LanguageCode::Finnish => "fin",
            LanguageCode::Greek => "ell",
            LanguageCode::Czech => "ces",
            LanguageCode::Hungarian => "hun",
            LanguageCode::Ukrainian => "ukr",
        }
    }

    /// The two-letter ISO-639-1 code, used toward the subtitle provider.
    pub fn to_iso639_1(&self) -> (r: &'static str)
        ensures
            r@ == spec_iso639_1(*self),
    {
        match self {
            LanguageCode::English => "en",
            LanguageCode::Turkish => "tr",
            LanguageCode::German => "de",
            LanguageCode::French => "fr",
            LanguageCode::Spanish => "es",
            LanguageCode::Italian => "it",
            LanguageCode::Portuguese => "pt",
            LanguageCode::Dutch => "nl",
            LanguageCode::Russian => "ru",
            LanguageCode::Japanese => "ja",
            LanguageCode::Korean => "ko",
            LanguageCode::Chinese => "zh",
            LanguageCode::Arabic => "ar",
            LanguageCode::Hindi => "hi",
            LanguageCode::Polish => "pl",
            LanguageCode::Swedish => "sv",
            LanguageCode::Norwegian => "no",
            LanguageCode::Danish => "da",
            LanguageCode::Finnish => "fi",
            LanguageCode::Greek => "el",
            LanguageCode::Czech => "cs",
            LanguageCode::Hungarian => "hu",
            LanguageCode::Ukrainian => "uk",
        }
    }

    /// Reads a three-letter ISO-639-2T code; codes outside the closed set
    /// are rejected.
    pub fn try_from_str(s: &str) -> (r: Option<LanguageCode>)
        ensures
            r == spec_language_from(s@),
    {
        if crate::text::str_eq(s, "eng") {
            Some(LanguageCode::English)
        } else if crate::text::str_eq(s, "tur") {
            Some(LanguageCode::Turkish)
        } else if crate::text::str_eq(s, "deu") {
            Some(LanguageCode::German)
        } else if crate::text::str_eq(s, "fra") {
            Some(LanguageCode::French)
        } else if crate::text::str_eq(s, "spa") {
            Some(LanguageCode::Spanish)
        } else if crate::text::str_eq(s, "ita") {
            Some(LanguageCode::Italian)
        } else if crate::text::str_eq(s, "por") {
            Some(LanguageCode::Portuguese)
        } else if crate::text::str_eq(s, "nld") {
            Some(LanguageCode::Dutch)
        } else if crate::text::str_eq(s, "rus") {
            Some(LanguageCode::Russian)
        } else if crate::text::str_eq(s, "jpn") {
            Some(LanguageCode::Japanese)
        } else if crate::text::str_eq(s, "kor") {
            Some(LanguageCode::Korean)
        } else if crate::text::str_eq(s, "zho") {
            Some(LanguageCode::Chinese)
        } else if crate::text::str_eq(s, "ara") {
            Some(LanguageCode::Arabic)
        } else if crate::text::str_eq(s, "hin") {
            Some(LanguageCode::Hindi)
        } else if crate::text::str_eq(s, "pol") {
            Some(LanguageCode::Polish)
        } else if crate::text::str_eq(s, "swe") {
            Some(LanguageCode::Swedish)
        } else if crate::text::str_eq(s, "nor") {
            Some(LanguageCode::Norwegian)
        } else if crate::text::str_eq(s, "dan") {
            Some(LanguageCode::Danish)
        } else if crate::text::str_eq(s, "fin") {
            Some(LanguageCode::Finnish)
        } else if crate::text::str_eq(s, "ell") {
            Some(LanguageCode::Greek)
        } else if crate::text::str_eq(s, "ces") {
            Some(LanguageCode::Czech)
        } else if crate::text::str_eq(s, "hun") {
            Some(LanguageCode::Hungarian)
        } else if crate::text::str_eq(s, "ukr") {
            Some(LanguageCode::Ukrainian)
        } else {
            None
        }
    }

}

} // verus!
