use vstd::prelude::*;

verus! {

/// The mnemonic languages the seed codec recognises.
///
/// The wordlist tables themselves are supplied by a wordlist provider; the
/// codec only selects among them.  An unrecognised numeric code falls back to
/// English: that is a defined default of the boundary contract, not an error.
#[derive(Clone, Copy, Debug, PartialEq, Eq, Structural)]
pub enum Language {
    German,
    English,
    Spanish,
    French,
    Italian,
    Dutch,
    Portuguese,
    Russian,
    Chinese,
    Japanese,
    Esperanto,
    Lojban,
    EnglishOld,
}

/// The language a numeric code selects; codes outside 0..=12 give English.
pub open spec fn language_of_code(code: u8) -> Language {
    if code == 0 {
        Language::German
    } else if code == 1 {
        Language::English
    } else if code == 2 {
        Language::Spanish
    } else if code == 3 {
        Language::French
    } else if code == 4 {
        Language::Italian
    } else if code == 5 {
        Language::Dutch
    } else if code == 6 {
        Language::Portuguese
    } else if code == 7 {
        Language::Russian
    } else if code == 8 {
        Language::Chinese
    } else if code == 9 {
        Language::Japanese
    } else if code == 10 {
        Language::Esperanto
    } else if code == 11 {
        Language::Lojban
    } else if code == 12 {
        Language::EnglishOld
    } else {
        Language::English
    }
}

/// Map a numeric language code to a [`Language`], defaulting to English.
pub fn language_from_code(code: u8) -> (lang: Language)
    ensures
        lang == language_of_code(code),
{
    match code {
        0 => Language::German,
        1 => Language::English,
        2 => Language::Spanish,
        3 => Language::French,
        4 => Language::Italian,
        5 => Language::Dutch,
        6 => Language::Portuguese,
        7 => Language::Russian,
        8 => Language::Chinese,
        9 => Language::Japanese,
        10 => Language::Esperanto,
        11 => Language::Lojban,
        12 => Language::EnglishOld,
        _ => Language::English,
    }
}

} // verus!
