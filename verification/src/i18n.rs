//! The two user-interface languages.

use vstd::prelude::*;

verus! {

/// The supported user-interface languages. `Zh` stands for a Chinese system,
/// `En` for every other one.
#[derive(Clone, Copy, PartialEq, Eq, Debug, Structural)]
pub enum Lang {
    Zh,
    En,
}

/// The primary language of a Windows language identifier is its low byte.
pub open spec fn primary_language(langid: u16) -> int {
    langid as int % 256
}

/// Windows' number for Chinese as a primary language.
pub const LANG_CHINESE: u16 = 0x04;

/// The language for a system whose language identifier is `langid`.
pub open spec fn language_for(langid: u16) -> Lang {
    if primary_language(langid) == LANG_CHINESE {
        Lang::Zh
    } else {
        Lang::En
    }
}

/// Maps a Windows language identifier to one of the two languages.
pub fn lang_from_langid(langid: u16) -> (r: Lang)
    ensures
        r == language_for(langid),
{
    assert(langid & 0xff == langid % 256) by (bit_vector);
    if (langid & 0xff) == LANG_CHINESE {
        Lang::Zh
    } else {
        Lang::En
    }
}

/// Settings of the user interface that outlive it.
#[derive(Debug, Clone, Copy, PartialEq, Eq, Structural)]
pub struct UiSettings {
    pub lang: Lang,
}

impl UiSettings {
    /// The settings of a system with this language identifier.
    pub fn for_system(langid: u16) -> (r: Self)
        ensures
            r.lang == language_for(langid),
    {
        UiSettings { lang: lang_from_langid(langid) }
    }
}

/// The settings to start with, where `stored` was read from the file.
pub open spec fn settings_to_start_with(stored: Option<UiSettings>, langid: u16) -> UiSettings {
    match stored {
        Some(s) => s,
        None => UiSettings { lang: language_for(langid) },
    }
}

/// What is read from a settings file; nothing where there is none.
pub open spec fn read_from(
    decode: spec_fn(Seq<char>) -> Option<UiSettings>,
    file: Option<Seq<char>>,
) -> Option<UiSettings> {
    match file {
        Some(text) => decode(text),
        None => None,
    }
}

/// Settings that were saved come back, in any coding that reads back what it wrote;
/// without a file, or with one that cannot be decoded, those of the system are used.
pub proof fn saved_settings_come_back(
    encode: spec_fn(UiSettings) -> Seq<char>,
    decode: spec_fn(Seq<char>) -> Option<UiSettings>,
    s: UiSettings,
    file: Option<Seq<char>>,
    langid: u16,
)
    requires
        decode(encode(s)) == Some(s),
    ensures
        file == Some(encode(s)) ==> settings_to_start_with(read_from(decode, file), langid) == s,
        file is None || decode(file->0) is None ==> settings_to_start_with(
            read_from(decode, file),
            langid,
        ) == (UiSettings { lang: language_for(langid) }),
{
}

/// The settings to start with: the stored ones; where there are none, or none
/// that could be read, those of the system.
pub fn load_ui_settings(stored: Option<UiSettings>, langid: u16) -> (r: UiSettings)
    ensures
        r == settings_to_start_with(stored, langid),
{
    match stored {
        Some(s) => s,
        None => UiSettings::for_system(langid),
    }
}

/// A system is Chinese exactly when the low byte of its language identifier is 4, whatever
/// the region; every other system is taken for English.
pub proof fn every_chinese_region_is_chinese(region: u8, primary: u8)
    ensures
        language_for((region * 256 + primary) as u16) == Lang::Zh <==> primary == 4,
        language_for((region * 256 + primary) as u16) == Lang::En <==> primary != 4,
{
    assert((region as int * 256 + primary) % 256 == primary);
}

} // verus!
