//! Languages and templates.

use aetheris::config::{default_config_str, Config};
use aetheris::i18n::{lang_from_langid, load_ui_settings, Lang, UiSettings};

#[test]
fn primary_language_decides() {
    assert_eq!(lang_from_langid(0x0804), Lang::Zh);
    assert_eq!(lang_from_langid(0x0404), Lang::Zh);
    assert_eq!(lang_from_langid(0x0409), Lang::En);
    assert_eq!(lang_from_langid(0x0407), Lang::En);
    assert_eq!(lang_from_langid(0x0400), Lang::En);
    assert_eq!(lang_from_langid(0x0004), Lang::Zh);
}

#[test]
fn stored_settings_win_over_the_system() {
    let stored = UiSettings { lang: Lang::En };
    assert_eq!(load_ui_settings(Some(stored), 0x0804).lang, Lang::En);
    assert_eq!(load_ui_settings(None, 0x0804).lang, Lang::Zh);
    assert_eq!(UiSettings::for_system(0x0409).lang, Lang::En);
}

/// A template holds comments only, so that what it stands for is the default.
#[test]
fn default_config_str_parses_in_both_langs() {
    for l in [Lang::Zh, Lang::En] {
        let s = default_config_str(l);
        let table: toml::Table = s.parse().expect("template parses");
        assert!(table.is_empty());
        assert!(s.contains("[[background]]"));
    }
    assert!(Config::default().validate().is_ok());
}

#[test]
fn default_config_str_is_valid_toml() {
    let s = default_config_str(Lang::En);
    let table: toml::Table = s.parse().expect("default config parses");
    assert!(table.is_empty());
    assert!(Config::default().validate().is_ok());
}

/// Both templates show the same settings, line by line.
#[test]
fn templates_show_the_same_settings() {
    let settings = |s: String| -> Vec<String> {
        s.lines()
            .map(|l| l.trim_start_matches("# ").trim_start_matches("# ").to_string())
            .filter(|l| l.starts_with('[') || l.contains(" = "))
            .filter(|l| !l.contains("CpuRate"))
            .collect()
    };
    let en = settings(default_config_str(Lang::En));
    assert_eq!(en, settings(default_config_str(Lang::Zh)));
    assert!(en.contains(&"qos_cpu_quota = 50".to_string()));
}

#[test]
fn template_lines_are_blank_or_comments() {
    for l in [Lang::Zh, Lang::En] {
        let s = default_config_str(l);
        assert!(s.lines().all(|line| line.is_empty() || line.starts_with('#')));
        assert_eq!(s.lines().count(), if l == Lang::En { 54 } else { 52 });
        assert!(s.ends_with("# netbios = false\n"));
    }
}
