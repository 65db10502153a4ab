//! Name patterns.

use aetheris::rules::PatternMatcher;

#[test]
fn matches_substring_case_insensitive() {
    let m = PatternMatcher::new(vec!["steam_app_".into(), "game".into()]);
    assert!(m.matches("STEAM_APP_123.exe"));
    assert!(m.matches("MyGame.exe"));
    assert!(!m.matches("gazester.exe"));
    assert!(!m.matches("chrom.exe"));
}

#[test]
fn empty_matcher_matches_nothing() {
    let m = PatternMatcher::new(vec![]);
    assert!(m.is_empty());
    assert!(!m.matches("anything.exe"));
}

#[test]
fn exact_name_is_substring() {
    let m = PatternMatcher::new(vec!["browser.exe".into()]);
    assert!(m.matches("browser.exe"));
    assert!(m.matches("Browser.EXE"));
}

#[test]
fn earliest_pattern_wins_wherever_it_stands() {
    let m = PatternMatcher::new(vec!["exe".into(), "upd".into(), "updater.exe".into()]);
    assert_eq!(m.first_matching("UPDATER.EXE"), Some(0));
    assert_eq!(m.first_matching("upd"), Some(1));
    assert_eq!(m.first_matching("other"), None);
    let m = PatternMatcher::new(vec!["updater.exe".into(), "upd".into(), "UPD".into()]);
    assert_eq!(m.first_matching("my updater.exe"), Some(0));
    assert_eq!(m.first_matching("update"), Some(1));
}

#[test]
fn empty_pattern_matches_everything() {
    let m = PatternMatcher::new(vec!["zzz".into(), "".into()]);
    assert!(!m.is_empty());
    assert!(m.matches(""));
    assert_eq!(m.first_matching("abc"), Some(1));
    assert_eq!(m.first_matching("abc zzz"), Some(0));
}

#[test]
fn star_is_no_wildcard_and_other_letters_keep_their_case() {
    let m = PatternMatcher::try_new(vec!["steam_app_*.exe".into(), "ÄRGER".into()]).unwrap();
    assert!(!m.matches("steam_app_1.exe"));
    assert!(m.matches("steam_app_*.exe"));
    assert!(m.matches("xÄrger.exe"));
    assert!(!m.matches("ärger.exe"));
}
