//! Values and controls of the editor.

use aetheris::config::PriorityClass;
use aetheris::i18n::Lang;
use aetheris::strings::{keys, tr};
use aetheris::ui::{
    affinity_text, bg_rule_from_toggles, cpu_level_to_pct, idx_to_priority, needs_elevation,
    parse_affinity, parse_qos, pct_to_cpu_level, priority_to_idx,
};

#[test]
fn table_is_complete_for_both_langs() {
    assert!(!keys().is_empty(), "string table must define at least one key");
    for key in keys() {
        for lang in [Lang::Zh, Lang::En] {
            let s = tr(lang, key);
            assert!(
                !s.is_empty(),
                "tr({lang:?}, {key:?}) is an empty string (missing translation)"
            );
            assert_ne!(s, key, "tr({lang:?}, {key:?}) returns the key itself (untranslated)");
        }
    }
}

#[test]
fn save_refusal_mentions_elevated_client() {
    assert!(needs_elevation(
        "SaveConfig requires an elevated client — run aetheris-ui as administrator"
    ));
}

#[test]
fn save_refusal_mentions_administrator() {
    assert!(needs_elevation("requires administrator rights"));
}

#[test]
fn unrelated_pipe_error_is_not_elevation() {
    assert!(!needs_elevation("pipe unavailable after retries"));
}

#[test]
fn cpu_level_maps_to_quota() {
    assert_eq!(cpu_level_to_pct(0), 30);
    assert_eq!(cpu_level_to_pct(1), 50);
    assert_eq!(cpu_level_to_pct(2), 70);
    assert_eq!(pct_to_cpu_level(30), 0);
    assert_eq!(pct_to_cpu_level(70), 2);
    assert_eq!(pct_to_cpu_level(50), 1);
}

#[test]
fn bg_rule_from_toggles_applies_global_fields() {
    let r = bg_rule_from_toggles("x.exe".to_string(), true, true, true, 50, true);
    assert_eq!(r.name, "x.exe");
    assert!(r.suspend);
    assert_eq!(r.priority, Some(PriorityClass::BelowNormal));
    assert_eq!(r.qos_cpu_quota, Some(50));
    assert!(r.trim_memory);
    assert!(r.affinity.is_none());

    let r2 = bg_rule_from_toggles("y.exe".to_string(), false, false, false, 30, false);
    assert_eq!(r2.name, "y.exe");
    assert!(!r2.suspend);
    assert_eq!(r2.priority, None);
    assert_eq!(r2.qos_cpu_quota, None);
    assert!(!r2.trim_memory);
    assert!(r2.affinity.is_none());
}

#[test]
fn priority_roundtrip_combo_index() {
    let all = [
        PriorityClass::Idle,
        PriorityClass::BelowNormal,
        PriorityClass::Normal,
        PriorityClass::AboveNormal,
        PriorityClass::High,
        PriorityClass::Realtime,
    ];
    for (idx, p) in all.iter().enumerate() {
        assert_eq!(priority_to_idx(*p), idx, "priority_to_idx({p:?})");
        assert_eq!(idx_to_priority(idx), Some(*p), "idx_to_priority({idx})");
    }
    assert_eq!(idx_to_priority(6), None, "out-of-range index");
    assert_eq!(idx_to_priority(usize::MAX), None);
}

#[test]
fn parse_affinity_text() {
    assert!(parse_affinity("").unwrap().is_none());
    assert!(parse_affinity("   ").unwrap().is_none());
    let a = parse_affinity("0,1,2").unwrap().unwrap();
    assert_eq!(a.cores, vec![0u8, 1, 2]);
    let a2 = parse_affinity("0, 4").unwrap().unwrap();
    assert_eq!(a2.cores, vec![0u8, 4]);
    assert!(parse_affinity("0,,").is_err(), "empty token rejected");
    assert!(parse_affinity("abc").is_err(), "non-numeric rejected");
    assert!(parse_affinity("64").is_err(), "core index >= 64 rejected");
}

#[test]
fn parse_qos_text() {
    assert_eq!(parse_qos("").unwrap(), None);
    assert_eq!(parse_qos("   ").unwrap(), None);
    assert_eq!(parse_qos("50").unwrap(), Some(50));
    assert_eq!(parse_qos("100").unwrap(), Some(100));
    assert!(parse_qos("0").is_err(), "quota 0 rejected");
    assert!(parse_qos("101").is_err(), "quota > 100 rejected");
    assert!(parse_qos("abc").is_err(), "non-numeric rejected");
}

#[test]
fn affinity_messages() {
    assert_eq!(parse_affinity(" 0,,1 ").unwrap_err(), "empty core in '0,,1'");
    assert_eq!(parse_affinity("1, x").unwrap_err(), "bad core 'x'");
    assert_eq!(parse_affinity("1,256").unwrap_err(), "bad core '256'");
    assert_eq!(parse_affinity("1,200").unwrap_err(), "core 200 >= 64");
    assert_eq!(parse_affinity("+3").unwrap().unwrap().cores, vec![3]);
    assert!(parse_affinity("-3").is_err());
}

#[test]
fn quota_messages() {
    assert_eq!(parse_qos("x1").unwrap_err(), "bad number 'x1'");
    assert_eq!(parse_qos("4294967296").unwrap_err(), "bad number '4294967296'");
    assert_eq!(parse_qos("4294967295").unwrap_err(), "must be 1..=100, got 4294967295");
    assert_eq!(parse_qos(" 0 ").unwrap_err(), "must be 1..=100, got 0");
}

#[test]
fn affinity_text_reads_back() {
    for cores in [vec![0u8], vec![63, 0, 7], vec![10, 10]] {
        let text = affinity_text(&cores);
        assert_eq!(parse_affinity(&text).unwrap().unwrap().cores, cores);
    }
    assert_eq!(affinity_text(&vec![63, 0, 7]), "63,0,7");
    assert_eq!(affinity_text(&vec![]), "");
}

#[test]
fn texts_by_language() {
    assert_eq!(tr(Lang::En, "btn_save"), "Save");
    assert_eq!(tr(Lang::Zh, "btn_save"), "保存");
    assert_eq!(tr(Lang::En, "no such key"), "");
    assert_eq!(keys().len(), 69);
}
