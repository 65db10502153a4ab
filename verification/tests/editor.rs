//! The rule editor.

use aetheris::config::{AffinitySpec, BackgroundRule, Config, GameConfig, PriorityClass};
use aetheris::editor::{checked_names, IpcCall, ListKind, RowFields, Toggles, UiState};
use aetheris::i18n::Lang;
use aetheris::ipc::{Response, StateSnapshot};

fn rule(name: &str) -> BackgroundRule {
    BackgroundRule { name: name.into(), ..Default::default() }
}

fn loaded() -> UiState {
    let mut s = UiState::new(Lang::En);
    let cfg = Config {
        game: GameConfig {
            processes: vec!["g1".into(), "g2".into()],
            boost_on_start: true,
            ..Default::default()
        },
        background: vec![
            BackgroundRule { suspend: true, qos_cpu_quota: Some(70), ..rule("b1") },
            rule("b2"),
        ],
        protected_extra: vec!["keep".into()],
        ..Default::default()
    };
    s.on_get_config_result(Ok(Response::Config(cfg)));
    s
}

fn off() -> Toggles {
    Toggles {
        suspend: false,
        low_priority: false,
        cpu_limit: false,
        cpu_level: 1,
        trim_memory: false,
    }
}

fn names(cfg: &Config) -> Vec<&str> {
    cfg.background.iter().map(|b| b.name.as_str()).collect()
}

#[test]
fn numbers_of_calls_and_lists() {
    for c in [IpcCall::GetConfig, IpcCall::GetState, IpcCall::Save] {
        assert_eq!(IpcCall::from_wparam(c.as_wparam()), Some(c));
    }
    assert_eq!(IpcCall::from_wparam(3), None);
    for k in [ListKind::Game, ListKind::Background] {
        assert_eq!(ListKind::from_usize(k.to_usize()), Some(k));
    }
    assert_eq!(ListKind::from_usize(2), None);
}

#[test]
fn nothing_is_saved_before_the_configuration_is_there() {
    let mut s = UiState::new(Lang::En);
    assert_eq!(s.result, "Loading config from service…");
    assert!(s.do_save(&vec![], &vec![], &off()).is_none());
    assert_eq!(s.result, "Config not loaded from service — cannot save");
    s.on_get_config_result(Err("down".into()));
    assert_eq!(s.result, "Config load failed: down");
    s.on_get_state_result(Err("down".into()));
    assert_eq!(s.result, "Config load failed: down", "the load error stays");
    assert!(s.do_save(&vec![], &vec![], &off()).is_none());
    s.on_get_config_result(Ok(Response::Reload("?".into())));
    assert_eq!(s.result, "Unexpected response");
}

#[test]
fn loaded_configuration_sets_the_options() {
    let mut s = loaded();
    assert_eq!(s.result, "Config loaded from service");
    assert_eq!(s.cpu_level, 2);
    let t = s.sync_toggles_from_cfg();
    assert_eq!(
        t,
        Toggles {
            suspend: true,
            low_priority: false,
            cpu_limit: true,
            cpu_level: 2,
            trim_memory: false
        }
    );
}

#[test]
fn save_takes_checked_rows_and_the_global_options() {
    let mut s = loaded();
    let t = Toggles { low_priority: true, cpu_limit: true, cpu_level: 0, ..off() };
    let cfg = s.do_save(&vec![false, true], &vec![true, false], &t).unwrap();
    assert_eq!(cfg.game.processes, vec!["g2"]);
    assert!(cfg.game.boost_on_start);
    assert_eq!(cfg.protected_extra, vec!["keep"]);
    assert_eq!(names(&cfg), vec!["b1"]);
    assert_eq!(cfg.background[0].priority, Some(PriorityClass::BelowNormal));
    assert_eq!(cfg.background[0].qos_cpu_quota, Some(30));
    assert!(!cfg.background[0].suspend);
    assert!(s.save_in_flight);
    assert_eq!(names(&s.cfg), vec!["b1"]);
    assert!(s.do_save(&vec![], &vec![], &off()).is_none());
    assert_eq!(s.result, "Save already in progress");
}

#[test]
fn invalid_configuration_is_not_sent() {
    let mut s = loaded();
    s.append_name(ListKind::Background, "csrss.exe");
    let t = Toggles { suspend: true, ..off() };
    assert!(s.do_save(&vec![true, true], &vec![true, true, true], &t).is_none());
    assert_eq!(
        s.result,
        "Config invalid: validation: rule 'csrss.exe' targets a protected process with suspend/trim"
    );
    assert!(!s.save_in_flight);
    assert_eq!(s.cfg.background.len(), 3);
}

#[test]
fn names_are_added_once() {
    let mut s = loaded();
    s.append_name(ListKind::Game, "  new.exe ");
    s.append_name(ListKind::Game, "new.exe");
    assert_eq!(s.cfg.game.processes, vec!["g1", "g2", "new.exe"]);
    assert_eq!(s.result, "Added: new.exe");
    s.append_name(ListKind::Background, "b1");
    assert_eq!(s.cfg.background.len(), 2);
    s.set_result("x");
    s.append_name(ListKind::Background, "  ");
    assert_eq!(s.result, "x");
}

#[test]
fn edited_row_survives_a_save() {
    let mut s = loaded();
    let fields = RowFields {
        name: "b2".into(),
        priority_idx: 4,
        affinity: "0, 2".into(),
        qos: "45".into(),
        suspend: false,
        trim_memory: true,
    };
    assert!(!s.apply_advanced(Some(1), 2, &fields));
    assert_eq!(s.result, "Applied to the row");
    let t = Toggles { suspend: true, ..off() };
    let cfg = s.do_save(&vec![true, true], &vec![true, true], &t).unwrap();
    assert!(cfg.background[0].suspend);
    let edited = &cfg.background[1];
    assert_eq!(edited.priority, Some(PriorityClass::High));
    assert_eq!(edited.affinity.as_ref().unwrap().cores, vec![0, 2]);
    assert_eq!(edited.qos_cpu_quota, Some(45));
    assert!(edited.trim_memory && !edited.suspend);
    assert_eq!(s.overrides.len(), 1);
    assert!(s.on_save_result(Ok(Response::SaveConfig(Ok("saved".into()))), false).is_none());
    assert_eq!(s.result, "Saved: saved");
    // Without the row its override goes too.
    s.do_save(&vec![true, true], &vec![true, false], &t).unwrap();
    assert!(s.overrides.is_empty());
}

#[test]
fn renaming_moves_the_override() {
    let mut s = loaded();
    let mut f = s.load_selected_row(Some(0), 2).unwrap();
    assert_eq!((f.name.as_str(), f.priority_idx, f.qos.as_str()), ("b1", 2, "70"));
    f.name = " c1 ".into();
    assert!(s.apply_advanced(Some(0), 2, &f));
    assert_eq!(names(&s.cfg), vec!["c1", "b2"]);
    assert_eq!(s.overrides.len(), 1);
    assert_eq!(s.overrides[0].name, "c1");
    f.name = "d1".into();
    assert!(s.apply_advanced(None, 2, &f));
    assert_eq!(s.overrides.len(), 1);
    assert_eq!(s.load_selected_row(None, 2).unwrap().name, "d1");
}

#[test]
fn bad_fields_change_nothing() {
    let mut s = loaded();
    let good = RowFields {
        name: "b1".into(),
        priority_idx: 2,
        affinity: "".into(),
        qos: "".into(),
        suspend: false,
        trim_memory: false,
    };
    let try_with = |s: &mut UiState, f: RowFields| {
        assert!(!s.apply_advanced(Some(0), 2, &f));
        assert!(s.overrides.is_empty());
        s.result.clone()
    };
    let copy = |f: &RowFields| RowFields {
        name: f.name.clone(),
        affinity: f.affinity.clone(),
        qos: f.qos.clone(),
        ..*f
    };
    let mut f = copy(&good);
    f.name = "  ".into();
    assert_eq!(try_with(&mut s, f), "Name must not be empty");
    let mut f = copy(&good);
    f.affinity = "0,64".into();
    assert_eq!(try_with(&mut s, f), "Invalid affinity: core 64 >= 64");
    let mut f = copy(&good);
    f.qos = "0".into();
    assert_eq!(try_with(&mut s, f), "Invalid QoS: must be 1..=100, got 0");
    s.set_result("-");
    assert!(!s.apply_advanced(Some(9), 10, &good));
    assert_eq!(s.result, "-");
    assert!(!s.apply_advanced(None, 0, &good));
    assert_eq!(s.result, "Select a background-app row first");
}

#[test]
fn fields_show_the_rule() {
    let mut s = loaded();
    s.cfg.background[0].affinity = Some(AffinitySpec { cores: vec![5, 6] });
    s.cfg.background[0].priority = Some(PriorityClass::Idle);
    let f = s.toggle_advanced(None, 2).unwrap();
    assert_eq!((f.affinity.as_str(), f.priority_idx), ("5,6", 0));
    assert!(s.advanced_expanded);
    assert_eq!(s.advanced_button_text(), "Advanced ▾");
    assert!(s.toggle_advanced(None, 2).is_none());
    assert_eq!(s.advanced_button_text(), "Advanced ▸");
    assert!(s.toggle_advanced(None, 0).is_none());
    assert_eq!(s.result, "Select a background-app row first");
    assert!(s.load_selected_row(Some(5), 6).is_none());
}

#[test]
fn state_answers() {
    let mut s = loaded();
    assert_eq!(s.status_text(), "Not running");
    assert!(s.start_status_probe());
    assert!(!s.start_status_probe());
    let state = StateSnapshot { mode: "Normal".into(), ..Default::default() };
    s.on_get_state_result(Ok(Response::State(state)));
    assert!(!s.status_probe_in_flight && s.tray_running);
    assert_eq!(s.status_text(), "Optimizing");
    assert_eq!(s.result, "Status refreshed");
    s.on_get_state_result(Err("no pipe".into()));
    assert!(!s.tray_running);
    assert_eq!(s.result, "Status refresh failed: no pipe");
    s.on_get_state_result(Ok(Response::Reload("x".into())));
    assert_eq!(s.result, "Unexpected response");
    assert_eq!(s.toggle_language(), Lang::Zh);
    assert_eq!(s.status_text(), "未运行");
    assert_eq!(s.toggle_language(), Lang::En);
}

#[test]
fn save_answers() {
    let mut s = loaded();
    let refused = || Ok(Response::SaveConfig(Err("requires elevation".to_string())));
    s.set_result("before");
    assert_eq!(s.on_save_result(refused(), false).as_deref(), Some("requires elevation"));
    assert_eq!(s.result, "before", "nothing is said while the offer is open");
    s.on_save_elevation("requires elevation", true);
    assert_eq!(s.result, "before");
    s.on_save_elevation("requires elevation", false);
    assert_eq!(s.result, "Save failed: requires elevation");
    s.set_result("before");
    assert!(s.on_save_result(refused(), true).is_none());
    assert_eq!(s.result, "Save failed: requires elevation");
    let full = Ok(Response::SaveConfig(Err("disk full".into())));
    assert!(s.on_save_result(full, false).is_none());
    assert_eq!(s.result, "Save failed: disk full");
    assert!(s.on_save_result(Err("pipe".into()), false).is_none());
    assert_eq!(s.result, "Save failed: pipe");
    assert!(s.on_save_result(Ok(Response::Process(None)), false).is_none());
    assert_eq!(s.result, "Unexpected response");
}

#[test]
fn untouched_save_keeps_a_uniform_configuration() {
    let mut s = loaded();
    s.cfg.background[1] =
        BackgroundRule { suspend: true, qos_cpu_quota: Some(70), ..rule("b2") };
    let before = format!("{:?}", s.cfg);
    let t = s.sync_toggles_from_cfg();
    let cfg = s.do_save(&vec![true, true], &vec![true, true], &t).unwrap();
    assert_eq!(format!("{cfg:?}"), before);
}

#[test]
fn checked_entries() {
    let list = vec!["a".to_string(), "b".to_string(), "c".to_string()];
    assert_eq!(checked_names(&list, &vec![true, false, true]), vec!["a", "c"]);
    assert_eq!(checked_names(&list, &vec![true]), vec!["a"]);
    assert!(checked_names(&list, &vec![]).is_empty());
}
