//! The policy engine over a backend that records what it is asked.

use std::sync::{Arc, Mutex};

use aetheris::actions::{
    ActionError, ProcState, ProcessBackend, QosLifecycle, TargetAction,
};
use aetheris::config::{
    AlwaysRule, BackgroundRule, Config, GameConfig, NetworkConfig, OverlayConfig, PriorityClass,
};
use aetheris::events::{ForegroundEvent, ProcessEvent, ProcessKind};
use aetheris::network::{decode_marker, BackupEntry};
use aetheris::policy::{refusal, Mode, PolicyEngine};

#[derive(Default, Clone, Debug)]
struct Call {
    pid: u32,
    action: Option<TargetAction>,
    restore: Option<ProcState>,
}

#[derive(Default, Clone)]
struct RecordingBackend {
    calls: Arc<Mutex<Vec<Call>>>,
    exits: Arc<Mutex<Vec<u32>>>,
    clears: Arc<Mutex<u32>>,
    /// Everything in order: a word and the process, if the call is about one.
    log: Arc<Mutex<Vec<String>>>,
    marker: Arc<Mutex<Option<Vec<u8>>>>,
    fail_snapshot: bool,
    fail_suspend: bool,
    fail_network: bool,
    fail_revert: bool,
    backup: Vec<BackupEntry>,
}

impl RecordingBackend {
    fn calls(&self) -> Vec<Call> {
        self.calls.lock().unwrap().clone()
    }

    fn note(&self, what: impl Into<String>) {
        self.log.lock().unwrap().push(what.into());
    }

    fn log(&self) -> Vec<String> {
        self.log.lock().unwrap().clone()
    }
}

impl QosLifecycle for RecordingBackend {
    fn on_process_exit(&mut self, pid: u32) {
        self.exits.lock().unwrap().push(pid);
    }

    fn clear_all_qos(&mut self) {
        *self.clears.lock().unwrap() += 1;
        self.note("clear");
    }

    fn apply_network(&mut self, nagle: bool, netbios: bool) -> Result<Vec<BackupEntry>, String> {
        self.note(format!("network {nagle} {netbios}"));
        if self.fail_network {
            return Err("no adapters".into());
        }
        Ok(self.backup.clone())
    }

    fn revert_network(&mut self, backup: &Vec<BackupEntry>) -> Vec<bool> {
        assert_eq!(*backup, self.backup);
        self.note("revert");
        (0..backup.len()).map(|i| i > 0 || !self.fail_revert).collect()
    }

    fn purge_standby(&mut self) -> Result<(), ActionError> {
        self.note("purge");
        Ok(())
    }

    fn read_marker(&mut self, _path: &str) -> Option<Vec<u8>> {
        self.marker.lock().unwrap().clone()
    }

    fn write_marker(&mut self, path: &str, bytes: &Vec<u8>) -> Result<(), String> {
        self.note(format!("write {path}"));
        *self.marker.lock().unwrap() = Some(bytes.clone());
        Ok(())
    }

    fn remove_marker(&mut self, path: &str) {
        self.note(format!("remove {path}"));
        *self.marker.lock().unwrap() = None;
    }
}

impl ProcessBackend for RecordingBackend {
    fn snapshot(&mut self, _pid: u32) -> Result<ProcState, ActionError> {
        if self.fail_snapshot {
            return Err(ActionError::Open(5));
        }
        Ok(ProcState { priority: 0, affinity: 1, suspended: false, qos_percent: None })
    }

    fn apply(&mut self, pid: u32, action: &TargetAction) -> Result<(), ActionError> {
        self.note(format!("apply {pid}"));
        self.calls.lock().unwrap().push(Call { pid, action: Some(*action), restore: None });
        if self.fail_suspend && *action == TargetAction::Suspend {
            return Err(ActionError::Api("refused".into()));
        }
        Ok(())
    }

    fn restore(&mut self, pid: u32, state: &ProcState) -> Result<(), ActionError> {
        self.note(format!("restore {pid}"));
        self.calls.lock().unwrap().push(Call { pid, action: None, restore: Some(*state) });
        Ok(())
    }
}

fn cfg() -> Config {
    Config {
        game: GameConfig {
            boost_on_start: true,
            processes: vec!["game.exe".into()],
            purge_standby_on_boost: false,
        },
        background: vec![BackgroundRule {
            name: "browser.exe".into(),
            suspend: true,
            priority: Some(PriorityClass::BelowNormal),
            affinity: None,
            qos_cpu_quota: None,
            trim_memory: false,
        }],
        rule: vec![],
        protected_extra: vec![],
        network: NetworkConfig::default(),
        overlay: OverlayConfig::default(),
    }
}

fn start(pid: u32, name: &str) -> ProcessEvent {
    ProcessEvent { pid, name: name.into(), parent_pid: 0, kind: ProcessKind::Start }
}

fn stop(pid: u32, name: &str) -> ProcessEvent {
    ProcessEvent { pid, name: name.into(), parent_pid: 0, kind: ProcessKind::Stop }
}

#[test]
fn game_start_boosts_background() {
    let backend = RecordingBackend::default();
    let mut eng = PolicyEngine::new(cfg(), backend.clone());
    eng.on_process_event(&start(100, "browser.exe"));
    eng.on_process_event(&start(200, "game.exe"));
    assert_eq!(eng.mode(), Mode::GameBoost);
    let calls = backend.calls();
    let actions: Vec<&TargetAction> = calls
        .iter()
        .filter(|c| c.pid == 100 && c.action.is_some())
        .map(|c| c.action.as_ref().unwrap())
        .collect();
    assert!(actions.contains(&&TargetAction::Priority(PriorityClass::BelowNormal)));
    assert!(actions.contains(&&TargetAction::Suspend));
    assert!(eng.boosted().contains_key(&100));
}

#[test]
fn game_exit_restores_background() {
    let backend = RecordingBackend::default();
    let mut eng = PolicyEngine::new(cfg(), backend.clone());
    eng.on_process_event(&start(100, "browser.exe"));
    eng.on_process_event(&start(200, "game.exe"));
    assert_eq!(eng.mode(), Mode::GameBoost);
    eng.on_process_event(&stop(200, "game.exe"));
    assert_eq!(eng.mode(), Mode::Normal);
    assert!(eng.boosted().is_empty());
    let calls = backend.calls();
    assert!(calls.iter().any(|c| c.pid == 100 && c.restore.is_some()));
}

#[test]
fn smart_suspend_resumes_on_foreground_and_reesuspends_on_leave() {
    let backend = RecordingBackend::default();
    let mut eng = PolicyEngine::new(cfg(), backend.clone());
    eng.on_process_event(&start(100, "browser.exe"));
    eng.on_process_event(&start(200, "game.exe"));
    assert!(eng.boosted().get(&100).map(|s| s.suspended).unwrap_or(false));

    eng.on_foreground(&ForegroundEvent { pid: 100 });
    let calls = backend.calls();
    assert!(
        calls.iter().any(|c| c.pid == 100 && c.action == Some(TargetAction::Resume)),
        "foreground process must be resumed"
    );

    let mark = backend.calls().len();
    eng.on_foreground(&ForegroundEvent { pid: 300 });
    let calls = backend.calls();
    assert!(
        calls
            .iter()
            .skip(mark)
            .any(|c| c.pid == 100 && c.action == Some(TargetAction::Suspend)),
        "leaving foreground must re-suspend"
    );

    eng.on_process_event(&stop(200, "game.exe"));
    let calls = backend.calls();
    assert!(calls.iter().any(|c| c.pid == 100 && c.restore.is_some()));
}

#[test]
fn background_start_during_boost_is_boosted() {
    let backend = RecordingBackend::default();
    let mut eng = PolicyEngine::new(cfg(), backend.clone());
    eng.on_process_event(&start(200, "game.exe"));
    assert_eq!(eng.mode(), Mode::GameBoost);
    eng.on_process_event(&start(100, "browser.exe"));
    assert!(eng.boosted().contains_key(&100));
    let calls = backend.calls();
    assert!(calls.iter().any(|c| c.pid == 100 && c.action == Some(TargetAction::Suspend)));
}

#[test]
fn foreground_trigger_with_boost_on_start_false() {
    let mut c = cfg();
    c.game.boost_on_start = false;
    let backend = RecordingBackend::default();
    let mut eng = PolicyEngine::new(c, backend.clone());
    eng.on_process_event(&start(300, "browser.exe"));
    eng.on_process_event(&start(200, "game.exe"));
    eng.on_foreground(&ForegroundEvent { pid: 200 });
    assert_eq!(eng.mode(), Mode::GameBoost);
    assert!(eng.boosted().contains_key(&300));
}

#[test]
fn boost_on_start_false_defers_to_foreground() {
    let mut c = cfg();
    c.game.boost_on_start = false;
    let backend = RecordingBackend::default();
    let mut eng = PolicyEngine::new(c, backend.clone());
    eng.on_process_event(&start(200, "game.exe"));
    assert_eq!(
        eng.mode(),
        Mode::Normal,
        "start event must NOT enter GameBoost when boost_on_start=false"
    );
    eng.on_foreground(&ForegroundEvent { pid: 200 });
    assert_eq!(eng.mode(), Mode::GameBoost, "foreground event enters GameBoost");
}

#[test]
fn protected_process_never_boosted() {
    let backend = RecordingBackend::default();
    let mut eng = PolicyEngine::new(cfg(), backend.clone());
    eng.on_process_event(&start(200, "game.exe"));
    eng.on_process_event(&start(100, "csrss.exe"));
    assert!(!eng.boosted().contains_key(&100));
}

#[test]
fn config_reload_exits_boost_cleanly() {
    let backend = RecordingBackend::default();
    let mut eng = PolicyEngine::new(cfg(), backend.clone());
    eng.on_process_event(&start(100, "browser.exe"));
    eng.on_process_event(&start(200, "game.exe"));
    assert_eq!(eng.mode(), Mode::GameBoost);
    eng.on_process_event(&stop(200, "game.exe"));
    assert_eq!(eng.mode(), Mode::Normal);
    eng.set_config(cfg());
    assert_eq!(eng.mode(), Mode::Normal);
    assert!(eng.boosted().is_empty());
    let calls = backend.calls();
    assert!(calls.iter().any(|c| c.pid == 100 && c.restore.is_some()));
}

#[test]
fn set_config_reenters_gameboost_for_running_game() {
    let backend = RecordingBackend::default();
    let mut eng = PolicyEngine::new(cfg(), backend.clone());
    eng.on_process_event(&start(100, "browser.exe"));
    eng.on_process_event(&start(200, "game.exe"));
    assert_eq!(eng.mode(), Mode::GameBoost);
    eng.set_config(cfg());
    assert_eq!(eng.mode(), Mode::GameBoost, "running game must re-enter after reload");
    assert!(eng.boosted().contains_key(&100), "browser re-boosted on re-entry");
    let calls = backend.calls();
    assert!(calls
        .iter()
        .any(|c| c.pid == 100 && c.action == Some(TargetAction::Suspend)));
}

#[test]
fn set_config_reenters_gameboost_for_all_running_games() {
    let mut c = cfg();
    c.game.processes = vec!["game.exe".into(), "game2.exe".into()];
    let backend = RecordingBackend::default();
    let mut eng = PolicyEngine::new(c.clone(), backend.clone());
    eng.on_process_event(&start(100, "browser.exe"));
    eng.on_process_event(&start(200, "game.exe"));
    eng.on_process_event(&start(201, "game2.exe"));
    assert_eq!(eng.mode(), Mode::GameBoost);

    eng.set_config(c.clone());
    assert_eq!(eng.mode(), Mode::GameBoost, "running games must re-enter after reload");

    eng.on_process_event(&stop(201, "game2.exe"));
    assert_eq!(eng.mode(), Mode::Normal, "stopping a tracked game ends GameBoost");
    assert!(eng.boosted().is_empty(), "boosted map cleared when GameBoost ends");
}

#[test]
fn combined_matcher_first_match_order() {
    let mut c = cfg();
    c.background = vec![
        BackgroundRule { name: "browser".into(), suspend: false, ..Default::default() },
        BackgroundRule { name: "browser.exe".into(), suspend: true, ..Default::default() },
    ];
    let backend = RecordingBackend::default();
    let mut eng = PolicyEngine::new(c, backend.clone());
    eng.on_process_event(&start(200, "game.exe"));
    eng.on_process_event(&start(100, "browser.exe"));
    let calls = backend.calls();
    assert!(!calls.iter().any(|c| c.pid == 100 && c.action == Some(TargetAction::Suspend)));
}

#[test]
fn overlapping_rules_preserve_config_order_precedence() {
    let mut c = cfg();
    c.background = vec![
        BackgroundRule { name: "updater.exe".into(), suspend: true, ..Default::default() },
        BackgroundRule { name: "updater".into(), suspend: false, ..Default::default() },
    ];
    let backend = RecordingBackend::default();
    let mut eng = PolicyEngine::new(c, backend.clone());
    eng.on_process_event(&start(200, "game.exe"));
    eng.on_process_event(&start(100, "updater.exe"));
    let calls = backend.calls();
    assert!(calls.iter().any(|c| c.pid == 100 && c.action == Some(TargetAction::Suspend)));
}

#[test]
fn is_protected_is_allocation_free_on_hit() {
    let c = cfg();
    let eng = PolicyEngine::new(c, RecordingBackend::default());
    assert!(eng.is_protected("CSRSS.EXE"));
    assert!(!eng.is_protected("browser.exe"));
}

#[test]
fn always_rule_applies_in_normal_mode() {
    let mut c = cfg();
    c.rule = vec![AlwaysRule {
        name: "updater.exe".into(),
        priority: Some(PriorityClass::Idle),
        affinity: None,
    }];
    let backend = RecordingBackend::default();
    let mut eng = PolicyEngine::new(c, backend.clone());
    eng.on_process_event(&start(100, "updater.exe"));
    assert_eq!(eng.mode(), Mode::Normal);
    let calls = backend.calls();
    assert!(calls
        .iter()
        .any(|c| c.pid == 100 && c.action == Some(TargetAction::Priority(PriorityClass::Idle))));
}

#[test]
fn exit_clears_all_caps_and_reports_exits() {
    let backend = RecordingBackend::default();
    let mut eng = PolicyEngine::new(cfg(), backend.clone());
    eng.on_process_event(&start(100, "browser.exe"));
    eng.on_process_event(&start(200, "game.exe"));
    assert_eq!(*backend.clears.lock().unwrap(), 0);
    eng.on_process_event(&stop(200, "game.exe"));
    assert_eq!(*backend.clears.lock().unwrap(), 1);
    assert_eq!(*backend.exits.lock().unwrap(), vec![200]);
    eng.exit_game_mode();
    assert_eq!(*backend.clears.lock().unwrap(), 1, "nothing to leave in normal mode");
}

#[test]
fn restored_state_tells_what_was_applied() {
    let mut c = cfg();
    c.background[0].qos_cpu_quota = Some(40);
    let backend = RecordingBackend::default();
    let mut eng = PolicyEngine::new(c, backend.clone());
    eng.on_process_event(&start(100, "Browser.EXE"));
    eng.on_process_event(&start(200, "GAME.exe"));
    let state = *eng.boosted().get(&100).unwrap();
    assert!(state.suspended);
    assert_eq!(state.qos_percent, Some(40));
    let actions: Vec<TargetAction> =
        backend.calls().iter().filter_map(|c| c.action).collect();
    assert_eq!(
        actions,
        vec![
            TargetAction::Priority(PriorityClass::BelowNormal),
            TargetAction::QosCpuQuota { percent: 40 },
            TargetAction::Suspend,
        ]
    );
}

#[test]
fn failed_action_is_not_noted() {
    let backend = RecordingBackend { fail_suspend: true, ..Default::default() };
    let mut eng = PolicyEngine::new(cfg(), backend.clone());
    eng.on_process_event(&start(100, "browser.exe"));
    eng.on_process_event(&start(200, "game.exe"));
    assert!(!eng.boosted().get(&100).unwrap().suspended);
    let mark = backend.calls().len();
    eng.on_foreground(&ForegroundEvent { pid: 100 });
    assert_eq!(backend.calls().len(), mark, "a process that was never suspended is not resumed");
}

#[test]
fn process_that_cannot_be_read_is_not_boosted() {
    let backend = RecordingBackend { fail_snapshot: true, ..Default::default() };
    let mut eng = PolicyEngine::new(cfg(), backend.clone());
    eng.on_process_event(&start(100, "browser.exe"));
    eng.on_process_event(&start(200, "game.exe"));
    assert_eq!(eng.mode(), Mode::GameBoost);
    assert!(eng.boosted().is_empty());
    assert!(backend.calls().is_empty());
}

fn entry(name: &str, old: Option<u32>) -> BackupEntry {
    BackupEntry { path: "p".into(), value_name: name.into(), old }
}

fn network_cfg() -> Config {
    let mut c = cfg();
    c.network = NetworkConfig { enabled: true, nagle: true, netbios: false };
    c.game.purge_standby_on_boost = true;
    c
}

#[test]
fn system_comes_before_processes() {
    let backup = vec![entry("v", Some(7)), entry("w", None)];
    let backend = RecordingBackend { backup: backup.clone(), ..Default::default() };
    let mut eng = PolicyEngine::new(network_cfg(), backend.clone());
    eng.set_network_marker("marker.bin".into());
    eng.on_process_event(&start(100, "browser.exe"));
    eng.on_process_event(&start(200, "game.exe"));
    assert_eq!(
        backend.log(),
        ["network true false", "write marker.bin", "purge", "apply 100", "apply 100"]
    );
    let bytes = backend.marker.lock().unwrap().clone().unwrap();
    assert_eq!(decode_marker(&bytes), Some(backup));
    backend.log.lock().unwrap().clear();
    eng.on_process_event(&stop(200, "game.exe"));
    assert_eq!(backend.log(), ["revert", "remove marker.bin", "restore 100", "clear"]);
    assert!(backend.marker.lock().unwrap().is_none());
}

#[test]
fn partial_revert_keeps_the_marker() {
    let backend = RecordingBackend {
        backup: vec![entry("v", Some(7)), entry("w", None)],
        fail_revert: true,
        ..Default::default()
    };
    let mut eng = PolicyEngine::new(network_cfg(), backend.clone());
    eng.set_network_marker("m".into());
    eng.on_process_event(&start(200, "game.exe"));
    eng.exit_game_mode();
    assert_eq!(backend.log(), ["network true false", "write m", "purge", "revert", "clear"]);
    assert!(backend.marker.lock().unwrap().is_some());
}

#[test]
fn without_tweaks_nothing_is_reverted() {
    let mut c = network_cfg();
    c.game.purge_standby_on_boost = false;
    let failing = RecordingBackend { fail_network: true, ..Default::default() };
    let mut eng = PolicyEngine::new(c.clone(), failing.clone());
    eng.on_process_event(&start(200, "game.exe"));
    eng.exit_game_mode();
    assert_eq!(failing.log(), ["network true false", "clear"]);

    let empty = RecordingBackend::default();
    let mut eng = PolicyEngine::new(c, empty.clone());
    eng.set_network_marker("m".into());
    eng.on_process_event(&start(200, "game.exe"));
    assert_eq!(empty.log(), ["network true false"], "an empty backup has no marker");
    eng.exit_game_mode();
    assert_eq!(empty.log(), ["network true false", "revert", "remove m", "clear"]);
}

#[test]
fn game_in_the_foreground_is_boosted_also_when_games_are_boosted_on_start() {
    let mut c = cfg();
    c.game.processes = vec!["game.exe".into(), "game2.exe".into()];
    let mut eng = PolicyEngine::new(c, RecordingBackend::default());
    eng.on_process_event(&start(200, "game.exe"));
    eng.on_process_event(&start(201, "game2.exe"));
    eng.on_process_event(&stop(200, "game.exe"));
    assert_eq!(eng.mode(), Mode::Normal);
    eng.on_foreground(&ForegroundEvent { pid: 201 });
    assert_eq!(eng.mode(), Mode::GameBoost);
    eng.on_process_event(&start(300, "editor.exe"));
    eng.on_foreground(&ForegroundEvent { pid: 300 });
    assert_eq!(eng.mode(), Mode::GameBoost, "leaving the foreground ends no boost");
    eng.on_process_event(&stop(201, "game2.exe"));
    assert_eq!(eng.mode(), Mode::Normal);
}

#[test]
fn order_of_starts_does_not_matter() {
    let run = |events: [ProcessEvent; 2]| {
        let backend = RecordingBackend::default();
        let mut eng = PolicyEngine::new(cfg(), backend.clone());
        for ev in &events {
            eng.on_process_event(ev);
        }
        assert_eq!(eng.mode(), Mode::GameBoost);
        let kept = eng.boosted()[&100];
        (backend.log(), kept.priority, kept.suspended)
    };
    let before = run([start(100, "browser.exe"), start(200, "game.exe")]);
    let after = run([start(200, "game.exe"), start(100, "browser.exe")]);
    assert_eq!(before, after);
    assert_eq!(before.0, ["apply 100", "apply 100"]);
}

#[test]
fn configuration_that_cannot_run_is_refused() {
    let mut c = cfg();
    c.background[0].affinity = Some(aetheris::config::AffinitySpec { cores: vec![64] });
    assert!(PolicyEngine::try_new(c.clone(), RecordingBackend::default()).is_none());
    assert_eq!(refusal(&c).as_deref(), Some("affinity core above 63"));
    assert_eq!(refusal(&cfg()), None);
    let mut eng = PolicyEngine::try_new(cfg(), RecordingBackend::default()).unwrap();
    eng.on_process_event(&start(200, "game.exe"));
    assert!(!eng.try_set_config(c));
    assert_eq!(eng.mode(), Mode::GameBoost);
    assert!(eng.try_set_config(cfg()));
    assert_eq!(eng.cfg().game.processes, vec!["game.exe".to_string()]);
}

#[test]
fn queries_of_the_engine() {
    let mut eng = PolicyEngine::new(cfg(), RecordingBackend::default());
    eng.on_process_event(&start(7, "a.exe"));
    assert_eq!(eng.pid_name(7), Some("a.exe".to_string()));
    assert_eq!(eng.pid_name(8), None);
    assert_eq!(eng.iter_processes(), vec![(7, "a.exe", false)]);
    assert!(eng.is_game("x-GAME.EXE-y"));
    assert_eq!(eng.backend().calls().len(), 0);
    eng.reenter_if_game_running();
    assert_eq!(eng.mode(), Mode::Normal);
}
