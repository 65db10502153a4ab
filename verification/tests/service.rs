//! The service over a backend that agrees with everything.

use aetheris::actions::{ActionError, ProcState, ProcessBackend, QosLifecycle, TargetAction};
use aetheris::config::{AffinitySpec, BackgroundRule, Config, ConfigError, GameConfig, PriorityClass};
use aetheris::events::{ForegroundEvent, ProcessEvent, ProcessKind};
use aetheris::network::{encode_marker, BackupEntry};
use aetheris::service::{
    accumulate, busy_share, sampled_cpus, Admission, CpuTimes, LoadLimiter, LoadSample, Service,
    ServiceMsg, SNAPSHOT_REFRESH_INTERVAL,
};

#[derive(Default)]
struct Agreeable {
    markers: Vec<String>,
    left_behind: Option<Vec<u8>>,
    reverted: Vec<BackupEntry>,
}

impl ProcessBackend for Agreeable {
    fn snapshot(&mut self, _pid: u32) -> Result<ProcState, ActionError> {
        Ok(ProcState { priority: 0x20, affinity: 1, suspended: false, qos_percent: None })
    }

    fn apply(&mut self, _pid: u32, _action: &TargetAction) -> Result<(), ActionError> {
        Ok(())
    }

    fn restore(&mut self, _pid: u32, _state: &ProcState) -> Result<(), ActionError> {
        Ok(())
    }
}

impl QosLifecycle for Agreeable {
    fn on_process_exit(&mut self, _pid: u32) {}

    fn clear_all_qos(&mut self) {}

    fn apply_network(&mut self, _nagle: bool, _netbios: bool) -> Result<Vec<BackupEntry>, String> {
        Ok(vec![BackupEntry { path: "p".into(), value_name: "v".into(), old: None }])
    }

    fn revert_network(&mut self, backup: &Vec<BackupEntry>) -> Vec<bool> {
        self.reverted.extend(backup.iter().cloned());
        vec![true; backup.len()]
    }

    fn purge_standby(&mut self) -> Result<(), ActionError> {
        Ok(())
    }

    fn read_marker(&mut self, path: &str) -> Option<Vec<u8>> {
        self.markers.push(format!("read {path}"));
        self.left_behind.clone()
    }

    fn write_marker(&mut self, path: &str, _bytes: &Vec<u8>) -> Result<(), String> {
        self.markers.push(format!("write {path}"));
        Ok(())
    }

    fn remove_marker(&mut self, path: &str) {
        self.markers.push(format!("remove {path}"));
    }
}

fn cfg(game: &str) -> Config {
    Config {
        game: GameConfig {
            boost_on_start: true,
            processes: vec![game.to_string()],
            ..Default::default()
        },
        background: vec![BackgroundRule {
            name: "dummy_proc.exe".into(),
            priority: Some(PriorityClass::BelowNormal),
            ..Default::default()
        }],
        ..Default::default()
    }
}

fn start(pid: u32, name: &str) -> ServiceMsg {
    ServiceMsg::Proc(ProcessEvent {
        pid,
        name: name.into(),
        parent_pid: 0,
        kind: ProcessKind::Start,
    })
}

#[test]
fn service_processes_messages_and_reload() {
    let mut svc = Service::new(cfg("game.exe"), Agreeable::default(), "m".into()).unwrap();
    let bg_pid = 4711;
    svc.handle_message(start(bg_pid, "dummy_proc.exe"), 0).unwrap();
    svc.handle_message(start(9000, "game.exe"), 1).unwrap();

    let state = svc.current_state();
    assert_eq!(state.mode, "GameBoost");
    assert!(!state.boosted.is_empty(), "background helper must be boosted");
    assert!(state.boosted.iter().any(|p| p.pid == bg_pid));

    svc.handle_message(ServiceMsg::Reload(Ok(cfg("other.exe"))), 2).unwrap();
    let state = svc.current_state();
    assert_eq!(state.mode, "Normal");
    assert!(state.boosted.is_empty());

    svc.handle_message(start(9001, "game.exe"), 3).unwrap();
    assert_eq!(svc.current_state().mode, "Normal", "reloaded config must be in effect");
}

#[test]
fn save_config_validates_then_persists() {
    let mut svc = Service::new(cfg("game.exe"), Agreeable::default(), "m".into()).unwrap();
    let mut good = cfg("g.exe");
    good.background = vec![BackgroundRule {
        name: "b.exe".into(),
        suspend: true,
        ..Default::default()
    }];
    assert!(Service::<Agreeable>::check_save(&good).is_ok());
    let saved = svc.handle_message(ServiceMsg::SaveConfig { cfg: good, written: Ok(()) }, 0);
    assert_eq!(saved, Ok("saved".to_string()), "valid config must report saved");
    assert_eq!(svc.engine().cfg().game.processes, vec!["g.exe".to_string()]);
    assert_eq!(svc.current_state().mode, "Normal");

    let bad = Config {
        game: GameConfig { processes: vec![], ..Default::default() },
        background: vec![BackgroundRule {
            name: "x.exe".to_string(),
            qos_cpu_quota: Some(150),
            ..Default::default()
        }],
        ..Default::default()
    };
    assert!(
        Service::<Agreeable>::check_save(&bad).is_err(),
        "rejected config must not touch the file"
    );
    let res = svc.handle_message(ServiceMsg::SaveConfig { cfg: bad, written: Ok(()) }, 0);
    assert_eq!(
        res.unwrap_err(),
        "validation: qos_cpu_quota for 'x.exe' must be 1..=100, got 150"
    );
    assert_eq!(svc.engine().cfg().game.processes, vec!["g.exe".to_string()]);
}

#[test]
fn state_snapshot_is_live_and_queryable() {
    let mut svc = Service::new(cfg("game.exe"), Agreeable::default(), "m".into()).unwrap();
    svc.handle_message(start(9001, "game.exe"), 0).unwrap();
    svc.handle_message(start(55, "dummy_proc.exe"), SNAPSHOT_REFRESH_INTERVAL).unwrap();
    let snap = svc.state();
    assert_eq!(snap.mode, "GameBoost");
    assert!(
        snap.boosted.iter().any(|p| p.name == "dummy_proc.exe"),
        "background helper must be listed as boosted"
    );
    assert!(
        snap.processes.iter().any(|p| p.pid == 9001 && p.name == "game.exe"),
        "process table must be reflected in the snapshot"
    );
}

#[test]
fn snapshot_is_refreshed_at_most_every_quarter_second() {
    let mut svc = Service::new(cfg("game.exe"), Agreeable::default(), "m".into()).unwrap();
    assert_eq!(svc.state().mode, "");
    assert_eq!(svc.state().config.game.processes, vec!["game.exe".to_string()]);
    svc.handle_message(start(1, "a.exe"), 1000).unwrap();
    assert_eq!(svc.state().processes.len(), 1);
    svc.handle_message(start(2, "b.exe"), 1249).unwrap();
    assert_eq!(svc.state().processes.len(), 1, "too early");
    svc.handle_message(ServiceMsg::Foreground(ForegroundEvent { pid: 2 }), 1250).unwrap();
    assert_eq!(svc.state().processes.len(), 2);
    svc.handle_message(start(3, "c.exe"), 1251).unwrap();
    svc.handle_message(ServiceMsg::ToggleOverlay, 1252).unwrap();
    assert_eq!(svc.state().processes.len(), 2);
    svc.handle_message(ServiceMsg::Stop, 1253).unwrap();
    assert_eq!(svc.state().processes.len(), 3, "a stop always refreshes");
}

#[test]
fn failed_reload_keeps_the_configuration_and_is_recorded() {
    let mut svc = Service::new(cfg("game.exe"), Agreeable::default(), "m".into()).unwrap();
    let r = svc.handle_message(ServiceMsg::Reload(Err(ConfigError::Io("gone".into()))), 0);
    assert_eq!(r, Err("io: gone".to_string()));
    assert_eq!(svc.state().last_reload.as_deref(), Some("io: gone"));
    assert_eq!(svc.engine().cfg().game.processes, vec!["game.exe".to_string()]);
    svc.handle_message(ServiceMsg::Reload(Ok(cfg("x.exe"))), 1).unwrap();
    assert_eq!(svc.state().last_reload, None);
    assert_eq!(svc.state().config.game.processes, vec!["x.exe".to_string()]);
}

#[test]
fn failed_write_is_answered_and_changes_nothing() {
    let mut svc = Service::new(cfg("game.exe"), Agreeable::default(), "m".into()).unwrap();
    let r = svc.handle_message(
        ServiceMsg::SaveConfig { cfg: cfg("x.exe"), written: Err("disk full".into()) },
        0,
    );
    assert_eq!(r, Err("disk full".to_string()));
    assert_eq!(svc.engine().cfg().game.processes, vec!["game.exe".to_string()]);
}

#[test]
fn stop_restores_everything() {
    let mut svc = Service::new(cfg("game.exe"), Agreeable::default(), "m".into()).unwrap();
    svc.handle_message(start(1, "dummy_proc.exe"), 0).unwrap();
    svc.handle_message(start(2, "game.exe"), 0).unwrap();
    assert_eq!(svc.engine().boosted().len(), 1);
    svc.handle_message(ServiceMsg::Stop, 0).unwrap();
    assert_eq!(svc.state().mode, "Normal");
    assert!(svc.state().boosted.is_empty());
}

#[test]
fn marker_is_written_where_it_was_set() {
    let mut c = cfg("game.exe");
    c.network.enabled = true;
    let mut svc = Service::new(c, Agreeable::default(), "m".into()).unwrap();
    svc.handle_message(start(2, "game.exe"), 0).unwrap();
    assert_eq!(svc.engine().backend().markers, ["read m", "write m"]);
    svc.handle_message(ServiceMsg::Stop, 0).unwrap();
    assert_eq!(svc.engine().backend().markers, ["read m", "write m", "remove m"]);
}

#[test]
fn marker_of_a_crash_is_put_back_first() {
    let e = BackupEntry { path: "p".into(), value_name: "v".into(), old: Some(3) };
    let bytes = encode_marker(&vec![e.clone()]).unwrap();
    let backend = Agreeable { left_behind: Some(bytes), ..Default::default() };
    let svc = Service::new(cfg("game.exe"), backend, "m".into()).unwrap();
    let backend = svc.engine().backend();
    assert_eq!(backend.reverted, vec![e]);
    assert_eq!(backend.markers, ["read m", "remove m"]);
}

#[test]
fn reload_that_no_engine_can_run_says_why() {
    let mut svc = Service::new(cfg("game.exe"), Agreeable::default(), "m".into()).unwrap();
    let mut c = cfg("other.exe");
    c.background[0].affinity = Some(AffinitySpec { cores: vec![64] });
    let told = svc.handle_message(ServiceMsg::Reload(Ok(c)), 0).unwrap_err();
    assert_eq!(told, "affinity core above 63");
    assert_eq!(svc.state().last_reload.as_deref(), Some("affinity core above 63"));
    assert_eq!(svc.state().config.game.processes, ["game.exe"]);
}

#[test]
fn load_limits() {
    let mut g = LoadLimiter::new(5000);
    assert_eq!(g.decide(85, 9000), Admission::Handle);
    assert_eq!(g.decide(86, 6000), Admission::Defer { warn: false });
    assert_eq!(g.decide(86, 6001), Admission::Defer { warn: true });
    assert_eq!(g.decide(100, 7001), Admission::Defer { warn: false });
    assert_eq!(g.decide(100, 7002), Admission::Defer { warn: true });
}

#[test]
fn load_samples() {
    let t = |idle, kernel, user| CpuTimes { idle, kernel, user };
    let s = accumulate(&vec![t(10, 30, 5), t(1, 2, 3)]);
    assert_eq!(s, LoadSample { idle: 11, total: 40 });
    let full = accumulate(&vec![t(u64::MAX, u64::MAX, 1), t(5, 0, 0)]);
    assert_eq!(full, LoadSample { idle: u64::MAX, total: u64::MAX });
    assert_eq!(busy_share(None, s), None);
    assert_eq!(busy_share(Some(s), s), None);
    let later = LoadSample { idle: 31, total: 140 };
    assert_eq!(busy_share(Some(s), later), Some((80, 100)));
    let odd = LoadSample { idle: 500, total: 140 };
    assert_eq!(busy_share(Some(s), odd), Some((0, 100)));
    assert_eq!(sampled_cpus(0), 64);
    assert_eq!(sampled_cpus(128), 128);
    assert_eq!(sampled_cpus(4096), 256);
}
