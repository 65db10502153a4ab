//! Configurations and their rules.

use aetheris::config::{
    AffinitySpec, AlwaysRule, BackgroundRule, Config, ConfigError, NameSet, PriorityClass,
    DEFAULT_PROTECTED,
};
use toml::{Table, Value};

fn flag(t: &Table, key: &str) -> bool {
    t.get(key).and_then(Value::as_bool).unwrap_or(false)
}

fn strings(t: &Table, key: &str) -> Vec<String> {
    match t.get(key).and_then(Value::as_array) {
        Some(a) => a.iter().map(|v| v.as_str().unwrap().to_string()).collect(),
        None => vec![],
    }
}

fn priority(t: &Table) -> Result<Option<PriorityClass>, ConfigError> {
    match t.get("priority").and_then(Value::as_str) {
        None => Ok(None),
        Some("idle") => Ok(Some(PriorityClass::Idle)),
        Some("below_normal") => Ok(Some(PriorityClass::BelowNormal)),
        Some("normal") => Ok(Some(PriorityClass::Normal)),
        Some("above_normal") => Ok(Some(PriorityClass::AboveNormal)),
        Some("high") => Ok(Some(PriorityClass::High)),
        Some("realtime") => Ok(Some(PriorityClass::Realtime)),
        Some(other) => Err(ConfigError::Toml(format!("unknown variant `{other}`"))),
    }
}

fn affinity(t: &Table) -> Option<AffinitySpec> {
    let cores = t.get("affinity")?.as_table()?.get("cores")?.as_array()?;
    Some(AffinitySpec {
        cores: cores.iter().map(|c| c.as_integer().unwrap() as u8).collect(),
    })
}

fn tables(t: &Table, key: &str) -> Vec<Table> {
    match t.get(key).and_then(Value::as_array) {
        Some(a) => a.iter().map(|v| v.as_table().unwrap().clone()).collect(),
        None => vec![],
    }
}

/// Reads a configuration the way a file is read: the settings, then the rules.
fn from_str(s: &str) -> Result<Config, ConfigError> {
    let t: Table = s.parse().map_err(|e| ConfigError::Toml(format!("{e}")))?;
    let mut cfg = Config::default();
    if let Some(game) = t.get("game").and_then(Value::as_table) {
        cfg.game.boost_on_start = flag(game, "boost_on_start");
        cfg.game.processes = strings(game, "processes");
        cfg.game.purge_standby_on_boost = flag(game, "purge_standby_on_boost");
    }
    for b in tables(&t, "background") {
        cfg.background.push(BackgroundRule {
            name: b["name"].as_str().unwrap().to_string(),
            suspend: flag(&b, "suspend"),
            priority: priority(&b)?,
            affinity: affinity(&b),
            qos_cpu_quota: b.get("qos_cpu_quota").map(|q| q.as_integer().unwrap() as u32),
            trim_memory: flag(&b, "trim_memory"),
        });
    }
    for r in tables(&t, "rule") {
        cfg.rule.push(AlwaysRule {
            name: r["name"].as_str().unwrap().to_string(),
            priority: priority(&r)?,
            affinity: affinity(&r),
        });
    }
    cfg.protected_extra = strings(&t, "protected_extra");
    if let Some(n) = t.get("network").and_then(Value::as_table) {
        cfg.network.enabled = flag(n, "enabled");
        cfg.network.nagle = flag(n, "nagle");
        cfg.network.netbios = flag(n, "netbios");
    }
    if let Some(o) = t.get("overlay").and_then(Value::as_table) {
        cfg.overlay.hotkey = o.get("hotkey").and_then(Value::as_str).map(str::to_string);
    }
    cfg.validate()?;
    Ok(cfg)
}

#[test]
fn parse_valid_config() {
    let s = r#"
[game]
boost_on_start = true
processes = ["steam_app_*.exe"]

[[background]]
name = "browser.exe"
suspend = true
priority = "below_normal"
trim_memory = true

[[background]]
name = "updater.exe"
qos_cpu_quota = 30

[[rule]]
name = "foo.exe"
priority = "idle"
"#;
    let cfg = from_str(s).expect("parse");
    cfg.validate().expect("valid");
    assert!(cfg.game.boost_on_start);
    assert_eq!(cfg.background.len(), 2);
    assert!(cfg.background[0].suspend);
    assert_eq!(cfg.background[0].priority, Some(PriorityClass::BelowNormal));
    assert_eq!(cfg.background[1].qos_cpu_quota, Some(30));
}

#[test]
fn reject_suspend_on_protected() {
    let s = r#"
[game]
processes = ["game.exe"]

[[background]]
name = "csrss.exe"
suspend = true
"#;
    assert!(from_str(s).is_err(), "must reject protected+action");
}

#[test]
fn reject_suspend_on_protected_extra() {
    let s = r#"
protected_extra = ["MyCritical.exe"]

[game]
processes = ["game.exe"]

[[background]]
name = "MyCritical.exe"
suspend = true
"#;
    assert!(from_str(s).is_err(), "must reject suspend on protected_extra");
}

#[test]
fn reject_empty_affinity_cores() {
    let s = r#"
[game]
processes = []

[[background]]
name = "x.exe"
affinity = { cores = [] }
"#;
    assert!(from_str(s).is_err());
}

#[test]
fn reject_affinity_core_index_ge_64() {
    let s = r#"
[game]
processes = []

[[background]]
name = "x.exe"
affinity = { cores = [0, 64] }
"#;
    assert!(from_str(s).is_err());

    let s2 = r#"
[game]
processes = []

[[rule]]
name = "y.exe"
affinity = { cores = [64] }
"#;
    assert!(from_str(s2).is_err());

    let s3 = r#"
[game]
processes = []

[[background]]
name = "z.exe"
affinity = { cores = [63] }
"#;
    from_str(s3).expect("core 63 is the maximum valid index");
}

#[test]
fn reject_bad_priority_value() {
    let s = r#"
[game]
processes = []

[[rule]]
name = "x.exe"
priority = "turbo"
"#;
    assert!(from_str(s).is_err());
}

#[test]
fn reject_qos_quota_out_of_range() {
    let s = r#"
[game]
processes = []

[[background]]
name = "x.exe"
qos_cpu_quota = 150
"#;
    assert!(from_str(s).is_err());
}

#[test]
fn affinity_cores_within_logical_cpu_count_validate() {
    let s = r#"
[game]
processes = []

[[background]]
name = "x.exe"
affinity = { cores = [0, 1] }
"#;
    let cfg = from_str(s).expect("cores 0..2 within host logical CPU count");
    assert!(cfg.host_warnings(2).is_empty());
}

#[test]
fn affinity_core_beyond_logical_cpu_count_warns_not_panics() {
    let s = r#"
[game]
processes = []

[[background]]
name = "x.exe"
affinity = { cores = [63] }
"#;
    let cfg = from_str(s).expect("high core index warns but still validates");
    assert_eq!(
        cfg.host_warnings(8),
        vec!["rule 'x.exe' affinity cores exceed logical CPU count (8) on this host"]
    );

    let s2 = r#"
[game]
processes = []

[[rule]]
name = "y.exe"
affinity = { cores = [63] }
"#;
    let cfg = from_str(s2).expect("always-rule high core index warns but still validates");
    assert_eq!(cfg.host_warnings(63).len(), 1);
    assert!(cfg.host_warnings(64).is_empty());
    assert!(cfg.host_warnings(0).is_empty(), "an unknown count warns of nothing");
}

#[test]
fn network_defaults_off() {
    let s = "[game]\nprocesses = []\n";
    let cfg = from_str(s).expect("parse without [network]");
    assert!(!cfg.network.enabled, "enabled must default off");
    assert!(!cfg.network.nagle, "nagle must default off");
    assert!(!cfg.network.netbios, "netbios must default off");

    let d = Config::default();
    assert!(!d.network.enabled);
    assert!(!d.network.nagle);
    assert!(!d.network.netbios);
}

#[test]
fn network_section_parses() {
    let s = r#"
[network]
enabled = true
nagle = true
netbios = true

[game]
processes = []
"#;
    let cfg = from_str(s).expect("parse with [network]");
    assert!(cfg.network.enabled);
    assert!(cfg.network.nagle);
    assert!(cfg.network.netbios);
}

#[test]
fn game_config_defaults_purge_off() {
    let cfg = from_str("[game]\nprocesses=[]\n").unwrap();
    assert!(!cfg.game.purge_standby_on_boost);
}

#[test]
fn overlay_hotkey_config_parse() {
    let c = from_str("[overlay]\nhotkey = \"ctrl+alt+o\"\n").unwrap();
    assert_eq!(c.overlay.hotkey.as_deref(), Some("ctrl+alt+o"));
    let c2 = from_str("[game]\nprocesses=[]\n").unwrap();
    assert!(c2.overlay.hotkey.is_none());
}

#[test]
fn protected_set_includes_defaults_and_extra() {
    let s = r#"
protected_extra = ["MyTool.exe"]

[game]
processes = []
"#;
    let cfg = from_str(s).expect("parse");
    let set = cfg.protected_set();
    assert!(set.contains("csrss.exe"));
    assert!(set.contains("mytool.exe"));
}

fn message(cfg: &Config) -> String {
    cfg.validate().unwrap_err().message()
}

fn one(rule: BackgroundRule) -> Config {
    Config { background: vec![rule], ..Default::default() }
}

fn named(name: &str) -> BackgroundRule {
    BackgroundRule { name: name.into(), ..Default::default() }
}

#[test]
fn each_problem_has_its_message() {
    assert_eq!(message(&one(named(" \u{3000}\t"))), "validation: background rule missing name");
    assert_eq!(
        message(&one(BackgroundRule { trim_memory: true, ..named("DWM.exe") })),
        "validation: rule 'DWM.exe' targets a protected process with suspend/trim"
    );
    assert_eq!(
        message(&one(BackgroundRule { qos_cpu_quota: Some(0), ..named("a") })),
        "validation: qos_cpu_quota for 'a' must be 1..=100, got 0"
    );
    assert_eq!(
        message(&one(BackgroundRule { qos_cpu_quota: Some(101), ..named("a") })),
        "validation: qos_cpu_quota for 'a' must be 1..=100, got 101"
    );
    assert_eq!(
        message(&one(BackgroundRule {
            affinity: Some(AffinitySpec { cores: vec![] }),
            ..named("a")
        })),
        "validation: affinity for 'a' has no cores"
    );
    assert_eq!(
        message(&one(BackgroundRule {
            affinity: Some(AffinitySpec { cores: vec![1, 70, 64] }),
            ..named("a")
        })),
        "validation: affinity for 'a' has core index 70 >= 64 (max 63)"
    );
    let rules = |r: AlwaysRule| Config { rule: vec![r], ..Default::default() };
    assert_eq!(message(&rules(AlwaysRule::default())), "validation: rule missing name");
    assert_eq!(
        message(&rules(AlwaysRule {
            name: "r".into(),
            affinity: Some(AffinitySpec { cores: vec![255] }),
            ..Default::default()
        })),
        "validation: affinity for 'r' has core index 255 >= 64 (max 63)"
    );
}

#[test]
fn first_problem_is_reported() {
    let cfg = Config {
        background: vec![
            named("fine"),
            BackgroundRule { qos_cpu_quota: Some(0), ..named("second") },
            named(""),
        ],
        rule: vec![AlwaysRule::default()],
        ..Default::default()
    };
    assert_eq!(message(&cfg), "validation: qos_cpu_quota for 'second' must be 1..=100, got 0");
}

#[test]
fn what_is_allowed_stays_allowed() {
    assert!(one(named("csrss.exe")).validate().is_ok(), "no suspend, no trim");
    assert!(one(BackgroundRule { qos_cpu_quota: Some(100), ..named("a") }).validate().is_ok());
    let empty = AlwaysRule {
        name: "r".into(),
        affinity: Some(AffinitySpec { cores: vec![] }),
        ..Default::default()
    };
    assert!(Config { rule: vec![empty], ..Default::default() }.validate().is_ok());
}

#[test]
fn other_errors_have_their_messages() {
    assert_eq!(ConfigError::Io("gone".into()).message(), "io: gone");
    assert_eq!(ConfigError::Toml("bad".into()).message(), "toml: bad");
}

#[test]
fn protected_names_are_distinct_and_complete() {
    let cfg = Config {
        protected_extra: vec!["A.exe".into(), "a.EXE".into(), "SYSTEM".into()],
        ..Default::default()
    };
    let set = cfg.protected_set();
    assert_eq!(set.names().len(), DEFAULT_PROTECTED.len() + 1);
    for p in DEFAULT_PROTECTED {
        assert!(set.contains(p));
    }
    assert!(!set.contains("A.exe"), "names are kept in lower case");
    assert!(NameSet::new().names().is_empty());
    assert!(NameSet::new().with("x".into()).contains("x"));
    let mut sorted = set.names().clone();
    sorted.sort();
    assert_eq!(*set.names(), sorted, "names are handed out in order");
    let three = NameSet::new().with("b".into()).with("a".into()).with("b".into());
    assert_eq!(*three.names(), ["a", "b"]);
}

#[test]
fn copies_are_equal() {
    let cfg = Config {
        background: vec![BackgroundRule {
            affinity: Some(AffinitySpec { cores: vec![3, 1] }),
            priority: Some(PriorityClass::High),
            ..named("b")
        }],
        rule: vec![AlwaysRule { name: "r".into(), ..Default::default() }],
        protected_extra: vec!["p".into()],
        ..Default::default()
    };
    assert_eq!(format!("{:?}", cfg.clone()), format!("{cfg:?}"));
}
