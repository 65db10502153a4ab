//! Network tweaks over a registry that is a map.

use std::collections::BTreeMap;

use aetheris::actions::{ActionError, ProcState, ProcessBackend, QosLifecycle, TargetAction};
use aetheris::network::{
    collect_backup, decode_marker, encode_marker, marker_is_stale, plan_tweaks, plan_tweaks_at,
    reconcile, revert_step, reverted_count, BackupEntry, RevertStep, Tweak, TweakOutcome,
    TCPIP_INTERFACES_KEY,
};

type Registry = BTreeMap<(String, String), u32>;

fn get(reg: &Registry, path: &str, name: &str) -> Option<u32> {
    reg.get(&(path.to_string(), name.to_string())).copied()
}

fn backup_and_set(reg: &mut Registry, t: &Tweak) -> TweakOutcome {
    let old = reg.insert((t.path.clone(), t.value_name.clone()), t.set_to);
    TweakOutcome::Done { old }
}

fn revert_entry(reg: &mut Registry, e: &BackupEntry) {
    let key = (e.path.clone(), e.value_name.clone());
    match revert_step(e) {
        RevertStep::Write(v) => {
            reg.insert(key, v);
        }
        RevertStep::Delete => {
            reg.remove(&key);
        }
    }
}

/// A machine with a registry and a marker file.
#[derive(Default)]
struct Machine {
    registry: Registry,
    marker: Option<Vec<u8>>,
    reverts: usize,
}

impl ProcessBackend for Machine {
    fn snapshot(&mut self, _pid: u32) -> Result<ProcState, ActionError> {
        Err(ActionError::Open(5))
    }

    fn apply(&mut self, _pid: u32, _action: &TargetAction) -> Result<(), ActionError> {
        Err(ActionError::Open(5))
    }

    fn restore(&mut self, _pid: u32, _state: &ProcState) -> Result<(), ActionError> {
        Err(ActionError::Open(5))
    }
}

impl QosLifecycle for Machine {
    fn on_process_exit(&mut self, _pid: u32) {}

    fn clear_all_qos(&mut self) {}

    fn apply_network(&mut self, _nagle: bool, _netbios: bool) -> Result<Vec<BackupEntry>, String> {
        Err("no adapters".into())
    }

    fn revert_network(&mut self, backup: &Vec<BackupEntry>) -> Vec<bool> {
        self.reverts += 1;
        backup.iter().for_each(|e| revert_entry(&mut self.registry, e));
        vec![true; backup.len()]
    }

    fn purge_standby(&mut self) -> Result<(), ActionError> {
        Ok(())
    }

    fn read_marker(&mut self, path: &str) -> Option<Vec<u8>> {
        assert_eq!(path, "marker.bin");
        self.marker.clone()
    }

    fn write_marker(&mut self, _path: &str, bytes: &Vec<u8>) -> Result<(), String> {
        self.marker = Some(bytes.clone());
        Ok(())
    }

    fn remove_marker(&mut self, path: &str) {
        assert_eq!(path, "marker.bin");
        self.marker = None;
    }
}

fn tweak(path: &str, name: &str, set_to: u32) -> Tweak {
    Tweak { path: path.into(), value_name: name.into(), set_to }
}

#[test]
fn registry_backup_apply_revert_roundtrip() {
    let path = "Software\\AetherisTests\\Roundtrip";
    let mut reg = Registry::new();
    reg.insert((path.into(), "TestValue".into()), 5);
    assert_eq!(get(&reg, path, "TestValue").unwrap(), 5);

    let tweaks = vec![tweak(path, "TestValue", 1)];
    let outcome = backup_and_set(&mut reg, &tweaks[0]);
    let entry = collect_backup(&tweaks, &vec![outcome]).remove(0);
    assert_eq!(entry.old, Some(5), "backup captured prior value");
    assert_eq!(entry.value_name, "TestValue");
    assert_eq!(get(&reg, path, "TestValue").unwrap(), 1, "applied value is 1");

    revert_entry(&mut reg, &entry);
    assert_eq!(get(&reg, path, "TestValue").unwrap(), 5, "reverted value is 5");
}

#[test]
fn revert_deletes_when_value_was_absent() {
    let path = "Software\\AetherisTests\\Absent";
    let mut reg = Registry::new();
    let tweaks = vec![tweak(path, "TestValue", 1)];
    let outcome = backup_and_set(&mut reg, &tweaks[0]);
    let entry = collect_backup(&tweaks, &vec![outcome]).remove(0);
    assert_eq!(entry.old, None, "absent value backed up as None");
    assert_eq!(get(&reg, path, "TestValue").unwrap(), 1);
    revert_entry(&mut reg, &entry);
    assert_eq!(get(&reg, path, "TestValue"), None, "revert deleted the applied value");
}

#[test]
fn apply_noop_when_flags_off() {
    let tweaks = plan_tweaks(false, false, &vec!["adapter".to_string()]).expect("no-op apply");
    let backup = collect_backup(&tweaks, &vec![]);
    assert!(backup.is_empty(), "nothing applied when all flags off");
}

#[test]
fn marker_roundtrip_and_reconcile() {
    let entries = vec![
        BackupEntry {
            path: "Software\\AetherisTests\\MarkerA".into(),
            value_name: "V1".into(),
            old: Some(5),
        },
        BackupEntry {
            path: "Software\\AetherisTests\\MarkerB".into(),
            value_name: "V2".into(),
            old: None,
        },
    ];
    let bytes = encode_marker(&entries).expect("write marker");
    assert_eq!(decode_marker(&bytes).expect("read marker"), entries);

    // Without a marker there is nothing to put back.
    let mut machine = Machine::default();
    let key = |i: usize| (entries[i].path.clone(), entries[i].value_name.clone());
    machine.registry.insert(key(0), 1);
    machine.registry.insert(key(1), 1);
    reconcile(&mut machine, "marker.bin");
    assert_eq!((machine.reverts, machine.registry.len()), (0, 2));

    // A leftover marker is put back and removed; a second time does nothing.
    machine.marker = Some(bytes);
    reconcile(&mut machine, "marker.bin");
    assert!(machine.marker.is_none(), "reconcile must remove the marker it consumed");
    assert_eq!(machine.registry, Registry::from([(key(0), 5)]));
    reconcile(&mut machine, "marker.bin");
    assert_eq!(machine.reverts, 1);

    let err = encode_marker(&vec![]);
    assert!(err.is_err(), "write_marker must reject an empty backup");
    assert_eq!(err.unwrap_err(), "write_marker: refusing to persist an empty backup");
}

#[test]
fn apply_continues_past_per_adapter_failure_and_reverts_what_applied() {
    let base = "Software\\AetherisTests\\ApplyContinue";
    let path_a = format!("{base}\\A");
    let path_b = format!("{base}\\B");
    let adapters = vec!["A".to_string(), "B".to_string()];
    let tweaks = plan_tweaks_at(base, base, true, false, &adapters).expect("apply continues");
    assert_eq!(tweaks.len(), 4);

    // B's TcpAckFrequency holds something that is no number.
    let mut reg = Registry::new();
    let mut outcomes = Vec::new();
    for t in &tweaks {
        if t.path == path_b && t.value_name == "TcpAckFrequency" {
            outcomes.push(TweakOutcome::Skipped);
        } else {
            outcomes.push(backup_and_set(&mut reg, t));
        }
    }
    let backup = collect_backup(&tweaks, &outcomes);
    assert_eq!(backup.len(), 3, "backup covers every value actually modified");
    assert_eq!(get(&reg, &path_a, "TcpAckFrequency").unwrap(), 1, "A TcpAckFrequency applied");
    assert_eq!(get(&reg, &path_a, "TCPNoDelay").unwrap(), 1, "A TCPNoDelay applied");
    assert_eq!(
        get(&reg, &path_b, "TCPNoDelay").unwrap(),
        1,
        "B TCPNoDelay applied despite sibling failure"
    );

    for entry in &backup {
        revert_entry(&mut reg, entry);
    }
    assert_eq!(get(&reg, &path_a, "TcpAckFrequency"), None, "A TcpAckFrequency reverted");
    assert_eq!(get(&reg, &path_a, "TCPNoDelay"), None, "A TCPNoDelay reverted");
    assert_eq!(get(&reg, &path_b, "TCPNoDelay"), None, "B TCPNoDelay reverted");
}

#[test]
fn tweaks_of_this_system() {
    assert_eq!(
        plan_tweaks(true, true, &vec![]).unwrap_err(),
        "no TCP/IP interface adapters found under Tcpip\\Parameters\\Interfaces"
    );
    let tweaks = plan_tweaks(true, true, &vec!["{G}".to_string()]).unwrap();
    let list: Vec<(String, u32)> =
        tweaks.iter().map(|t| (format!("{}|{}", t.path, t.value_name), t.set_to)).collect();
    assert_eq!(
        list,
        vec![
            (format!("{TCPIP_INTERFACES_KEY}\\{{G}}|TcpAckFrequency"), 1),
            (format!("{TCPIP_INTERFACES_KEY}\\{{G}}|TCPNoDelay"), 1),
            (
                "SYSTEM\\CurrentControlSet\\Services\\NetBT\\Parameters|DisableNetbiosOverTcpip"
                    .to_string(),
                2
            ),
        ]
    );
}

#[test]
fn marker_layout_is_fixed() {
    let entries =
        vec![BackupEntry { path: "p".into(), value_name: "\u{fc}".into(), old: Some(258) }];
    let bytes = encode_marker(&entries).unwrap();
    let mut expected = vec![1, 0, 0, 0, 0, 0, 0, 0];
    expected.extend([1, 0, 0, 0, 0, 0, 0, 0, b'p']);
    expected.extend([2, 0, 0, 0, 0, 0, 0, 0, 0xc3, 0xbc]);
    expected.extend([1, 2, 1, 0, 0]);
    assert_eq!(bytes, expected);
    let mut longer = bytes.clone();
    longer.push(0);
    assert_eq!(decode_marker(&longer), Some(entries));
}

#[test]
fn damaged_marker_counts_as_none() {
    assert_eq!(decode_marker(&[1, 2, 3]), None);
    assert_eq!(decode_marker(&[255; 16]), None);
    let mut machine = Machine { marker: Some(vec![1]), ..Default::default() };
    reconcile(&mut machine, "marker.bin");
    assert_eq!((machine.reverts, machine.marker), (0, Some(vec![1])));
    assert_eq!(reverted_count(&vec![true, false, true]), 2);
    assert_eq!(reverted_count(&vec![]), 0);
    assert!(marker_is_stale(3, 3));
    assert!(!marker_is_stale(3, 2));
}
