//! Actions, masks and jobs.

use aetheris::actions::{
    build_cpu_set_mask, cores_from_mask, mask_from_cores, nt_result, plan_step, restore_by_applying,
    restore_plan, state_priority_to_class, to_windows_priority, ActionError, GroupAffinity,
    OsBackend, OsStep, ProcState, ProcessBackend, TargetAction, NORMAL_PRIORITY_CLASS,
};
use aetheris::config::PriorityClass;
use aetheris::qos::{JobEntry, QosCommand, QosEvent};

#[test]
fn build_cpu_set_mask_for_cores() {
    let entries = build_cpu_set_mask(&[0u8, 1u8]).expect("cores map to entries");
    assert_eq!(entries.len(), 2);
    assert_eq!(entries[0], GroupAffinity { mask: 1, group: 0 });
    assert_eq!(entries[1], GroupAffinity { mask: 2, group: 0 });

    let top = build_cpu_set_mask(&[63]).expect("core 63 valid");
    assert_eq!(top[0].mask, 1u64 << 63);
    assert_eq!(top[0].group, 0);

    assert!(build_cpu_set_mask(&[]).is_none());
    assert!(build_cpu_set_mask(&[64]).is_none());

    let too_many: Vec<u8> = (0..65).collect();
    assert!(build_cpu_set_mask(&too_many).is_none());
    assert!(build_cpu_set_mask(&[0u8; 65]).is_none());
    assert_eq!(build_cpu_set_mask(&[0u8; 64]).unwrap().len(), 64);
}

#[test]
fn masks_and_cores() {
    assert_eq!(mask_from_cores(&[]), 0);
    assert_eq!(mask_from_cores(&[0, 3, 3, 63]), 0x8000_0000_0000_0009);
    assert_eq!(cores_from_mask(0x8000_0000_0000_0009), vec![0, 3, 63]);
    for mask in [0u64, 1, 0xdead_beef_0bad_f00d, u64::MAX] {
        assert_eq!(mask_from_cores(&cores_from_mask(mask)), mask);
    }
}

const ALL: [PriorityClass; 6] = [
    PriorityClass::Idle,
    PriorityClass::BelowNormal,
    PriorityClass::Normal,
    PriorityClass::AboveNormal,
    PriorityClass::High,
    PriorityClass::Realtime,
];

#[test]
fn priorities_and_their_numbers() {
    let numbers: Vec<u32> = ALL.iter().map(|p| to_windows_priority(*p)).collect();
    assert_eq!(numbers, vec![0x40, 0x4000, 0x20, 0x8000, 0x80, 0x100]);
    for p in ALL {
        let state = ProcState { priority: to_windows_priority(p), ..Default::default() };
        assert_eq!(state_priority_to_class(&state), p);
    }
    let odd = ProcState { priority: 7, ..Default::default() };
    assert_eq!(state_priority_to_class(&odd), PriorityClass::Normal);
}

#[test]
fn steps_for_actions() {
    match plan_step(&TargetAction::Affinity { core_mask: 0 }, 8) {
        Err(e) => assert_eq!(e.message(), "api: affinity mask is zero"),
        Ok(s) => panic!("unexpected step {s:?}"),
    }
    assert!(matches!(
        plan_step(&TargetAction::Affinity { core_mask: 5 }, 64),
        Ok(OsStep::SetAffinityMask(5))
    ));
    match plan_step(&TargetAction::Affinity { core_mask: 5 }, 65) {
        Ok(OsStep::SetCpuSets(v)) => assert_eq!(
            v,
            vec![GroupAffinity { mask: 1, group: 0 }, GroupAffinity { mask: 4, group: 0 }]
        ),
        other => panic!("unexpected step {other:?}"),
    }
    assert!(matches!(
        plan_step(&TargetAction::Priority(PriorityClass::Idle), 8),
        Ok(OsStep::SetPriority(0x40))
    ));
    assert!(matches!(plan_step(&TargetAction::Suspend, 8), Ok(OsStep::Suspend)));
    assert!(matches!(plan_step(&TargetAction::Resume, 8), Ok(OsStep::Resume)));
    assert!(matches!(plan_step(&TargetAction::TrimMemory, 8), Ok(OsStep::TrimWorkingSet)));
    assert!(matches!(
        plan_step(&TargetAction::QosCpuQuota { percent: 9 }, 8),
        Ok(OsStep::Qos(9))
    ));
}

#[test]
fn native_statuses() {
    assert!(nt_result("NtSuspendProcess", 0).is_ok());
    assert!(nt_result("NtSuspendProcess", 1).is_ok());
    let e = nt_result("NtSuspendProcess", 0xC0000022u32 as i32).unwrap_err();
    assert_eq!(e.message(), "api: NtSuspendProcess: 0xC0000022");
    let e = nt_result("NtResumeProcess", -1).unwrap_err();
    assert_eq!(e.message(), "api: NtResumeProcess: 0xFFFFFFFF");
    assert_eq!(ActionError::Open(5).message(), "open process failed: code 5");
}

#[derive(Default)]
struct Applied {
    actions: Vec<TargetAction>,
    refuse: Option<TargetAction>,
}

impl ProcessBackend for Applied {
    fn snapshot(&mut self, _pid: u32) -> Result<ProcState, ActionError> {
        Err(ActionError::Open(1))
    }

    fn apply(&mut self, _pid: u32, action: &TargetAction) -> Result<(), ActionError> {
        self.actions.push(*action);
        if self.refuse == Some(*action) {
            return Err(ActionError::Open(2));
        }
        Ok(())
    }

    fn restore(&mut self, pid: u32, state: &ProcState) -> Result<(), ActionError> {
        restore_by_applying(self, pid, state)
    }
}

#[test]
fn restoring_resumes_first_and_stops_at_a_failure() {
    let state = ProcState {
        priority: NORMAL_PRIORITY_CLASS,
        affinity: 3,
        suspended: true,
        qos_percent: Some(50),
    };
    let all = vec![
        TargetAction::Resume,
        TargetAction::QosCpuQuota { percent: 0 },
        TargetAction::Priority(PriorityClass::Normal),
        TargetAction::Affinity { core_mask: 3 },
    ];
    assert_eq!(restore_plan(&state), all);
    let mut b = Applied::default();
    assert!(b.restore(1, &state).is_ok());
    assert_eq!(b.actions, all);
    let mut b = Applied { refuse: Some(all[2]), ..Default::default() };
    assert!(b.restore(1, &state).is_err());
    assert_eq!(b.actions, all[..3]);
    let plain = ProcState { suspended: false, qos_percent: None, ..state };
    assert_eq!(restore_plan(&plain), all[2..]);
}

/// Runs a request against jobs of a system that always agrees.
fn run(jobs: &mut OsBackend, pid: u32, percent: u32, active: u32, attach: bool) -> Vec<QosCommand> {
    let mut done = Vec::new();
    let mut next = jobs.begin(pid, percent);
    while next != QosCommand::Done {
        done.push(next);
        let event = match next {
            QosCommand::Create => QosEvent::Created { job: 1000 + pid as u64 },
            QosCommand::Probe { .. } => QosEvent::Probed { active: Some(active) },
            QosCommand::Cap { .. } => QosEvent::Capped,
            QosCommand::Assign { .. } => QosEvent::Assigned { ok: attach },
            QosCommand::Uncap { .. } => QosEvent::Uncapped,
            QosCommand::Done => unreachable!(),
        };
        next = jobs.step(pid, percent, event);
    }
    done
}

#[test]
fn qos_job_assigns_and_caps() {
    let mut jobs = OsBackend::new();
    let done = run(&mut jobs, 7, 50, 0, true);
    assert_eq!(
        done,
        vec![
            QosCommand::Create,
            QosCommand::Cap { job: 1007, cpu_rate: 5000 },
            QosCommand::Assign { job: 1007 },
        ]
    );
    assert_eq!(jobs.get(7), Some(JobEntry { job: 1007, assigned: true }));
    assert_eq!(run(&mut jobs, 7, 0, 1, true), vec![QosCommand::Uncap { job: 1007 }]);
    assert_eq!(jobs.release(7), Some(1007));
    assert_eq!(jobs.get(7), None);
    assert_eq!(jobs.release(7), None);
}

#[test]
fn qos_clear_of_nothing_is_a_noop() {
    let mut jobs = OsBackend::new();
    assert!(run(&mut jobs, 7, 0, 1, true).is_empty());
}

#[test]
fn qos_reams_after_missed_stop_pid_reuse() {
    let mut jobs = OsBackend::new();
    run(&mut jobs, 7, 50, 0, true);
    assert!(jobs.get(7).unwrap().assigned, "first assignment must arm the job");
    // The process is gone and its pid in use again: the job is empty.
    let done = run(&mut jobs, 7, 50, 0, true);
    assert_eq!(
        done,
        vec![
            QosCommand::Probe { job: 1007 },
            QosCommand::Cap { job: 1007, cpu_rate: 5000 },
            QosCommand::Assign { job: 1007 },
        ],
        "new process must be re-assigned to the job after a missed-Stop PID reuse"
    );
    assert!(jobs.get(7).unwrap().assigned, "re-arm must re-assign the new process");
    // A live process is capped without being assigned again.
    let done = run(&mut jobs, 7, 30, 1, true);
    assert_eq!(
        done,
        vec![
            QosCommand::Probe { job: 1007 },
            QosCommand::Cap { job: 1007, cpu_rate: 3000 }
        ]
    );
}

#[test]
fn refused_attach_degrades_to_no_cap() {
    let mut jobs = OsBackend::default();
    run(&mut jobs, 7, 50, 0, false);
    assert_eq!(jobs.get(7), Some(JobEntry { job: 1007, assigned: false }));
    let done = run(&mut jobs, 7, 50, 0, true);
    assert_eq!(done[0], QosCommand::Cap { job: 1007, cpu_rate: 5000 });
}

#[test]
fn all_jobs_are_released() {
    let mut jobs = OsBackend::new();
    run(&mut jobs, 1, 10, 0, true);
    run(&mut jobs, 2, 20, 0, true);
    let mut handles = jobs.release_all();
    handles.sort();
    assert_eq!(handles, vec![1001, 1002]);
    assert!(jobs.release_all().is_empty());
    assert_eq!(jobs.get(1), None);
}
