//! Processor caps by job objects: which job belongs to which process, and the
//! steps that put a cap on a process or lift it.
//!
//! The steps are commands for the operating system; each outcome comes back as
//! an event that decides the next step.

use std::collections::HashMap;

use vstd::prelude::*;

use crate::collections::keys_of;

verus! {

broadcast use vstd::std_specs::hash::group_hash_axioms;

/// The job that is held for a process.
#[derive(Debug, Clone, Copy, PartialEq, Eq, Structural)]
pub struct JobEntry {
    /// The system's handle of the job.
    pub job: u64,
    /// The process was put into the job.
    pub assigned: bool,
}

/// What the system has to do next.
#[derive(Debug, Clone, Copy, PartialEq, Eq, Structural)]
pub enum QosCommand {
    /// Nothing is left to do.
    Done,
    /// Create a job.
    Create,
    /// Ask how many processes the job holds.
    Probe { job: u64 },
    /// Set a hard cap on the job, in hundredths of a percent.
    Cap { job: u64, cpu_rate: u32 },
    /// Put the process into the job.
    Assign { job: u64 },
    /// Lift the cap of the job.
    Uncap { job: u64 },
}

/// What came of a command.
#[derive(Debug, Clone, Copy, PartialEq, Eq, Structural)]
pub enum QosEvent {
    Created { job: u64 },
    /// The number of processes in the job; `None` when it could not be read.
    Probed { active: Option<u32> },
    Capped,
    /// Whether the process could be put into the job. A process that already is
    /// in another job may not be: it then runs without a cap.
    Assigned { ok: bool },
    Uncapped,
}

/// The cap of a job for a percentage of the machine.
pub open spec fn cpu_rate(percent: u32) -> u32 {
    (percent * 100) as u32
}

/// The first command for a request of `percent` (0 lifts the cap).
pub open spec fn first_command(
    jobs: Map<u32, JobEntry>,
    pid: u32,
    percent: u32,
) -> QosCommand {
    if percent == 0 {
        if jobs.contains_key(pid) {
            QosCommand::Uncap { job: jobs[pid].job }
        } else {
            QosCommand::Done
        }
    } else if !jobs.contains_key(pid) {
        QosCommand::Create
    } else if jobs[pid].assigned {
        QosCommand::Probe { job: jobs[pid].job }
    } else {
        QosCommand::Cap { job: jobs[pid].job, cpu_rate: cpu_rate(percent) }
    }
}

/// The jobs after an event. An empty job means that the process it was made for
/// is gone and that its pid was given out again: the entry is armed anew.
pub open spec fn jobs_after(
    jobs: Map<u32, JobEntry>,
    pid: u32,
    event: QosEvent,
) -> Map<u32, JobEntry> {
    match event {
        QosEvent::Created { job } => jobs.insert(pid, (JobEntry { job, assigned: false })),
        QosEvent::Probed { active } => if jobs.contains_key(pid) && active == Some(0u32) {
            jobs.insert(pid, (JobEntry { assigned: false, ..jobs[pid] }))
        } else {
            jobs
        },
        QosEvent::Assigned { ok } => if jobs.contains_key(pid) {
            jobs.insert(pid, (JobEntry { assigned: ok, ..jobs[pid] }))
        } else {
            jobs
        },
        QosEvent::Capped => jobs,
        QosEvent::Uncapped => jobs,
    }
}

/// The command that follows an event, given the jobs after it.
pub open spec fn next_command(
    jobs: Map<u32, JobEntry>,
    pid: u32,
    percent: u32,
    event: QosEvent,
) -> QosCommand {
    if !jobs.contains_key(pid) {
        QosCommand::Done
    } else {
        match event {
            QosEvent::Created { job: _ } => QosCommand::Cap {
                job: jobs[pid].job,
                cpu_rate: cpu_rate(percent),
            },
            QosEvent::Probed { active: _ } => QosCommand::Cap {
                job: jobs[pid].job,
                cpu_rate: cpu_rate(percent),
            },
            QosEvent::Capped => if jobs[pid].assigned {
                QosCommand::Done
            } else {
                QosCommand::Assign { job: jobs[pid].job }
            },
            QosEvent::Assigned { ok: _ } => QosCommand::Done,
            QosEvent::Uncapped => QosCommand::Done,
        }
    }
}

/// What the production backend keeps: the jobs that are held, by process.
pub struct OsBackend {
    jobs: HashMap<u32, JobEntry>,
}

impl View for OsBackend {
    type V = Map<u32, JobEntry>;

    closed spec fn view(&self) -> Map<u32, JobEntry> {
        self.jobs@
    }
}

impl Default for OsBackend {
    fn default() -> (r: Self)
        ensures
            r@ == Map::<u32, JobEntry>::empty(),
    {
        OsBackend { jobs: HashMap::new() }
    }
}

impl OsBackend {
    /// No jobs.
    pub fn new() -> (r: Self)
        ensures
            r@ == Map::<u32, JobEntry>::empty(),
    {
        Self::default()
    }

    /// The job that is held for a process.
    pub fn get(&self, pid: u32) -> (r: Option<JobEntry>)
        ensures
            r is Some <==> self@.contains_key(pid),
            r is Some ==> r->0 == self@[pid],
    {
        match self.jobs.get(&pid) {
            Some(e) => Some(*e),
            None => None,
        }
    }

    /// Begins a request to cap a process at `percent`, or to lift its cap (0).
    pub fn begin(&self, pid: u32, percent: u32) -> (r: QosCommand)
        requires
            percent * 100 <= u32::MAX,
        ensures
            r == first_command(self@, pid, percent),
    {
        match self.get(pid) {
            None => if percent == 0 {
                QosCommand::Done
            } else {
                QosCommand::Create
            },
            Some(e) => if percent == 0 {
                QosCommand::Uncap { job: e.job }
            } else if e.assigned {
                QosCommand::Probe { job: e.job }
            } else {
                QosCommand::Cap { job: e.job, cpu_rate: percent * 100 }
            },
        }
    }

    /// Takes an outcome in and says what follows.
    pub fn step(&mut self, pid: u32, percent: u32, event: QosEvent) -> (r: QosCommand)
        requires
            percent * 100 <= u32::MAX,
        ensures
            final(self)@ == jobs_after(old(self)@, pid, event),
            r == next_command(final(self)@, pid, percent, event),
    {
        match event {
            QosEvent::Created { job } => {
                self.jobs.insert(pid, JobEntry { job, assigned: false });
                QosCommand::Cap { job, cpu_rate: percent * 100 }
            },
            QosEvent::Probed { active } => match self.get(pid) {
                None => QosCommand::Done,
                Some(e) => {
                    if let Some(0) = active {
                        self.jobs.insert(pid, JobEntry { job: e.job, assigned: false });
                    }
                    QosCommand::Cap { job: e.job, cpu_rate: percent * 100 }
                },
            },
            QosEvent::Capped => match self.get(pid) {
                None => QosCommand::Done,
                Some(e) => if e.assigned {
                    QosCommand::Done
                } else {
                    QosCommand::Assign { job: e.job }
                },
            },
            QosEvent::Assigned { ok } => {
                if let Some(e) = self.get(pid) {
                    self.jobs.insert(pid, JobEntry { job: e.job, assigned: ok });
                }
                QosCommand::Done
            },
            QosEvent::Uncapped => QosCommand::Done,
        }
    }

    /// A process is gone: the job to close, if one is held for it.
    pub fn release(&mut self, pid: u32) -> (r: Option<u64>)
        ensures
            final(self)@ == old(self)@.remove(pid),
            r is Some <==> old(self)@.contains_key(pid),
            r is Some ==> r->0 == old(self)@[pid].job,
    {
        match self.jobs.remove(&pid) {
            Some(e) => Some(e.job),
            None => {
                assert(self@ =~= old(self)@);
                None
            },
        }
    }

    /// Drops every entry; the jobs, each to be uncapped and closed, in some order.
    pub fn release_all(&mut self) -> (r: Vec<u64>)
        ensures
            final(self)@ == Map::<u32, JobEntry>::empty(),
            exists|pids: Seq<u32>| #[trigger] lists_jobs(old(self)@, pids, r@),
    {
        let pids = keys_of(&self.jobs);
        let mut r: Vec<u64> = Vec::new();
        let mut i: usize = 0;
        while i < pids.len()
            invariant
                i <= pids@.len(),
                pids@.to_set() == self@.dom(),
                r@.len() == i,
                forall|k: int| 0 <= k < i ==> #[trigger] r@[k] == self@[pids@[k]].job,
            decreases pids@.len() - i,
        {
            assert(pids@.to_set().contains(pids@[i as int]));
            if let Some(e) = self.get(pids[i]) {
                r.push(e.job);
            }
            i = i + 1;
        }
        assert(lists_jobs(old(self)@, pids@, r@));
        self.jobs.clear();
        r
    }
}

/// `handles` holds the job of each process, each once, in the order of `pids`.
pub open spec fn lists_jobs(
    jobs: Map<u32, JobEntry>,
    pids: Seq<u32>,
    handles: Seq<u64>,
) -> bool {
    &&& pids.no_duplicates()
    &&& pids.to_set() == jobs.dom()
    &&& handles.len() == pids.len()
    &&& forall|i: int| 0 <= i < pids.len() ==> #[trigger] handles[i] == jobs[pids[i]].job
}

/// A missed exit does not lose a cap. Where the job held for a pid turns out to
/// be empty, its process is gone and the pid was given out again: the request
/// caps the job and then puts the new process into it, and once that is done the
/// entry stands as assigned.
pub proof fn reused_pid_is_assigned_again(
    jobs: Map<u32, JobEntry>,
    pid: u32,
    percent: u32,
)
    requires
        jobs.contains_key(pid),
        jobs[pid].assigned,
        0 < percent,
        percent * 100 <= u32::MAX,
    ensures
        ({
            let job = jobs[pid].job;
            let armed = jobs_after(jobs, pid, QosEvent::Probed { active: Some(0) });
            let capped = jobs_after(armed, pid, QosEvent::Capped);
            let end = jobs_after(capped, pid, QosEvent::Assigned { ok: true });
            &&& first_command(jobs, pid, percent) == QosCommand::Probe { job }
            &&& next_command(armed, pid, percent, QosEvent::Probed { active: Some(0) })
                == QosCommand::Cap { job, cpu_rate: cpu_rate(percent) }
            &&& next_command(capped, pid, percent, QosEvent::Capped) == QosCommand::Assign { job }
            &&& next_command(end, pid, percent, QosEvent::Assigned { ok: true })
                == QosCommand::Done
            &&& end == jobs
        }),
{
    let armed = jobs_after(jobs, pid, QosEvent::Probed { active: Some(0) });
    let capped = jobs_after(armed, pid, QosEvent::Capped);
    let end = jobs_after(capped, pid, QosEvent::Assigned { ok: true });
    assert(end =~= jobs);
}

/// A process that is still in its job is capped anew without being put into it
/// a second time.
pub proof fn live_process_is_only_capped(
    jobs: Map<u32, JobEntry>,
    pid: u32,
    percent: u32,
    active: Option<u32>,
)
    requires
        jobs.contains_key(pid),
        jobs[pid].assigned,
        0 < percent,
        percent * 100 <= u32::MAX,
        active != Some(0u32),
    ensures
        jobs_after(jobs, pid, QosEvent::Probed { active }) == jobs,
        next_command(jobs, pid, percent, QosEvent::Probed { active }) == (QosCommand::Cap {
            job: jobs[pid].job,
            cpu_rate: cpu_rate(percent),
        }),
        next_command(jobs, pid, percent, QosEvent::Capped) == QosCommand::Done,
{
}

/// A process that cannot be put into its job keeps its entry, unassigned, and
/// the request ends without an error.
pub proof fn refused_process_runs_uncapped(
    jobs: Map<u32, JobEntry>,
    pid: u32,
    percent: u32,
)
    requires
        jobs.contains_key(pid),
    ensures
        ({
            let after = jobs_after(jobs, pid, QosEvent::Assigned { ok: false });
            &&& next_command(after, pid, percent, QosEvent::Assigned { ok: false })
                == QosCommand::Done
            &&& after.contains_key(pid)
            &&& !after[pid].assigned
            &&& after[pid].job == jobs[pid].job
        }),
{
}

/// Lifting the cap of a process that has none asks nothing of the system.
pub proof fn lifting_no_cap_does_nothing(jobs: Map<u32, JobEntry>, pid: u32)
    requires
        !jobs.contains_key(pid),
    ensures
        first_command(jobs, pid, 0) == QosCommand::Done,
{
}

/// A cap is given in hundredths of a percent, in every command that sets one.
pub proof fn caps_are_in_hundredths(
    jobs: Map<u32, JobEntry>,
    pid: u32,
    percent: u32,
    event: QosEvent,
)
    requires
        percent * 100 <= u32::MAX,
    ensures
        first_command(jobs, pid, percent) is Cap ==> first_command(jobs, pid, percent)->cpu_rate
            == percent * 100,
        next_command(jobs, pid, percent, event) is Cap ==> next_command(
            jobs,
            pid,
            percent,
            event,
        )->cpu_rate == percent * 100,
{
}

/// A process without a job gets one: it is created, capped and then given the process, in
/// this order; what is kept tells whether that last step worked. No other process's job
/// changes.
pub proof fn new_process_is_capped_then_assigned(
    jobs: Map<u32, JobEntry>,
    pid: u32,
    percent: u32,
    job: u64,
    ok: bool,
)
    requires
        !jobs.contains_key(pid),
        0 < percent,
        percent * 100 <= u32::MAX,
    ensures
        ({
            let created = jobs_after(jobs, pid, QosEvent::Created { job });
            let capped = jobs_after(created, pid, QosEvent::Capped);
            let end = jobs_after(capped, pid, QosEvent::Assigned { ok });
            &&& first_command(jobs, pid, percent) == QosCommand::Create
            &&& next_command(created, pid, percent, QosEvent::Created { job })
                == (QosCommand::Cap { job, cpu_rate: (percent * 100) as u32 })
            &&& next_command(capped, pid, percent, QosEvent::Capped) == (QosCommand::Assign { job })
            &&& next_command(end, pid, percent, QosEvent::Assigned { ok }) == QosCommand::Done
            &&& end.contains_key(pid) && end[pid].job == job && end[pid].assigned == ok
            &&& forall|p: u32|
                p != pid ==> (#[trigger] end.contains_key(p) <==> jobs.contains_key(p)) && (
                jobs.contains_key(p) ==> end[p] == jobs[p])
        }),
{
}

/// Lifting a cap speaks to the job that is held for the process, and keeps it.
pub proof fn lifting_speaks_to_the_held_job(jobs: Map<u32, JobEntry>, pid: u32)
    requires
        jobs.contains_key(pid),
    ensures
        first_command(jobs, pid, 0) == (QosCommand::Uncap { job: jobs[pid].job }),
        jobs_after(jobs, pid, QosEvent::Uncapped) == jobs,
        next_command(jobs, pid, 0, QosEvent::Uncapped) == QosCommand::Done,
{
}

} // verus!
