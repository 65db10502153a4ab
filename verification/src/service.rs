//! The service: what each message does to the policy engine and to the snapshot
//! that clients see, and when actions are put off under load.
//!
//! Time is given in milliseconds of a clock that never runs backwards.

use vstd::prelude::*;

use crate::actions::{added, extends, BackendCall, ProcessBackend, QosLifecycle};
use crate::boost_laws::recorded_name;
use crate::collections::keys_of;
use crate::config::{config_problem, valid_config, Config, ConfigError, ConfigView};
use crate::events::{ForegroundEvent, ProcessEvent, ProcessKind};
use crate::ipc::{
    empty_state, info_views, saved_view, clone_text_in, InfoView, ProcessInfo, StateSnapshot,
    StateView,
};
use crate::network::{reconcile, reconciles, EntryView};
use crate::policy::{
    exits, focuses, masks_fit, new_engine, reconfigures, rules_matchable, starts, stops,
    unusable_text, EngineView, Mode, PolicyEngine,
};
use crate::text::copy_text;

verus! {

broadcast use vstd::std_specs::hash::group_hash_axioms;

/// The least time between two snapshots that no message forces.
pub const SNAPSHOT_REFRESH_INTERVAL: u64 = 250;

/// The system load, in percent, above which process events are put off.
pub const LOAD_LIMIT: u32 = 85;

/// The least time between two warnings about load.
pub const LOAD_WARN_INTERVAL: u64 = 1000;

/// What the main loop of the service is told.
#[derive(Debug)]
pub enum ServiceMsg {
    Proc(ProcessEvent),
    Foreground(ForegroundEvent),
    /// Read the configuration file again; this is what came of reading it.
    Reload(Result<Config, ConfigError>),
    /// Take over a configuration; this is what came of writing it to the file,
    /// which is only tried when [`Service::check_save`] has nothing against it.
    SaveConfig { cfg: Config, written: Result<(), String> },
    /// Open or close the overlay.
    ToggleOverlay,
    /// End the service.
    Stop,
}

// ---------------------------------------------------------------------------
// Snapshots
// ---------------------------------------------------------------------------
/// The name of a mode.
pub open spec fn mode_name(mode: Mode) -> Seq<char> {
    match mode {
        Mode::Normal => "Normal"@,
        Mode::GameBoost => "GameBoost"@,
    }
}

/// The boosted processes in the given order, under their recorded names.
pub open spec fn boosted_infos(v: EngineView, order: Seq<u32>) -> Seq<InfoView> {
    order.map_values(
        |pid: u32| InfoView { pid, name: v.table.name_or_empty(pid), is_game: false },
    )
}

/// `infos` lists every boosted process once, in some order.
pub open spec fn lists_boosted(v: EngineView, infos: Seq<InfoView>) -> bool {
    exists|order: Seq<u32>|
        order.no_duplicates() && order.to_set() == v.boosted.dom() && infos
            == #[trigger] boosted_infos(v, order)
}

/// The tracked processes, in table order.
pub open spec fn process_infos(v: EngineView) -> Seq<InfoView> {
    v.table.listing().map_values(
        |r: (u32, Seq<char>, bool)| InfoView { pid: r.0, name: r.1, is_game: r.2 },
    )
}

/// `state` shows the engine as it is, with the given outcome of the last reload.
pub open spec fn shows(state: StateView, v: EngineView, last_reload: Option<Seq<char>>) -> bool {
    &&& state.mode == mode_name(v.mode)
    &&& lists_boosted(v, state.boosted)
    &&& state.processes == process_infos(v)
    &&& state.last_reload == last_reload
    &&& state.config == v.cfg
}

/// A snapshot is made: when a message forces it, when there was none yet, or
/// when the last one is old enough.
pub open spec fn refresh_due(force: bool, last: Option<u64>, now: u64) -> bool {
    force || match last {
        Some(t) => now - t >= SNAPSHOT_REFRESH_INTERVAL,
        None => true,
    }
}

/// Messages after which the snapshot must not be stale.
pub open spec fn forces_refresh(msg: ServiceMsg) -> bool {
    msg is Reload || msg is Stop || msg is SaveConfig
}

/// A service as a value.
pub struct ServiceView {
    pub engine: EngineView,
    pub state: StateView,
    pub last_refresh: Option<u64>,
}

/// The snapshot after a message that left the engine as it is in `w`.
pub open spec fn refreshed(
    v: ServiceView,
    force: bool,
    now: u64,
    last_reload: Option<Seq<char>>,
    w: ServiceView,
) -> bool {
    if refresh_due(force, v.last_refresh, now) {
        w.last_refresh == Some(now) && shows(w.state, w.engine, last_reload)
    } else {
        w.last_refresh == v.last_refresh && w.state == (StateView { last_reload, ..v.state })
    }
}

// ---------------------------------------------------------------------------
// Messages
// ---------------------------------------------------------------------------
/// A configuration can be taken over: it breaks no rule and the engine can run
/// it.
pub open spec fn saveable(c: ConfigView) -> bool {
    valid_config(c) && rules_matchable(c)
}

/// What is said of a configuration that cannot be taken over.
pub open spec fn save_refusal(c: ConfigView) -> Seq<char> {
    match config_problem(c) {
        Some(m) => "validation: "@ + m,
        None => unusable_text(c),
    }
}

/// The outcome of a message: what is returned, the engine's state, and the
/// outcome of the last reload.
pub open spec fn handles(
    v: ServiceView,
    msg: ServiceMsg,
    calls: Seq<BackendCall>,
    w: EngineView,
    last_reload: Option<Seq<char>>,
    r: Result<Seq<char>, Seq<char>>,
) -> bool {
    match msg {
        ServiceMsg::Proc(ev) => {
            &&& if ev.kind == ProcessKind::Start {
                starts(v.engine, ev.pid, ev.name@, calls, w)
            } else {
                stops(v.engine, ev.pid, calls, w)
            }
            &&& last_reload == v.state.last_reload
            &&& r == Ok::<Seq<char>, Seq<char>>(Seq::empty())
        },
        ServiceMsg::Foreground(ev) => {
            &&& focuses(v.engine, ev.pid, calls, w)
            &&& last_reload == v.state.last_reload
            &&& r == Ok::<Seq<char>, Seq<char>>(Seq::empty())
        },
        ServiceMsg::Reload(loaded) => match loaded {
            Ok(cfg) => if rules_matchable(cfg@) && masks_fit(cfg@) {
                &&& reconfigures(v.engine, cfg@, calls, w)
                &&& last_reload is None
                &&& r == Ok::<Seq<char>, Seq<char>>(Seq::empty())
            } else {
                &&& calls.len() == 0 && w == v.engine
                &&& last_reload == Some(unusable_text(cfg@))
                &&& r == Err::<Seq<char>, Seq<char>>(unusable_text(cfg@))
            },
            Err(e) => {
                &&& calls.len() == 0 && w == v.engine
                &&& last_reload == Some(e.message_spec())
                &&& r == Err::<Seq<char>, Seq<char>>(e.message_spec())
            },
        },
        ServiceMsg::SaveConfig { cfg, written } => {
            &&& last_reload == v.state.last_reload
            &&& if !saveable(cfg@) {
                &&& calls.len() == 0 && w == v.engine
                &&& r == Err::<Seq<char>, Seq<char>>(save_refusal(cfg@))
            } else {
                match written {
                    Ok(_) => {
                        &&& reconfigures(v.engine, cfg@, calls, w)
                        &&& r == Ok::<Seq<char>, Seq<char>>("saved"@)
                    },
                    Err(e) => {
                        &&& calls.len() == 0 && w == v.engine
                        &&& r == Err::<Seq<char>, Seq<char>>(e@)
                    },
                }
            }
        },
        ServiceMsg::ToggleOverlay => {
            &&& calls.len() == 0 && w == v.engine
            &&& last_reload == v.state.last_reload
            &&& r == Ok::<Seq<char>, Seq<char>>(Seq::empty())
        },
        ServiceMsg::Stop => {
            &&& exits(v.engine, calls, w)
            &&& last_reload == v.state.last_reload
            &&& r == Ok::<Seq<char>, Seq<char>>(Seq::empty())
        },
    }
}

/// The service: the engine and the snapshot that clients are answered from.
pub struct Service<B: ProcessBackend + QosLifecycle> {
    engine: PolicyEngine<B>,
    state: StateSnapshot,
    last_refresh: Option<u64>,
}

impl<B: ProcessBackend + QosLifecycle> View for Service<B> {
    type V = ServiceView;

    closed spec fn view(&self) -> ServiceView {
        ServiceView {
            engine: self.engine@,
            state: self.state@,
            last_refresh: self.last_refresh,
        }
    }
}

impl<B: ProcessBackend + QosLifecycle> Service<B> {
    /// The calls that the backend was asked to perform.
    pub closed spec fn calls(&self) -> Seq<BackendCall> {
        self.engine.calls()
    }

    /// The engine is well formed.
    pub closed spec fn wf(&self) -> bool {
        self.engine.wf()
    }

    /// What a service that is well formed holds.
    pub proof fn wf_means(&self)
        requires
            self.wf(),
        ensures
            self@.engine.quiet_when_normal(),
            self@.engine.boost_has_game(),
    {
        self.engine.wf_means();
    }

    /// A service with a new engine. First of all, what the marker at `marker` lists is
    /// put back, so that a crash in a boost leaves no tweak behind; the engine keeps
    /// its own marker at the same place. The snapshot is empty but for the
    /// configuration, so that a client that comes before the first event already
    /// reads the real one. Nothing comes of a configuration that the engine cannot
    /// run.
    pub fn new(cfg: Config, backend: B, marker: String) -> (r: Option<Self>)
        ensures
            r is Some <==> rules_matchable(cfg@) && masks_fit(cfg@),
            r is Some ==> {
                &&& r->0.wf()
                &&& extends(backend.calls(), r->0.calls())
                &&& exists|file: Option<Seq<u8>>, found: Option<Seq<EntryView>>, done: Seq<bool>|
                    #[trigger] reconciles(
                        marker@,
                        file,
                        found,
                        done,
                        added(backend.calls(), r->0.calls()),
                    )
                &&& r->0@ == (ServiceView {
                    engine: EngineView { marker: marker@, ..new_engine(cfg@) },
                    state: StateView { config: cfg@, ..empty_state() },
                    last_refresh: None,
                })
            },
    {
        let mut host = backend;
        reconcile(&mut host, marker.as_str());
        let mut state = StateSnapshot::default();
        state.config = cfg.clone();
        match PolicyEngine::try_new(cfg, host) {
            Some(mut engine) => {
                engine.set_network_marker(marker);
                Some(Service { engine, state, last_refresh: None })
            },
            None => None,
        }
    }

    /// The engine.
    pub fn engine(&self) -> (r: &PolicyEngine<B>)
        ensures
            r@ == self@.engine,
            r.calls() == self.calls(),
            self.wf() ==> r.wf(),
    {
        &self.engine
    }

    /// The snapshot that clients are answered from.
    pub fn state(&self) -> (r: &StateSnapshot)
        ensures
            r@ == self@.state,
    {
        &self.state
    }

    /// The state of the engine at this moment.
    pub fn current_state(&self) -> (r: StateSnapshot)
        ensures
            shows(r@, self@.engine, self@.state.last_reload),
    {
        let mode = match self.engine.mode() {
            Mode::Normal => copy_text("Normal"),
            Mode::GameBoost => copy_text("GameBoost"),
        };
        let ghost v = self.engine@;
        let pids = keys_of(self.engine.boosted());
        let mut boosted: Vec<ProcessInfo> = Vec::new();
        let mut i: usize = 0;
        while i < pids.len()
            invariant
                i <= pids@.len(),
                v == self.engine@,
                boosted@.len() == i,
                forall|k: int|
                    0 <= k < i ==> (#[trigger] boosted@[k])@ == (InfoView {
                        pid: pids@[k],
                        name: v.table.name_or_empty(pids@[k]),
                        is_game: false,
                    }),
            decreases pids@.len() - i,
        {
            let pid: u32 = pids[i];
            let name = match self.engine.pid_name(pid) {
                Some(n) => n,
                None => {
                    let n = String::new();
                    assert(n@ =~= Seq::<char>::empty());
                    n
                },
            };
            boosted.push(ProcessInfo { pid, name, is_game: false });
            i = i + 1;
        }
        assert(info_views(boosted@) =~= boosted_infos(v, pids@));
        let rows = self.engine.iter_processes();
        let mut processes: Vec<ProcessInfo> = Vec::new();
        let mut k: usize = 0;
        while k < rows.len()
            invariant
                k <= rows@.len(),
                processes@.len() == k,
                forall|j: int|
                    0 <= j < k ==> (#[trigger] processes@[j])@ == (InfoView {
                        pid: rows@[j].0,
                        name: rows@[j].1@,
                        is_game: rows@[j].2,
                    }),
            decreases rows@.len() - k,
        {
            let (pid, name, is_game) = rows[k];
            processes.push(ProcessInfo { pid, name: copy_text(name), is_game });
            k = k + 1;
        }
        proof {
            let all = v.table.listing();
            assert(crate::proc_table::listed(rows@) == all);
            assert forall|j: int| 0 <= j < rows@.len() implies (#[trigger] info_views(
                processes@,
            )[j]) == process_infos(v)[j] by {
                assert(all[j] == (rows@[j].0, rows@[j].1@, rows@[j].2));
                assert(processes@[j]@ == info_views(processes@)[j]);
            }
            assert(info_views(processes@) =~= process_infos(v));
        }
        StateSnapshot {
            mode,
            boosted,
            processes,
            last_reload: clone_text_in(&self.state.last_reload),
            config: self.engine.cfg().clone(),
        }
    }

    fn maybe_refresh_state(&mut self, force: bool, now: u64)
        requires
            old(self).wf(),
        ensures
            final(self).wf(),
            final(self).calls() == old(self).calls(),
            final(self)@.engine == old(self)@.engine,
            refreshed(
                old(self)@,
                force,
                now,
                old(self)@.state.last_reload,
                final(self)@,
            ),
    {
        let due: bool = force || match self.last_refresh {
            Some(t) => now >= t && now - t >= SNAPSHOT_REFRESH_INTERVAL,
            None => true,
        };
        if due {
            self.last_refresh = Some(now);
            self.state = self.current_state();
        }
    }

    /// Whether a configuration may be written to the file: it breaks no rule and
    /// the engine can run it. Asked before anything is written, so that a
    /// configuration that is refused never touches the file.
    pub fn check_save(cfg: &Config) -> (r: Result<(), String>)
        ensures
            r is Ok <==> saveable(cfg@),
            r is Err ==> r->Err_0@ == save_refusal(cfg@),
    {
        match cfg.validate() {
            Err(e) => Err(e.message()),
            Ok(()) => {
                proof {
                    crate::policy::valid_masks_fit(cfg@);
                }
                match crate::policy::refusal(cfg) {
                    None => Ok(()),
                    Some(m) => Err(m),
                }
            },
        }
    }

    fn reload(&mut self, loaded: Result<Config, ConfigError>) -> (r: Result<(), String>)
        requires
            old(self).wf(),
        ensures
            final(self).wf(),
            extends(old(self).calls(), final(self).calls()),
            final(self)@.last_refresh == old(self)@.last_refresh,
            final(self)@.state == (StateView {
                last_reload: final(self)@.state.last_reload,
                ..old(self)@.state
            }),
            handles(
                old(self)@,
                ServiceMsg::Reload(loaded),
                added(old(self).calls(), final(self).calls()),
                final(self)@.engine,
                final(self)@.state.last_reload,
                done_view(r),
            ),
    {
        match loaded {
            Ok(cfg) => {
                if let Some(msg) = crate::policy::refusal(&cfg) {
                    self.state.last_reload = Some(msg.clone());
                    proof {
                        assert(self.calls().take(self.calls().len() as int) =~= self.calls());
                    }
                    return Err(msg);
                }
                self.engine.set_config(cfg);
                self.state.last_reload = None;
                Ok(())
            },
            Err(e) => {
                let msg = e.message();
                self.state.last_reload = Some(msg.clone());
                proof {
                    assert(self.calls().take(self.calls().len() as int) =~= self.calls());
                }
                Err(msg)
            },
        }
    }

    fn persist_config(&mut self, cfg: Config, written: Result<(), String>) -> (r: Result<
        String,
        String,
    >)
        requires
            old(self).wf(),
        ensures
            final(self).wf(),
            extends(old(self).calls(), final(self).calls()),
            final(self)@.last_refresh == old(self)@.last_refresh,
            final(self)@.state == old(self)@.state,
            handles(
                old(self)@,
                (ServiceMsg::SaveConfig { cfg, written }),
                added(old(self).calls(), final(self).calls()),
                final(self)@.engine,
                final(self)@.state.last_reload,
                saved_view(r),
            ),
    {
        proof {
            assert(self.calls().take(self.calls().len() as int) =~= self.calls());
        }
        if let Err(m) = Self::check_save(&cfg) {
            return Err(m);
        }
        if let Err(e) = written {
            return Err(e);
        }
        proof {
            crate::policy::valid_masks_fit(cfg@);
        }
        self.engine.set_config(cfg);
        Ok(copy_text("saved"))
    }

    /// Takes a message in. What is returned for a save is the answer to the
    /// client; other messages return an empty text. The snapshot is refreshed
    /// before the answer is given.
    pub fn handle_message(&mut self, msg: ServiceMsg, now: u64) -> (r: Result<String, String>)
        requires
            old(self).wf(),
        ensures
            final(self).wf(),
            extends(old(self).calls(), final(self).calls()),
            handles(
                old(self)@,
                msg,
                added(old(self).calls(), final(self).calls()),
                final(self)@.engine,
                final(self)@.state.last_reload,
                saved_view(r),
            ),
            refreshed(
                old(self)@,
                forces_refresh(msg),
                now,
                final(self)@.state.last_reload,
                final(self)@,
            ),
    {
        proof {
            assert(self.calls().take(self.calls().len() as int) =~= self.calls());
        }
        let force: bool = match &msg {
            ServiceMsg::Reload(_) => true,
            ServiceMsg::Stop => true,
            ServiceMsg::SaveConfig { cfg: _, written: _ } => true,
            _ => false,
        };
        let empty = String::new();
        assert(empty@ =~= Seq::<char>::empty());
        let r: Result<String, String> = match msg {
            ServiceMsg::Proc(ev) => {
                self.engine.on_process_event(&ev);
                Ok(empty)
            },
            ServiceMsg::Foreground(ev) => {
                self.engine.on_foreground(&ev);
                Ok(empty)
            },
            ServiceMsg::Reload(loaded) => match self.reload(loaded) {
                Ok(()) => Ok(empty),
                Err(m) => Err(m),
            },
            ServiceMsg::SaveConfig { cfg, written } => self.persist_config(cfg, written),
            ServiceMsg::ToggleOverlay => Ok(empty),
            ServiceMsg::Stop => {
                self.engine.exit_game_mode();
                Ok(empty)
            },
        };
        self.maybe_refresh_state(force, now);
        r
    }
}

/// An outcome without a text as a value.
pub open spec fn done_view(r: Result<(), String>) -> Result<Seq<char>, Seq<char>> {
    match r {
        Ok(_) => Ok(Seq::empty()),
        Err(m) => Err(m@),
    }
}

// ---------------------------------------------------------------------------
// What holds of messages
// ---------------------------------------------------------------------------
/// A configuration that breaks a rule is never taken over: the engine keeps its
/// own, nothing is done to any process, and the client is told the first
/// problem.
pub proof fn invalid_config_is_refused(
    v: ServiceView,
    cfg: Config,
    written: Result<(), String>,
    calls: Seq<BackendCall>,
    w: EngineView,
    last_reload: Option<Seq<char>>,
    r: Result<Seq<char>, Seq<char>>,
)
    requires
        handles(v, (ServiceMsg::SaveConfig { cfg, written }), calls, w, last_reload, r),
        !valid_config(cfg@),
    ensures
        calls.len() == 0,
        w == v.engine,
        r is Err,
        config_problem(cfg@) is Some,
        r->Err_0 == "validation: "@ + config_problem(cfg@)->0,
{
    crate::config::no_problem_means_valid(cfg@);
}

/// A configuration that was saved is active at once, and the snapshot that the
/// next client reads shows it.
pub proof fn saved_config_is_visible(
    v: ServiceView,
    cfg: Config,
    written: Result<(), String>,
    calls: Seq<BackendCall>,
    w: ServiceView,
    now: u64,
    r: Result<Seq<char>, Seq<char>>,
)
    requires
        handles(
            v,
            (ServiceMsg::SaveConfig { cfg, written }),
            calls,
            w.engine,
            w.state.last_reload,
            r,
        ),
        refreshed(v, true, now, w.state.last_reload, w),
        r is Ok,
    ensures
        w.engine.cfg == cfg@,
        w.state.config == cfg@,
{
    crate::laws::reconfiguring_follows_running_games(v.engine, cfg@, calls, w.engine);
}

/// A configuration file that cannot be read leaves the active configuration in
/// force, and the snapshot tells why.
pub proof fn failed_reload_keeps_config(
    v: ServiceView,
    e: ConfigError,
    calls: Seq<BackendCall>,
    w: ServiceView,
    now: u64,
    r: Result<Seq<char>, Seq<char>>,
)
    requires
        handles(v, ServiceMsg::Reload(Err(e)), calls, w.engine, w.state.last_reload, r),
        refreshed(v, true, now, w.state.last_reload, w),
    ensures
        w.engine == v.engine,
        calls.len() == 0,
        w.state.last_reload == Some(e.message_spec()),
        r == Err::<Seq<char>, Seq<char>>(e.message_spec()),
{
}

/// Stopping the service leaves nothing boosted, and the snapshot says so.
pub proof fn stopping_restores_everything(
    v: ServiceView,
    calls: Seq<BackendCall>,
    w: ServiceView,
    now: u64,
    r: Result<Seq<char>, Seq<char>>,
)
    requires
        v.engine.quiet_when_normal(),
        handles(v, ServiceMsg::Stop, calls, w.engine, w.state.last_reload, r),
        refreshed(v, true, now, w.state.last_reload, w),
    ensures
        w.engine.mode == Mode::Normal,
        w.engine.boosted.len() == 0,
        w.state.mode == "Normal"@,
        w.state.boosted.len() == 0,
{
    let order = choose|order: Seq<u32>|
        order.no_duplicates() && order.to_set() == w.engine.boosted.dom() && w.state.boosted
            == #[trigger] boosted_infos(w.engine, order);
    assert(order.to_set() =~= Set::<u32>::empty());
    if order.len() > 0 {
        assert(order.to_set().contains(order[0]));
    }
}

// ---------------------------------------------------------------------------
// Load
// ---------------------------------------------------------------------------
/// Whether a process event is handled or put off.
#[derive(Debug, Clone, Copy, PartialEq, Eq, Structural)]
pub enum Admission {
    Handle,
    /// Put off; a warning is due or not.
    Defer { warn: bool },
}

/// Puts process events off while the load is high, and says when to warn.
pub struct LoadLimiter {
    last_warn: u64,
}

impl LoadLimiter {
    /// The time of the last warning, at first that of the start.
    pub closed spec fn last_warn_spec(&self) -> u64 {
        self.last_warn
    }

    pub fn new(now: u64) -> (r: Self)
        ensures
            r.last_warn_spec() == now,
    {
        LoadLimiter { last_warn: now }
    }

    /// Decides on a process event at the given load. Above the limit it is put
    /// off, with a warning if the last one is more than a second old.
    pub fn decide(&mut self, load: u32, now: u64) -> (r: Admission)
        ensures
            load <= LOAD_LIMIT ==> r == Admission::Handle,
            load > LOAD_LIMIT ==> r == (Admission::Defer {
                warn: now - old(self).last_warn_spec() > LOAD_WARN_INTERVAL,
            }),
            final(self).last_warn_spec() == if r == (Admission::Defer { warn: true }) {
                now
            } else {
                old(self).last_warn_spec()
            },
    {
        if load > LOAD_LIMIT {
            let warn: bool = now >= self.last_warn && now - self.last_warn > LOAD_WARN_INTERVAL;
            if warn {
                self.last_warn = now;
            }
            Admission::Defer { warn }
        } else {
            Admission::Handle
        }
    }
}

/// The times of one processor. The kernel time has the idle time in it.
#[derive(Debug, Clone, Copy, PartialEq, Eq, Structural)]
pub struct CpuTimes {
    pub idle: u64,
    pub kernel: u64,
    pub user: u64,
}

/// The times of all processors together.
#[derive(Debug, Clone, Copy, PartialEq, Eq, Structural)]
pub struct LoadSample {
    pub idle: u64,
    pub total: u64,
}

/// The sum of two numbers, or the largest number.
pub open spec fn capped_sum(a: u64, b: u64) -> u64 {
    if a + b > u64::MAX {
        u64::MAX
    } else {
        (a + b) as u64
    }
}

/// The sample of the first processors. Idle time is part of the kernel time and
/// is not counted a second time in the total.
pub open spec fn sample_of(times: Seq<CpuTimes>) -> LoadSample
    decreases times.len(),
{
    if times.len() == 0 {
        LoadSample { idle: 0, total: 0 }
    } else {
        let before = sample_of(times.drop_last());
        LoadSample {
            idle: capped_sum(before.idle, times.last().idle),
            total: capped_sum(
                capped_sum(before.total, times.last().kernel),
                times.last().user,
            ),
        }
    }
}

fn capped_add(a: u64, b: u64) -> (r: u64)
    ensures
        r == capped_sum(a, b),
{
    if a > u64::MAX - b {
        u64::MAX
    } else {
        a + b
    }
}

/// Adds the times of all processors up.
pub fn accumulate(times: &Vec<CpuTimes>) -> (r: LoadSample)
    ensures
        r == sample_of(times@),
{
    let mut idle: u64 = 0;
    let mut total: u64 = 0;
    let mut i: usize = 0;
    assert(times@.take(0) =~= Seq::<CpuTimes>::empty());
    while i < times.len()
        invariant
            i <= times@.len(),
            sample_of(times@.take(i as int)) == (LoadSample { idle, total }),
        decreases times@.len() - i,
    {
        let t = times[i];
        assert(times@.take(i + 1).drop_last() =~= times@.take(i as int));
        idle = capped_add(idle, t.idle);
        total = capped_add(capped_add(total, t.kernel), t.user);
        i = i + 1;
    }
    assert(times@.take(i as int) =~= times@);
    LoadSample { idle, total }
}

/// What was added from one number to a later one; nothing if it is smaller.
pub open spec fn growth(before: u64, after: u64) -> u64 {
    if after >= before {
        (after - before) as u64
    } else {
        0
    }
}

/// The busy time and the whole time between two samples; nothing where there is
/// no earlier sample or no time has passed.
pub open spec fn busy_share_spec(prev: Option<LoadSample>, cur: LoadSample) -> Option<(u64, u64)> {
    match prev {
        None => None,
        Some(p) => {
            let total = growth(p.total, cur.total);
            if total == 0 {
                None
            } else {
                Some((growth(growth(p.idle, cur.idle), total), total))
            }
        },
    }
}

fn grown(before: u64, after: u64) -> (r: u64)
    ensures
        r == growth(before, after),
{
    if after >= before {
        after - before
    } else {
        0
    }
}

/// The busy time and the whole time between two samples.
pub fn busy_share(prev: Option<LoadSample>, cur: LoadSample) -> (r: Option<(u64, u64)>)
    ensures
        r == busy_share_spec(prev, cur),
        match r {
            Some(share) => share.0 <= share.1 && share.1 > 0,
            None => true,
        },
{
    match prev {
        None => None,
        Some(p) => {
            let total: u64 = grown(p.total, cur.total);
            if total == 0 {
                return None;
            }
            let idle: u64 = grown(p.idle, cur.idle);
            Some((grown(idle, total), total))
        },
    }
}

/// How many processors a load query asks for: as many as there are, but at least
/// 64 and at most 256.
pub fn sampled_cpus(cpus: u32) -> (r: u32)
    ensures
        r == if cpus < 64 {
            64u32
        } else if cpus > 256 {
            256u32
        } else {
            cpus
        },
{
    if cpus < 64 {
        64
    } else if cpus > 256 {
        256
    } else {
        cpus
    }
}

// ---------------------------------------------------------------------------
// What messages are for
// ---------------------------------------------------------------------------
/// Every message does what it is for: a start, a stop and a change of the foreground reach
/// the engine as such, a configuration that was read or written is taken over where the
/// engine can run it, and a stop of the service ends the boost.
#[verifier::rlimit(40)]
pub proof fn messages_reach_the_engine(
    v: ServiceView,
    ev: ProcessEvent,
    fg: ForegroundEvent,
    cfg: Config,
    calls: Seq<BackendCall>,
    w: EngineView,
    last_reload: Option<Seq<char>>,
    r: Result<Seq<char>, Seq<char>>,
)
    ensures
        handles(v, ServiceMsg::Proc(ev), calls, w, last_reload, r) ==> {
            &&& ev.kind == ProcessKind::Start ==> starts(v.engine, ev.pid, ev.name@, calls, w)
            &&& ev.kind == ProcessKind::Stop ==> stops(v.engine, ev.pid, calls, w)
        },
        handles(v, ServiceMsg::Foreground(fg), calls, w, last_reload, r) ==> focuses(
            v.engine,
            fg.pid,
            calls,
            w,
        ),
        handles(v, ServiceMsg::Reload(Ok(cfg)), calls, w, last_reload, r) && rules_matchable(cfg@)
            && masks_fit(cfg@) ==> reconfigures(v.engine, cfg@, calls, w) && last_reload is None
            && r is Ok,
        handles(v, (ServiceMsg::SaveConfig { cfg, written: Ok(()) }), calls, w, last_reload, r)
            && valid_config(cfg@) && rules_matchable(cfg@) ==> reconfigures(
            v.engine,
            cfg@,
            calls,
            w,
        ) && r == Ok::<Seq<char>, Seq<char>>("saved"@),
        forall|e: String|
            #[trigger] handles(
                v,
                (ServiceMsg::SaveConfig { cfg, written: Err(e) }),
                calls,
                w,
                last_reload,
                r,
            ) ==> w == v.engine && calls.len() == 0 && r is Err,
        handles(v, ServiceMsg::Stop, calls, w, last_reload, r) ==> exits(v.engine, calls, w),
        handles(v, ServiceMsg::ToggleOverlay, calls, w, last_reload, r) ==> w == v.engine
            && calls.len() == 0,
{
}

/// A snapshot is never older than a quarter of a second once a message was taken in, and
/// messages that change the configuration or end the service leave a new one.
pub proof fn snapshot_is_never_stale(
    v: ServiceView,
    force: bool,
    now: u64,
    last_reload: Option<Seq<char>>,
    w: ServiceView,
)
    requires
        refreshed(v, force, now, last_reload, w),
        v.last_refresh is Some ==> v.last_refresh->0 <= now,
    ensures
        w.last_refresh is Some,
        w.last_refresh->0 <= now,
        now - w.last_refresh->0 < 250,
        w.last_refresh->0 == now || w.last_refresh == v.last_refresh,
        force || w.last_refresh->0 != v.last_refresh->0 || v.last_refresh is None ==> shows(
            w.state,
            w.engine,
            last_reload,
        ),
        w.state.last_reload == last_reload,
{
}

/// A snapshot tells the truth of the engine: its mode, each boosted process once and no
/// other, every listed process with its name and flag, and the active configuration.
#[verifier::rlimit(40)]
pub proof fn snapshot_tells_the_truth(
    state: StateView,
    v: EngineView,
    last_reload: Option<Seq<char>>,
)
    requires
        shows(state, v, last_reload),
    ensures
        v.mode == Mode::GameBoost ==> state.mode == "GameBoost"@,
        v.mode == Mode::Normal ==> state.mode == "Normal"@,
        forall|pid: u32| #[trigger]
            v.boosted.contains_key(pid) <==> exists|i: int|
                0 <= i < state.boosted.len() && (#[trigger] state.boosted[i]).pid == pid,
        forall|i: int, j: int|
            0 <= i < state.boosted.len() && 0 <= j < state.boosted.len() && (
            #[trigger] state.boosted[i]).pid == (#[trigger] state.boosted[j]).pid ==> i == j,
        forall|i: int|
            0 <= i < state.boosted.len() ==> (#[trigger] state.boosted[i]).name == recorded_name(
                v,
                state.boosted[i].pid,
            ),
        state.processes.len() == v.table.rows.len(),
        forall|i: int|
            0 <= i < v.table.rows.len() ==> {
                &&& (#[trigger] state.processes[i]).pid == v.table.rows[i].pid
                &&& state.processes[i].name == recorded_name(v, v.table.rows[i].pid)
                &&& state.processes[i].is_game == v.table.rows[i].is_game
            },
        state.config == v.cfg,
        state.last_reload == last_reload,
{
    let order = choose|order: Seq<u32>|
        order.no_duplicates() && order.to_set() == v.boosted.dom() && state.boosted
            == #[trigger] boosted_infos(v, order);
    assert forall|pid: u32| #[trigger] v.boosted.contains_key(pid) <==> exists|i: int|
        0 <= i < state.boosted.len() && (#[trigger] state.boosted[i]).pid == pid by {
        if v.boosted.contains_key(pid) {
            assert(order.to_set().contains(pid));
            let i = choose|i: int| 0 <= i < order.len() && order[i] == pid;
            assert(state.boosted[i].pid == pid);
        }
        if exists|i: int| 0 <= i < state.boosted.len() && (#[trigger] state.boosted[i]).pid == pid {
            let i = choose|i: int|
                0 <= i < state.boosted.len() && (#[trigger] state.boosted[i]).pid == pid;
            assert(order[i] == pid);
            assert(order.to_set().contains(pid));
        }
    }
    assert forall|i: int| 0 <= i < v.table.rows.len() implies {
        &&& (#[trigger] state.processes[i]).pid == v.table.rows[i].pid
        &&& state.processes[i].name == recorded_name(v, v.table.rows[i].pid)
        &&& state.processes[i].is_game == v.table.rows[i].is_game
    } by {
        assert(v.table.listing()[i].0 == v.table.rows[i].pid);
    }
}

/// The busy time between two samples is the whole time without the idle time; there is none
/// to tell where there is no earlier sample or no time passed.
pub proof fn busy_is_what_is_not_idle(p: LoadSample, cur: LoadSample)
    ensures
        busy_share_spec(None, cur) is None,
        cur.total <= p.total ==> busy_share_spec(Some(p), cur) is None,
        cur.total > p.total && cur.idle >= p.idle && cur.idle - p.idle <= cur.total - p.total
            ==> busy_share_spec(Some(p), cur) == Some(
            (((cur.total - p.total) - (cur.idle - p.idle)) as u64, (cur.total - p.total) as u64),
        ),
{
}

/// One more processor adds its idle time to the idle time, and its kernel and user time to
/// the whole, as far as the numbers reach.
pub proof fn samples_add_up(times: Seq<CpuTimes>, t: CpuTimes)
    ensures
        sample_of(Seq::empty()) == (LoadSample { idle: 0, total: 0 }),
        sample_of(times).idle + t.idle <= u64::MAX ==> sample_of(times.push(t)).idle == sample_of(
            times,
        ).idle + t.idle,
        sample_of(times).total + t.kernel + t.user <= u64::MAX ==> sample_of(times.push(t)).total
            == sample_of(times).total + t.kernel + t.user,
{
    assert(times.push(t).drop_last() =~= times);
}

} // verus!
