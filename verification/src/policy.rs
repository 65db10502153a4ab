//! The policy engine: a state machine (normal, game boost) that turns process
//! and foreground events into actions on processes.
//!
//! - Always-rules are applied whenever a matching process starts.
//! - Entering game boost snapshots every running process that matches a
//!   background rule and applies the rule; processes that start during a boost
//!   get the same treatment. Leaving game boost restores every snapshot.
//! - A new configuration ends the boost and begins it again if a game is still
//!   running: a running game makes no new event.
//! - Protected processes are never acted on.
//! - The network tweaks and the purge of the standby memory come before the first
//!   process is acted on; the tweaks are taken back before the first is restored.

use std::collections::{HashMap, HashSet};

use vstd::prelude::*;

use crate::actions::{
    added, calls_added, extends, noted_all, mask_from_cores, mask_of, reply_of, BackendCall,
    ProcState, ProcessBackend, QosLifecycle, TargetAction,
};
use crate::collections::keys_of;
use crate::config::{
    protected_names, AffinitySpec, AlwaysRule, AlwaysView, BackgroundRule, BackgroundView, Config,
    ConfigView,
};
use crate::events::{ForegroundEvent, ProcessEvent, ProcessKind};
use crate::network::{
    all_done, as_triples, backup_view, marker_layout, BackupEntry, EntryView,
};
use crate::proc_table::{hash_of, hash_of_folded, name_hash, ProcessTable, TableView};
use crate::rules::{any_matches, first_match, folded, matchable, PatternMatcher};
use crate::text::{copy_text, fold, texts};

verus! {

broadcast use vstd::std_specs::hash::group_hash_axioms;

/// The two modes of the engine.
#[derive(Debug, Clone, Copy, PartialEq, Eq, Structural)]
pub enum Mode {
    Normal,
    GameBoost,
}

// ---------------------------------------------------------------------------
// What a configuration says of a process
// ---------------------------------------------------------------------------
/// The names of the background rules, in order.
pub open spec fn background_names(c: ConfigView) -> Seq<Seq<char>> {
    c.background.map_values(|b: BackgroundView| b.name)
}

/// The names of the always-rules, in order.
pub open spec fn always_names(c: ConfigView) -> Seq<Seq<char>> {
    c.rule.map_values(|r: AlwaysView| r.name)
}

/// A process of this name is a game.
pub open spec fn is_game(c: ConfigView, name: Seq<char>) -> bool {
    any_matches(folded(c.game.processes), name)
}

/// The hashes of the protected names.
pub open spec fn protected_hashes(c: ConfigView) -> Set<u64> {
    Set::new(
        |h: u64|
            exists|p: Seq<char>| #[trigger]
                protected_names(c.protected_extra).contains(p) && h == hash_of(p),
    )
}

/// A process of this name is protected: its name hashes like a protected one.
pub open spec fn is_protected(c: ConfigView, name: Seq<char>) -> bool {
    protected_hashes(c).contains(hash_of(name))
}

/// The index of the earliest background rule for a name.
pub open spec fn background_index(c: ConfigView, name: Seq<char>) -> Option<int> {
    first_match(folded(background_names(c)), name)
}

/// The index of the earliest always-rule for a name.
pub open spec fn always_index(c: ConfigView, name: Seq<char>) -> Option<int> {
    first_match(folded(always_names(c)), name)
}

/// The affinity action of a rule.
pub open spec fn affinity_action(affinity: Option<Seq<u8>>) -> Seq<TargetAction> {
    match affinity {
        Some(cores) => seq![TargetAction::Affinity { core_mask: mask_of(cores) }],
        None => Seq::empty(),
    }
}

/// The priority action of a rule.
pub open spec fn priority_action(
    priority: Option<crate::config::PriorityClass>,
) -> Seq<TargetAction> {
    match priority {
        Some(p) => seq![TargetAction::Priority(p)],
        None => Seq::empty(),
    }
}

/// The actions of a background rule, in the order they are applied.
pub open spec fn background_actions(b: BackgroundView) -> Seq<TargetAction> {
    let quota = match b.qos_cpu_quota {
        Some(percent) => seq![TargetAction::QosCpuQuota { percent }],
        None => Seq::empty(),
    };
    let suspend = if b.suspend {
        seq![TargetAction::Suspend]
    } else {
        Seq::empty()
    };
    let trim = if b.trim_memory {
        seq![TargetAction::TrimMemory]
    } else {
        Seq::empty()
    };
    priority_action(b.priority) + affinity_action(b.affinity) + quota + suspend + trim
}

/// The actions of the always-rule for a name; none where no rule matches.
pub open spec fn always_actions(c: ConfigView, name: Seq<char>) -> Seq<TargetAction> {
    match always_index(c, name) {
        Some(i) => priority_action(c.rule[i].priority) + affinity_action(c.rule[i].affinity),
        None => Seq::empty(),
    }
}

/// The cores of an affinity fit a 64-bit mask.
pub open spec fn cores_fit(affinity: Option<Seq<u8>>) -> bool {
    affinity is Some ==> crate::actions::all_below_64(affinity->0)
}

/// Every affinity in a configuration fits a 64-bit mask.
pub open spec fn masks_fit(c: ConfigView) -> bool {
    &&& forall|i: int|
        0 <= i < c.background.len() ==> cores_fit((#[trigger] c.background[i]).affinity)
    &&& forall|i: int| 0 <= i < c.rule.len() ==> cores_fit((#[trigger] c.rule[i]).affinity)
}

/// A valid configuration has affinities that fit.
pub proof fn valid_masks_fit(c: ConfigView)
    requires
        crate::config::valid_config(c),
    ensures
        masks_fit(c),
{
    assert forall|i: int| 0 <= i < c.background.len() implies cores_fit(
        (#[trigger] c.background[i]).affinity,
    ) by {
        assert(crate::config::background_allowed(
            c.background[i],
            protected_names(c.protected_extra),
        ));
    }
    assert forall|i: int| 0 <= i < c.rule.len() implies cores_fit(
        (#[trigger] c.rule[i]).affinity,
    ) by {
        assert(crate::config::always_allowed(c.rule[i]));
    }
}

/// Matchers can be built for every list of names in a configuration.
pub open spec fn rules_matchable(c: ConfigView) -> bool {
    &&& matchable(c.game.processes)
    &&& matchable(background_names(c))
    &&& matchable(always_names(c))
}

/// A name that is protected by default or by the configuration, in any ASCII
/// case, is protected.
pub proof fn protected_in_any_case(c: ConfigView, name: Seq<char>)
    requires
        protected_names(c.protected_extra).contains(fold(name)),
    ensures
        is_protected(c, name),
{
    hash_of_folded(name);
}

// ---------------------------------------------------------------------------
// The state of the engine
// ---------------------------------------------------------------------------
/// The state of an engine as a value, but for its backend.
pub struct EngineView {
    pub cfg: ConfigView,
    pub table: TableView,
    pub mode: Mode,
    /// The snapshots to restore, with what was done to each process.
    pub boosted: Map<u32, ProcState>,
    /// The games that hold the boost.
    pub games: Seq<u32>,
    /// Suspended processes that were resumed while in the foreground.
    pub resumed: Set<u32>,
    pub foreground: Option<u32>,
    /// The network backup while tweaks are in force.
    pub backup: Option<Seq<EntryView>>,
    pub marker: Seq<char>,
}

impl EngineView {
    /// Outside game boost nothing is boosted, held or tweaked.
    pub open spec fn quiet_when_normal(self) -> bool {
        self.mode == Mode::Normal ==> {
            &&& self.boosted == Map::<u32, ProcState>::empty()
            &&& self.games.len() == 0
            &&& self.resumed == Set::<u32>::empty()
            &&& self.backup is None
        }
    }

    /// A boost is held by some game.
    pub open spec fn boost_has_game(self) -> bool {
        self.mode == Mode::GameBoost ==> self.games.len() > 0
    }

    /// The process is boosted and was suspended for it.
    pub open spec fn is_suspended(self, pid: u32) -> bool {
        self.boosted.contains_key(pid) && self.boosted[pid].suspended
    }
}

/// Whether a call was answered with success.
pub open spec fn done_of(c: BackendCall) -> bool {
    match c {
        BackendCall::Apply { pid: _, action: _, done } => done,
        BackendCall::Restore { pid: _, state: _, done } => done,
        _ => true,
    }
}

/// The answers to calls.
pub open spec fn answers(calls: Seq<BackendCall>) -> Seq<bool> {
    calls.map_values(|c: BackendCall| done_of(c))
}

/// The calls that apply actions to a process, with their answers.
pub open spec fn attempts(pid: u32, actions: Seq<TargetAction>, done: Seq<bool>) -> Seq<BackendCall> {
    Seq::new(
        actions.len(),
        |i: int| BackendCall::Apply { pid, action: actions[i], done: done[i] },
    )
}

/// A background rule is applied to this process when it is met in a boost.
pub open spec fn is_target(
    c: ConfigView,
    boosted: Map<u32, ProcState>,
    pid: u32,
    name: Seq<char>,
) -> bool {
    !is_protected(c, name) && background_index(c, name) is Some && !boosted.contains_key(pid)
}

/// One process is met in a boost: a target is snapshot, and if that works each
/// action of its rule is tried and the snapshot kept with what was done.
pub open spec fn boosts_one(
    c: ConfigView,
    before: Map<u32, ProcState>,
    pid: u32,
    name: Seq<char>,
    calls: Seq<BackendCall>,
    after: Map<u32, ProcState>,
) -> bool {
    if !is_target(c, before, pid, name) {
        calls.len() == 0 && after == before
    } else {
        let actions = background_actions(c.background[background_index(c, name)->0]);
        &&& calls.len() > 0
        &&& match calls[0] {
            BackendCall::Snapshot { pid: asked, reply } => asked == pid && match reply {
                None => calls.len() == 1 && after == before,
                Some(state) => {
                    let done = answers(calls.skip(1));
                    &&& calls.skip(1) == attempts(pid, actions, done)
                    &&& after == before.insert(pid, noted_all(state, actions, done))
                },
            },
            _ => false,
        }
    }
}

/// Processes are met in a boost one after the other.
pub open spec fn boosts_all(
    c: ConfigView,
    before: Map<u32, ProcState>,
    targets: Seq<(u32, Seq<char>)>,
    calls: Seq<BackendCall>,
    after: Map<u32, ProcState>,
) -> bool
    decreases targets.len(),
{
    if targets.len() == 0 {
        calls.len() == 0 && after == before
    } else {
        exists|k: int, mid: Map<u32, ProcState>|
            0 <= k <= calls.len() && boosts_all(
                c,
                before,
                targets.drop_last(),
                calls.take(k),
                mid,
            ) && #[trigger] boosts_one(
                c,
                mid,
                targets.last().0,
                targets.last().1,
                calls.skip(k),
                after,
            )
    }
}

/// A list sorted by name hash with one entry put in behind those that do not
/// come after it.
pub open spec fn insert_by_hash(
    sorted: Seq<(u32, Seq<char>)>,
    entry: (u32, Seq<char>),
) -> Seq<(u32, Seq<char>)>
    decreases sorted.len(),
{
    if sorted.len() == 0 || hash_of(sorted.last().1) <= hash_of(entry.1) {
        sorted.push(entry)
    } else {
        insert_by_hash(sorted.drop_last(), entry).push(sorted.last())
    }
}

/// A list in the order of name hashes; entries with the same hash keep theirs.
pub open spec fn by_hash(list: Seq<(u32, Seq<char>)>) -> Seq<(u32, Seq<char>)>
    decreases list.len(),
{
    if list.len() == 0 {
        Seq::empty()
    } else {
        insert_by_hash(by_hash(list.drop_last()), list.last())
    }
}

/// The processes of a table that are met when a boost begins: all but the game
/// that began it and the protected ones, in table order.
pub open spec fn candidates(
    c: ConfigView,
    rows: Seq<(u32, Seq<char>, bool)>,
    game: u32,
) -> Seq<(u32, Seq<char>)>
    decreases rows.len(),
{
    if rows.len() == 0 {
        Seq::empty()
    } else {
        let before = candidates(c, rows.drop_last(), game);
        let row = rows.last();
        if row.0 != game && !is_protected(c, row.1) {
            before.push((row.0, row.1))
        } else {
            before
        }
    }
}

/// What the system answers while a boost is made ready.
pub struct EntryReplies {
    /// The backup of the network tweaks, if they were made.
    pub backup: Option<Seq<EntryView>>,
    pub written: bool,
    pub purged: bool,
}

/// The calls that make a boost ready: the network tweaks with the marker of their
/// backup, unless that is empty, and then the purge, each where the configuration
/// wants it.
pub open spec fn entry_calls(
    c: ConfigView,
    marker: Seq<char>,
    r: EntryReplies,
) -> Seq<BackendCall> {
    let apply = BackendCall::ApplyNetwork {
        nagle: c.network.nagle,
        netbios: c.network.netbios,
        made: r.backup,
    };
    let network = if !c.network.enabled {
        Seq::empty()
    } else if r.backup is Some && r.backup->0.len() > 0 {
        seq![
            apply,
            BackendCall::WriteMarker {
                path: marker,
                bytes: marker_layout(as_triples(r.backup->0)),
                done: r.written,
            },
        ]
    } else {
        seq![apply]
    };
    let purge = if c.game.purge_standby_on_boost {
        seq![BackendCall::PurgeStandby { done: r.purged }]
    } else {
        Seq::empty()
    };
    network + purge
}

/// A list of pids with one added unless it is there.
pub open spec fn with_pid(pids: Seq<u32>, pid: u32) -> Seq<u32> {
    if pids.contains(pid) {
        pids
    } else {
        pids.push(pid)
    }
}

/// A boost begins: the system is made ready for it, and then every other process
/// is met.
pub open spec fn begins(
    v: EngineView,
    game: u32,
    r: EntryReplies,
    calls: Seq<BackendCall>,
    w: EngineView,
) -> bool {
    let ready = entry_calls(v.cfg, v.marker, r);
    let n = ready.len() as int;
    &&& n <= calls.len()
    &&& calls.take(n) == ready
    &&& boosts_all(
        v.cfg,
        v.boosted,
        by_hash(candidates(v.cfg, v.table.listing(), game)),
        calls.skip(n),
        w.boosted,
    )
    &&& w == (EngineView {
        mode: Mode::GameBoost,
        games: seq![game],
        boosted: w.boosted,
        backup: if v.cfg.network.enabled {
            r.backup
        } else {
            v.backup
        },
        ..v
    })
}

/// A game is seen: in a boost it is noted, else a boost begins.
pub open spec fn enters(
    v: EngineView,
    game: u32,
    calls: Seq<BackendCall>,
    w: EngineView,
) -> bool {
    if v.mode == Mode::GameBoost {
        calls.len() == 0 && w == (EngineView { games: with_pid(v.games, game), ..v })
    } else {
        exists|r: EntryReplies| #[trigger] begins(v, game, r, calls, w)
    }
}

/// The calls that restore processes, in the given order, with their answers.
pub open spec fn restores(
    boosted: Map<u32, ProcState>,
    order: Seq<u32>,
    done: Seq<bool>,
) -> Seq<BackendCall> {
    Seq::new(
        order.len(),
        |i: int| BackendCall::Restore { pid: order[i], state: boosted[order[i]], done: done[i] },
    )
}

/// Every boosted process is restored, each once, in the given order, and then
/// all caps are cleared.
pub open spec fn restores_each(
    boosted: Map<u32, ProcState>,
    order: Seq<u32>,
    calls: Seq<BackendCall>,
) -> bool {
    &&& order.no_duplicates()
    &&& order.to_set() == boosted.dom()
    &&& calls == restores(boosted, order, answers(calls)).push(BackendCall::ClearAllQos)
}

/// The calls that take the network tweaks back: the backup is put back, and the
/// marker is deleted only when that worked for every entry, since otherwise the
/// next start has to try again.
pub open spec fn exit_calls(
    backup: Option<Seq<EntryView>>,
    marker: Seq<char>,
    done: Seq<bool>,
) -> Seq<BackendCall> {
    match backup {
        Some(backup) => if done.len() == backup.len() && all_done(done, backup.len()) {
            seq![
                BackendCall::RevertNetwork { backup, worked: done },
                BackendCall::RemoveMarker { path: marker },
            ]
        } else {
            seq![BackendCall::RevertNetwork { backup, worked: done }]
        },
        None => Seq::empty(),
    }
}

/// A boost ends: the network tweaks are taken back, and then every boosted process
/// is restored, in the given order.
pub open spec fn ends(
    v: EngineView,
    done: Seq<bool>,
    order: Seq<u32>,
    calls: Seq<BackendCall>,
) -> bool {
    let first = exit_calls(v.backup, v.marker, done);
    let n = first.len() as int;
    &&& n <= calls.len()
    &&& calls.take(n) == first
    &&& restores_each(v.boosted, order, calls.skip(n))
}

/// A boost ends: everything is restored and nothing is held any more.
pub open spec fn exits(v: EngineView, calls: Seq<BackendCall>, w: EngineView) -> bool {
    if v.mode != Mode::GameBoost {
        calls.len() == 0 && w == v
    } else {
        &&& exists|done: Seq<bool>, order: Seq<u32>| #[trigger] ends(v, done, order, calls)
        &&& w == (EngineView {
            mode: Mode::Normal,
            games: Seq::empty(),
            resumed: Set::empty(),
            foreground: None,
            backup: None,
            boosted: Map::empty(),
            ..v
        })
    }
}

/// The pids of the games in a table, in table order.
pub open spec fn running_games(c: ConfigView, rows: Seq<(u32, Seq<char>, bool)>) -> Seq<u32>
    decreases rows.len(),
{
    if rows.len() == 0 {
        Seq::empty()
    } else {
        let before = running_games(c, rows.drop_last());
        if is_game(c, rows.last().1) {
            before.push(rows.last().0)
        } else {
            before
        }
    }
}

/// A list of pids with others added, each once.
pub open spec fn with_pids(pids: Seq<u32>, more: Seq<u32>) -> Seq<u32>
    decreases more.len(),
{
    if more.len() == 0 {
        pids
    } else {
        with_pid(with_pids(pids, more.drop_last()), more.last())
    }
}

/// The boost begins again for the games that run, if any do.
pub open spec fn reenters(v: EngineView, calls: Seq<BackendCall>, w: EngineView) -> bool {
    let games = running_games(v.cfg, v.table.listing());
    if v.mode == Mode::GameBoost || games.len() == 0 {
        calls.len() == 0 && w == v
    } else {
        exists|mid: EngineView| #[trigger]
            enters(v, games[0], calls, mid) && w == (EngineView {
                games: with_pids(mid.games, games.skip(1)),
                ..mid
            })
    }
}

/// A configuration is replaced.
pub open spec fn reconfigures(
    v: EngineView,
    cfg: ConfigView,
    calls: Seq<BackendCall>,
    w: EngineView,
) -> bool {
    exists|k: int, mid: EngineView|
        0 <= k <= calls.len() && #[trigger] exits(v, calls.take(k), mid) && reenters(
            (EngineView { cfg, ..mid }),
            calls.skip(k),
            w,
        )
}

/// A process started.
pub open spec fn starts(
    v: EngineView,
    pid: u32,
    name: Seq<char>,
    calls: Seq<BackendCall>,
    w: EngineView,
) -> bool {
    let seen = EngineView { table: v.table.upserted(pid, name, false), ..v };
    let always = always_actions(v.cfg, name);
    let n = always.len() as int;
    if is_protected(v.cfg, name) {
        calls.len() == 0 && w == seen
    } else {
        &&& calls.len() >= n
        &&& calls.take(n) == attempts(pid, always, answers(calls.take(n)))
        &&& if is_game(v.cfg, name) {
            if v.cfg.game.boost_on_start {
                enters(seen, pid, calls.skip(n), w)
            } else {
                calls.len() == n && w == seen
            }
        } else if v.mode == Mode::GameBoost && !v.games.contains(pid) {
            &&& boosts_one(v.cfg, v.boosted, pid, name, calls.skip(n), w.boosted)
            &&& w == (EngineView { boosted: w.boosted, ..seen })
        } else {
            calls.len() == n && w == seen
        }
    }
}

/// A process stopped.
pub open spec fn stops(v: EngineView, pid: u32, calls: Seq<BackendCall>, w: EngineView) -> bool {
    let seen = EngineView { table: v.table.removed(pid), ..v };
    &&& calls.len() > 0
    &&& calls.last() == BackendCall::ProcessExit { pid }
    &&& if v.games.contains(pid) {
        exits(seen, calls.drop_last(), w)
    } else if v.boosted.contains_key(pid) {
        &&& calls.drop_last() == restores(
            v.boosted,
            seq![pid],
            answers(calls.drop_last()),
        )
        &&& w == (EngineView { boosted: v.boosted.remove(pid), ..seen })
    } else {
        calls.len() == 1 && w == seen
    }
}

/// The foreground moves away from a process that was resumed for it: the
/// process is suspended again.
pub open spec fn leaves_foreground(v: EngineView, pid: u32) -> (Seq<TargetAction>, Set<u32>) {
    match v.foreground {
        Some(prev) => if prev != pid && v.resumed.contains(prev) {
            (
                if v.is_suspended(prev) {
                    seq![TargetAction::Suspend]
                } else {
                    Seq::empty()
                },
                v.resumed.remove(prev),
            )
        } else {
            (Seq::empty(), v.resumed)
        },
        None => (Seq::empty(), v.resumed),
    }
}

/// A suspended process comes to the foreground: it is resumed.
pub open spec fn comes_to_foreground(
    v: EngineView,
    resumed: Set<u32>,
    pid: u32,
) -> (Seq<TargetAction>, Set<u32>) {
    if !resumed.contains(pid) && v.is_suspended(pid) {
        (seq![TargetAction::Resume], resumed.insert(pid))
    } else {
        (Seq::empty(), resumed)
    }
}

/// The foreground changed. The process that leaves it is suspended again and the
/// one that comes is resumed. A game that comes begins a boost. Where games are
/// boosted by the foreground alone, a process that is none ends it; where they are
/// boosted on start, a boost lasts as long as its games run.
pub open spec fn focuses(v: EngineView, pid: u32, calls: Seq<BackendCall>, w: EngineView) -> bool {
    let (leave, without) = leaves_foreground(v, pid);
    let (come, with) = comes_to_foreground(v, without, pid);
    let a = leave.len() as int;
    let b = a + come.len();
    let seen = EngineView { resumed: with, foreground: Some(pid), ..v };
    let name = v.table.name_or_empty(pid);
    &&& b <= calls.len()
    &&& calls.take(a) == attempts(v.foreground->0, leave, answers(calls.take(a)))
    &&& calls.subrange(a, b) == attempts(pid, come, answers(calls.subrange(a, b)))
    &&& if is_game(v.cfg, name) {
        if v.mode != Mode::GameBoost {
            enters(seen, pid, calls.skip(b), w)
        } else {
            calls.len() == b && w == seen
        }
    } else if !v.cfg.game.boost_on_start && v.mode == Mode::GameBoost && !v.games.contains(pid) {
        exits(seen, calls.skip(b), w)
    } else {
        calls.len() == b && w == seen
    }
}

// ---------------------------------------------------------------------------
// The engine
// ---------------------------------------------------------------------------
/// The policy engine, over a backend that acts on processes.
pub struct PolicyEngine<B: ProcessBackend + QosLifecycle> {
    cfg: Config,
    matcher: PatternMatcher,
    background_matcher: PatternMatcher,
    always_matcher: PatternMatcher,
    protected_hashes: HashSet<u64>,
    backend: B,
    table: ProcessTable,
    mode: Mode,
    boosted: HashMap<u32, ProcState>,
    game_pids: Vec<u32>,
    foreground_resumed: HashSet<u32>,
    last_foreground: Option<u32>,
    network_backup: Option<Vec<BackupEntry>>,
    network_marker: String,
}

/// An optional backup as a value.
pub open spec fn backup_in(b: Option<Vec<BackupEntry>>) -> Option<Seq<EntryView>> {
    match b {
        Some(b) => Some(backup_view(b@)),
        None => None,
    }
}

impl<B: ProcessBackend + QosLifecycle> View for PolicyEngine<B> {
    type V = EngineView;

    closed spec fn view(&self) -> EngineView {
        EngineView {
            cfg: self.cfg@,
            table: self.table@,
            mode: self.mode,
            boosted: self.boosted@,
            games: self.game_pids@,
            resumed: self.foreground_resumed@,
            foreground: self.last_foreground,
            backup: backup_in(self.network_backup),
            marker: self.network_marker@,
        }
    }
}

/// The actions of a background rule.
pub fn actions_for(rule: &BackgroundRule) -> (r: Vec<TargetAction>)
    requires
        cores_fit(rule@.affinity),
    ensures
        r@ == background_actions(rule@),
{
    let mut v: Vec<TargetAction> = Vec::new();
    if let Some(p) = rule.priority {
        v.push(TargetAction::Priority(p));
    }
    if let Some(a) = &rule.affinity {
        v.push(TargetAction::Affinity { core_mask: mask_from_affinity(a) });
    }
    if let Some(q) = rule.qos_cpu_quota {
        v.push(TargetAction::QosCpuQuota { percent: q });
    }
    if rule.suspend {
        v.push(TargetAction::Suspend);
    }
    if rule.trim_memory {
        v.push(TargetAction::TrimMemory);
    }
    assert(v@ =~= background_actions(rule@));
    v
}

fn mask_from_affinity(a: &AffinitySpec) -> (r: u64)
    requires
        cores_fit(Some(a.cores@)),
    ensures
        r == mask_of(a.cores@),
{
    let cores = a.cores.as_slice();
    assert(cores@ == a.cores@);
    mask_from_cores(cores)
}

/// The actions of an always-rule.
pub fn always_actions_of(rule: &AlwaysRule) -> (r: Vec<TargetAction>)
    requires
        cores_fit(rule@.affinity),
    ensures
        r@ == priority_action(rule@.priority) + affinity_action(rule@.affinity),
{
    let mut v: Vec<TargetAction> = Vec::new();
    if let Some(p) = rule.priority {
        v.push(TargetAction::Priority(p));
    }
    if let Some(a) = &rule.affinity {
        v.push(TargetAction::Affinity { core_mask: mask_from_affinity(a) });
    }
    assert(v@ =~= priority_action(rule@.priority) + affinity_action(rule@.affinity));
    v
}

fn names_of_background(rules: &Vec<BackgroundRule>) -> (r: Vec<String>)
    ensures
        texts(r@) == crate::config::background_views(rules@).map_values(|b: BackgroundView| b.name),
{
    let mut r: Vec<String> = Vec::new();
    let mut i: usize = 0;
    while i < rules.len()
        invariant
            i <= rules@.len(),
            r@.len() == i,
            forall|k: int| 0 <= k < i ==> (#[trigger] r@[k])@ == rules@[k].name@,
        decreases rules@.len() - i,
    {
        r.push(rules[i].name.clone());
        i = i + 1;
    }
    assert(texts(r@) =~= crate::config::background_views(rules@).map_values(
        |b: BackgroundView| b.name,
    ));
    r
}

fn names_of_always(rules: &Vec<AlwaysRule>) -> (r: Vec<String>)
    ensures
        texts(r@) == crate::config::always_views(rules@).map_values(|r: AlwaysView| r.name),
{
    let mut r: Vec<String> = Vec::new();
    let mut i: usize = 0;
    while i < rules.len()
        invariant
            i <= rules@.len(),
            r@.len() == i,
            forall|k: int| 0 <= k < i ==> (#[trigger] r@[k])@ == rules@[k].name@,
        decreases rules@.len() - i,
    {
        r.push(rules[i].name.clone());
        i = i + 1;
    }
    assert(texts(r@) =~= crate::config::always_views(rules@).map_values(|r: AlwaysView| r.name));
    r
}

/// The hashes of the protected names of a configuration.
fn hashes_of_protected(cfg: &Config) -> (r: HashSet<u64>)
    ensures
        r@ == protected_hashes(cfg@),
{
    let set = cfg.protected_set();
    let names = set.names();
    let mut r: HashSet<u64> = HashSet::new();
    let mut i: usize = 0;
    let ghost all = texts(names@);
    while i < names.len()
        invariant
            i <= names@.len(),
            all == texts(names@),
            forall|h: u64| #[trigger]
                r@.contains(h) <==> exists|k: int| 0 <= k < i && h == hash_of(#[trigger] all[k]),
        decreases names@.len() - i,
    {
        let ghost before = r@;
        let h: u64 = name_hash(names[i].as_str());
        r.insert(h);
        assert(all[i as int] == names@[i as int]@);
        assert forall|x: u64| #[trigger] r@.contains(x) implies exists|k: int|
            0 <= k < i + 1 && x == hash_of(#[trigger] all[k]) by {
            if before.contains(x) {
                let k = choose|k: int| 0 <= k < i && x == hash_of(#[trigger] all[k]);
                assert(x == hash_of(all[k]));
            } else {
                assert(x == hash_of(all[i as int]));
            }
        }
        assert forall|x: u64|
            (exists|k: int| 0 <= k < i + 1 && x == hash_of(#[trigger] all[k])) implies
            #[trigger] r@.contains(x) by {
            let k = choose|k: int| 0 <= k < i + 1 && x == hash_of(#[trigger] all[k]);
            if k < i {
                assert(before.contains(x));
            }
        }
        i = i + 1;
    }
    assert forall|h: u64| r@.contains(h) <==> protected_hashes(cfg@).contains(h) by {
        if r@.contains(h) {
            let k = choose|k: int| 0 <= k < all.len() && h == hash_of(#[trigger] all[k]);
            assert(all.to_set().contains(all[k]));
            assert(protected_names(cfg@.protected_extra).contains(all[k]));
        }
        if protected_hashes(cfg@).contains(h) {
            let p = choose|p: Seq<char>| #[trigger]
                protected_names(cfg@.protected_extra).contains(p) && h == hash_of(p);
            assert(all.to_set().contains(p));
            let k = choose|k: int| 0 <= k < all.len() && all[k] == p;
            assert(h == hash_of(all[k]));
        }
    }
    assert(r@ =~= protected_hashes(cfg@));
    r
}

impl<B: ProcessBackend + QosLifecycle> PolicyEngine<B> {
    /// The calls that the backend was asked to perform.
    pub closed spec fn calls(&self) -> Seq<BackendCall> {
        self.backend.calls()
    }

    /// The compiled rules are those of the configuration, and outside game boost
    /// nothing is held.
    pub closed spec fn wf(&self) -> bool {
        &&& self.matcher@ == folded(self.cfg@.game.processes)
        &&& self.background_matcher@ == folded(background_names(self.cfg@))
        &&& self.always_matcher@ == folded(always_names(self.cfg@))
        &&& self.protected_hashes@ == protected_hashes(self.cfg@)
        &&& masks_fit(self.cfg@)
        &&& self@.quiet_when_normal()
        &&& self@.boost_has_game()
    }

    /// What an engine that is well formed holds.
    pub proof fn wf_means(&self)
        requires
            self.wf(),
        ensures
            self@.quiet_when_normal(),
            self@.boost_has_game(),
            masks_fit(self@.cfg),
    {
    }

    /// An engine in normal mode that knows no process. The marker of the network
    /// backup has no path until one is set.
    pub fn new(cfg: Config, backend: B) -> (r: Self)
        requires
            rules_matchable(cfg@),
            masks_fit(cfg@),
        ensures
            r.wf(),
            r.calls() == backend.calls(),
            r@ == new_engine(cfg@),
    {
        let matcher = PatternMatcher::new(crate::config::clone_texts(&cfg.game.processes));
        let background_matcher = PatternMatcher::new(names_of_background(&cfg.background));
        let always_matcher = PatternMatcher::new(names_of_always(&cfg.rule));
        let protected_hashes = hashes_of_protected(&cfg);
        let r = PolicyEngine {
            cfg,
            matcher,
            background_matcher,
            always_matcher,
            protected_hashes,
            backend,
            table: ProcessTable::new(),
            mode: Mode::Normal,
            boosted: HashMap::new(),
            game_pids: Vec::new(),
            foreground_resumed: HashSet::new(),
            last_foreground: None,
            network_backup: None,
            network_marker: String::new(),
        };
        assert(r@.marker =~= Seq::<char>::empty());
        assert(r@.games =~= Seq::<u32>::empty());
        r
    }

    /// An engine as [`PolicyEngine::new`] gives it, or nothing when the rules are
    /// more than a matcher can hold or an affinity names a core past 63.
    pub fn try_new(cfg: Config, backend: B) -> (r: Option<Self>)
        ensures
            r is Some <==> rules_matchable(cfg@) && masks_fit(cfg@),
            r is Some ==> r->0.wf() && r->0.calls() == backend.calls() && r->0@ == new_engine(cfg@),
    {
        if usable(&cfg) {
            Some(Self::new(cfg, backend))
        } else {
            None
        }
    }

    pub fn mode(&self) -> (r: Mode)
        ensures
            r == self@.mode,
    {
        self.mode
    }

    /// The active configuration.
    pub fn cfg(&self) -> (r: &Config)
        ensures
            r@ == self@.cfg,
    {
        &self.cfg
    }

    /// Sets the path of the marker file.
    pub fn set_network_marker(&mut self, path: String)
        requires
            old(self).wf(),
        ensures
            final(self).wf(),
            final(self).calls() == old(self).calls(),
            final(self)@ == (EngineView { marker: path@, ..old(self)@ }),
    {
        self.network_marker = path;
    }

    pub fn backend(&self) -> (r: &B)
        ensures
            r.calls() == self.calls(),
    {
        &self.backend
    }

    /// The snapshots to restore.
    pub fn boosted(&self) -> (r: &HashMap<u32, ProcState>)
        ensures
            r@ == self@.boosted,
    {
        &self.boosted
    }

    /// The name recorded for a process.
    pub fn pid_name(&self, pid: u32) -> (r: Option<String>)
        ensures
            r is Some <==> self@.table.names.contains_key(pid),
            r is Some ==> r->0@ == self@.table.names[pid],
    {
        match self.table.name(pid) {
            Some(s) => Some(copy_text(s)),
            None => None,
        }
    }

    /// Every tracked process as pid, name and game flag.
    pub fn iter_processes(&self) -> (r: Vec<(u32, &str, bool)>)
        ensures
            crate::proc_table::listed(r@) == self@.table.listing(),
    {
        self.table.iter()
    }

    /// Whether a process of this name is protected.
    pub fn is_protected(&self, name: &str) -> (r: bool)
        requires
            self.wf(),
        ensures
            r == is_protected(self@.cfg, name@),
    {
        let h: u64 = name_hash(name);
        self.protected_hashes.contains(&h)
    }

    /// Whether a process of this name is a game.
    pub fn is_game(&self, name: &str) -> (r: bool)
        requires
            self.wf(),
        ensures
            r == is_game(self@.cfg, name@),
    {
        self.matcher.matches(name)
    }

    fn first_matching_background(&self, name: &str) -> (r: Option<usize>)
        requires
            self.wf(),
        ensures
            r is Some <==> background_index(self@.cfg, name@) is Some,
            r is Some ==> background_index(self@.cfg, name@) == Some(r->0 as int) && r->0
                < self.cfg.background@.len(),
    {
        proof {
            crate::rules::first_match_is_earliest(folded(background_names(self@.cfg)), name@);
        }
        self.background_matcher.first_matching(name)
    }

    fn first_matching_always(&self, name: &str) -> (r: Option<usize>)
        requires
            self.wf(),
        ensures
            r is Some <==> always_index(self@.cfg, name@) is Some,
            r is Some ==> always_index(self@.cfg, name@) == Some(r->0 as int) && r->0
                < self.cfg.rule@.len(),
    {
        proof {
            crate::rules::first_match_is_earliest(folded(always_names(self@.cfg)), name@);
        }
        self.always_matcher.first_matching(name)
    }

    /// The actions of the always-rule for a name.
    pub fn always_actions_for(&self, name: &str) -> (r: Vec<TargetAction>)
        requires
            self.wf(),
        ensures
            r@ == always_actions(self@.cfg, name@),
    {
        match self.first_matching_always(name) {
            Some(i) => {
                assert(cores_fit(self@.cfg.rule[i as int].affinity));
                always_actions_of(&self.cfg.rule[i])
            },
            None => Vec::new(),
        }
    }
}

/// An engine that was just made.
pub open spec fn new_engine(cfg: ConfigView) -> EngineView {
    EngineView {
        cfg,
        table: TableView::empty(),
        mode: Mode::Normal,
        boosted: Map::empty(),
        games: Seq::empty(),
        resumed: Set::empty(),
        foreground: None,
        backup: None,
        marker: Seq::empty(),
    }
}

fn affinity_fits(affinity: &Option<AffinitySpec>) -> (r: bool)
    ensures
        r == cores_fit(crate::config::cores_of(*affinity)),
{
    if let Some(a) = affinity {
        let mut i: usize = 0;
        while i < a.cores.len()
            invariant
                i <= a.cores@.len(),
                *affinity == Some(*a),
                forall|k: int| 0 <= k < i ==> #[trigger] a.cores@[k] < 64,
            decreases a.cores@.len() - i,
        {
            if a.cores[i] >= 64 {
                assert(a.cores@[i as int] >= 64);
                return false;
            }
            i = i + 1;
        }
    }
    true
}

/// Whether every affinity in a configuration fits a 64-bit mask.
fn affinities_fit(cfg: &Config) -> (r: bool)
    ensures
        r == masks_fit(cfg@),
{
    let mut i: usize = 0;
    while i < cfg.background.len()
        invariant
            i <= cfg.background@.len(),
            forall|k: int| 0 <= k < i ==> cores_fit((#[trigger] cfg@.background[k]).affinity),
        decreases cfg.background@.len() - i,
    {
        if !affinity_fits(&cfg.background[i].affinity) {
            assert(!cores_fit(cfg@.background[i as int].affinity));
            return false;
        }
        i = i + 1;
    }
    let mut k: usize = 0;
    while k < cfg.rule.len()
        invariant
            k <= cfg.rule@.len(),
            forall|j: int| 0 <= j < k ==> cores_fit((#[trigger] cfg@.rule[j]).affinity),
        decreases cfg.rule@.len() - k,
    {
        if !affinity_fits(&cfg.rule[k].affinity) {
            assert(!cores_fit(cfg@.rule[k as int].affinity));
            return false;
        }
        k = k + 1;
    }
    true
}

/// What is said of a configuration that no engine can run.
pub open spec fn unusable_text(c: ConfigView) -> Seq<char> {
    if masks_fit(c) {
        "too many rules"@
    } else {
        "affinity core above 63"@
    }
}

/// Why no engine can run a configuration; nothing where one can.
pub fn refusal(cfg: &Config) -> (r: Option<String>)
    ensures
        r is None <==> rules_matchable(cfg@) && masks_fit(cfg@),
        r is Some ==> r->0@ == unusable_text(cfg@),
{
    if !affinities_fit(cfg) {
        return Some(copy_text("affinity core above 63"));
    }
    if PatternMatcher::try_new(crate::config::clone_texts(&cfg.game.processes)).is_some()
        && PatternMatcher::try_new(names_of_background(&cfg.background)).is_some()
        && PatternMatcher::try_new(names_of_always(&cfg.rule)).is_some() {
        None
    } else {
        Some(copy_text("too many rules"))
    }
}

/// Whether an engine can run a configuration.
pub fn usable(cfg: &Config) -> (r: bool)
    ensures
        r == (rules_matchable(cfg@) && masks_fit(cfg@)),
{
    refusal(cfg).is_none()
}

// ---------------------------------------------------------------------------
// Order of the candidates
// ---------------------------------------------------------------------------
proof fn insert_by_hash_at(sorted: Seq<(u32, Seq<char>)>, entry: (u32, Seq<char>), at: int)
    requires
        0 <= at <= sorted.len(),
        forall|k: int|
            at <= k < sorted.len() ==> hash_of((#[trigger] sorted[k]).1) > hash_of(entry.1),
        at > 0 ==> hash_of(sorted[at - 1].1) <= hash_of(entry.1),
    ensures
        insert_by_hash(sorted, entry) == sorted.insert(at, entry),
    decreases sorted.len(),
{
    if at == sorted.len() {
        assert(sorted.insert(at, entry) =~= sorted.push(entry));
    } else {
        let head = sorted.drop_last();
        assert forall|k: int| at <= k < head.len() implies hash_of((#[trigger] head[k]).1)
            > hash_of(entry.1) by {
            assert(head[k] == sorted[k]);
        }
        assert(hash_of(sorted[sorted.len() - 1].1) > hash_of(entry.1));
        insert_by_hash_at(head, entry, at);
        assert(head.insert(at, entry).push(sorted.last()) =~= sorted.insert(at, entry));
    }
}

/// The hashes of a list never fall.
pub open spec fn hashes_ascend(list: Seq<(u32, Seq<char>)>) -> bool {
    forall|i: int, j: int|
        0 <= i <= j < list.len() ==> hash_of((#[trigger] list[i]).1) <= hash_of(
            (#[trigger] list[j]).1,
        )
}

spec fn hashes_upto(list: Seq<(u32, Seq<char>)>, bound: u64) -> bool {
    forall|k: int| 0 <= k < list.len() ==> hash_of((#[trigger] list[k]).1) <= bound
}

proof fn insert_keeps_order(sorted: Seq<(u32, Seq<char>)>, entry: (u32, Seq<char>))
    requires
        hashes_ascend(sorted),
    ensures
        hashes_ascend(insert_by_hash(sorted, entry)),
        insert_by_hash(sorted, entry).to_multiset() == sorted.to_multiset().insert(entry),
        insert_by_hash(sorted, entry).len() == sorted.len() + 1,
        forall|b: u64| #[trigger]
            hashes_upto(sorted, b) && hash_of(entry.1) <= b ==> hashes_upto(
                insert_by_hash(sorted, entry),
                b,
            ),
    decreases sorted.len(),
{
    broadcast use vstd::seq_lib::group_to_multiset_ensures;

    let all = insert_by_hash(sorted, entry);
    if sorted.len() == 0 || hash_of(sorted.last().1) <= hash_of(entry.1) {
        assert forall|i: int, j: int| 0 <= i <= j < all.len() implies hash_of(
            (#[trigger] all[i]).1,
        ) <= hash_of((#[trigger] all[j]).1) by {
            if j == sorted.len() && i < j {
                assert(hash_of(sorted[i].1) <= hash_of(sorted[sorted.len() - 1].1));
            }
        }
    } else {
        let head = sorted.drop_last();
        let last = sorted.last();
        assert(hashes_ascend(head)) by {
            assert forall|i: int, j: int| 0 <= i <= j < head.len() implies hash_of(
                (#[trigger] head[i]).1,
            ) <= hash_of((#[trigger] head[j]).1) by {
                assert(head[i] == sorted[i] && head[j] == sorted[j]);
            }
        }
        insert_keeps_order(head, entry);
        let inner = insert_by_hash(head, entry);
        assert(all == inner.push(last));
        assert(hashes_upto(head, hash_of(last.1))) by {
            assert forall|k: int| 0 <= k < head.len() implies hash_of((#[trigger] head[k]).1)
                <= hash_of(last.1) by {
                assert(head[k] == sorted[k]);
                assert(hash_of(sorted[k].1) <= hash_of(sorted[sorted.len() - 1].1));
            }
        }
        assert forall|i: int, j: int| 0 <= i <= j < all.len() implies hash_of(
            (#[trigger] all[i]).1,
        ) <= hash_of((#[trigger] all[j]).1) by {
            if j == inner.len() && i < j {
                assert(all[i] == inner[i]);
            } else if j < inner.len() {
                assert(all[i] == inner[i] && all[j] == inner[j]);
            }
        }
        assert(sorted =~= head.push(last));
        assert(all.to_multiset() =~= sorted.to_multiset().insert(entry));
        assert forall|b: u64| #[trigger]
            hashes_upto(sorted, b) && hash_of(entry.1) <= b implies hashes_upto(all, b) by {
            assert(hashes_upto(head, b)) by {
                assert forall|k: int| 0 <= k < head.len() implies hash_of((#[trigger] head[k]).1)
                    <= b by {
                    assert(head[k] == sorted[k]);
                }
            }
            assert forall|k: int| 0 <= k < all.len() implies hash_of((#[trigger] all[k]).1)
                <= b by {
                if k < inner.len() {
                    assert(all[k] == inner[k]);
                } else {
                    assert(hash_of(sorted[sorted.len() - 1].1) <= b);
                }
            }
        }
    }
}

/// Ordering by hash neither loses nor adds an entry, and puts the entries in the
/// order of their hashes.
pub proof fn by_hash_orders(list: Seq<(u32, Seq<char>)>)
    ensures
        hashes_ascend(by_hash(list)),
        by_hash(list).to_multiset() == list.to_multiset(),
    decreases list.len(),
{
    broadcast use vstd::seq_lib::group_to_multiset_ensures;

    if list.len() > 0 {
        by_hash_orders(list.drop_last());
        insert_keeps_order(by_hash(list.drop_last()), list.last());
        assert(list =~= list.drop_last().push(list.last()));
        assert(by_hash(list).to_multiset() =~= list.to_multiset());
    } else {
        assert(list =~= Seq::<(u32, Seq<char>)>::empty());
    }
}

/// A candidate: the hash of its name, its pid and its name.
type Candidate = (u64, u32, String);

spec fn pairs(list: Seq<Candidate>) -> Seq<(u32, Seq<char>)> {
    list.map_values(|c: Candidate| (c.1, c.2@))
}

spec fn hashed(list: Seq<Candidate>) -> bool {
    forall|i: int| 0 <= i < list.len() ==> (#[trigger] list[i]).0 == hash_of(list[i].2@)
}

fn insert_candidate(list: &mut Vec<Candidate>, entry: Candidate)
    requires
        hashed(old(list)@),
        entry.0 == hash_of(entry.2@),
    ensures
        hashed(final(list)@),
        pairs(final(list)@) == insert_by_hash(pairs(old(list)@), (entry.1, entry.2@)),
{
    let mut at: usize = list.len();
    while at > 0 && list[at - 1].0 > entry.0
        invariant
            at <= list@.len(),
            list@ == old(list)@,
            hashed(list@),
            forall|k: int| at <= k < list@.len() ==> (#[trigger] list@[k]).0 > entry.0,
        decreases at,
    {
        at = at - 1;
    }
    proof {
        let p = pairs(list@);
        assert forall|k: int| at <= k < p.len() implies hash_of((#[trigger] p[k]).1) > hash_of(
            entry.2@,
        ) by {
            assert(list@[k].0 > entry.0);
        }
        if at > 0 {
            assert(list@[at - 1].0 == hash_of(list@[at - 1].2@));
        }
        insert_by_hash_at(p, (entry.1, entry.2@), at as int);
    }
    let ghost before = list@;
    list.insert(at, entry);
    assert(pairs(list@) =~= pairs(before).insert(at as int, (entry.1, entry.2@)));
    assert forall|i: int| 0 <= i < list@.len() implies (#[trigger] list@[i]).0 == hash_of(
        list@[i].2@,
    ) by {
        if i < at {
            assert(list@[i] == before[i]);
        } else if i > at {
            assert(list@[i] == before[i - 1]);
        }
    }
}

impl<B: ProcessBackend + QosLifecycle> PolicyEngine<B> {
    /// The processes that are met when a boost begins, in order.
    fn ordered_candidates(&self, game: u32) -> (r: Vec<Candidate>)
        requires
            self.wf(),
        ensures
            pairs(r@) == by_hash(candidates(self@.cfg, self@.table.listing(), game)),
    {
        let rows = self.table.iter();
        let ghost all = self@.table.listing();
        let mut r: Vec<Candidate> = Vec::new();
        let mut i: usize = 0;
        assert(pairs(r@) =~= by_hash(candidates(self@.cfg, all.take(0), game)));
        while i < rows.len()
            invariant
                i <= rows@.len(),
                self.wf(),
                all == self@.table.listing(),
                crate::proc_table::listed(rows@) == all,
                hashed(r@),
                pairs(r@) == by_hash(candidates(self@.cfg, all.take(i as int), game)),
            decreases rows@.len() - i,
        {
            let (pid, name, _) = rows[i];
            assert(all[i as int] == (rows@[i as int].0, rows@[i as int].1@, rows@[i as int].2));
            assert(all.take(i + 1).drop_last() =~= all.take(i as int));
            if pid != game && !self.is_protected(name) {
                proof {
                    let before = candidates(self@.cfg, all.take(i as int), game);
                    assert(before.push((pid, name@)).drop_last() =~= before);
                }
                insert_candidate(&mut r, (name_hash(name), pid, copy_text(name)));
            }
            i = i + 1;
        }
        assert(all.take(i as int) =~= all);
        r
    }
}

// ---------------------------------------------------------------------------
// Transitions
// ---------------------------------------------------------------------------
proof fn answers_of_attempts(pid: u32, actions: Seq<TargetAction>, done: Seq<bool>)
    requires
        actions.len() == done.len(),
    ensures
        answers(attempts(pid, actions, done)) == done,
{
    assert(answers(attempts(pid, actions, done)) =~= done);
}

impl<B: ProcessBackend + QosLifecycle> PolicyEngine<B> {
    /// Tries actions on a process one after the other; failures are passed over.
    fn attempt_all(&mut self, pid: u32, actions: &Vec<TargetAction>)
        requires
            old(self).wf(),
        ensures
            final(self).wf(),
            final(self)@ == old(self)@,
            extends(old(self).calls(), final(self).calls()),
            added(old(self).calls(), final(self).calls()) == attempts(
                pid,
                actions@,
                answers(added(old(self).calls(), final(self).calls())),
            ),
    {
        let ghost start = self.calls();
        let ghost mut done: Seq<bool> = Seq::empty();
        let mut i: usize = 0;
        assert(self.calls() =~= start + attempts(pid, actions@.take(0), done));
        while i < actions.len()
            invariant
                i <= actions@.len(),
                self.wf(),
                self@ == old(self)@,
                done.len() == i,
                self.calls() == start + attempts(pid, actions@.take(i as int), done),
            decreases actions@.len() - i,
        {
            let ok: bool = self.backend.apply(pid, &actions[i]).is_ok();
            proof {
                let before = done;
                done = done.push(ok);
                assert(self.calls() =~= start + attempts(pid, actions@.take(i + 1), done));
            }
            i = i + 1;
        }
        proof {
            assert(actions@.take(i as int) =~= actions@);
            calls_added(start, attempts(pid, actions@, done), self.calls());
            answers_of_attempts(pid, actions@, done);
        }
    }

    /// Meets one process in a boost.
    fn apply_background_to(&mut self, pid: u32, name: &str)
        requires
            old(self).wf(),
            old(self)@.mode == Mode::GameBoost,
        ensures
            final(self).wf(),
            final(self)@ == (EngineView { boosted: final(self)@.boosted, ..old(self)@ }),
            extends(old(self).calls(), final(self).calls()),
            boosts_one(
                old(self)@.cfg,
                old(self)@.boosted,
                pid,
                name@,
                added(old(self).calls(), final(self).calls()),
                final(self)@.boosted,
            ),
    {
        let ghost start = self.calls();
        proof {
            calls_added(start, Seq::empty(), start);
            assert(start + Seq::<BackendCall>::empty() =~= start);
        }
        if self.is_protected(name) {
            return;
        }
        let index: usize = match self.first_matching_background(name) {
            Some(i) => i,
            None => {
                return;
            },
        };
        if self.boosted.contains_key(&pid) {
            return;
        }
        assert(cores_fit(self@.cfg.background[index as int].affinity));
        let actions = actions_for(&self.cfg.background[index]);
        let reply = self.backend.snapshot(pid);
        let ghost first = BackendCall::Snapshot { pid, reply: reply_of(reply) };
        let mut state = match reply {
            Ok(s) => s,
            Err(_) => {
                proof {
                    assert(self.calls() =~= start + seq![first]);
                    calls_added(start, seq![first], self.calls());
                }
                return;
            },
        };
        let ghost snap = state;
        let ghost mut done: Seq<bool> = Seq::empty();
        let mut i: usize = 0;
        assert(self.calls() =~= start.push(first) + attempts(pid, actions@.take(0), done));
        while i < actions.len()
            invariant
                i <= actions@.len(),
                self.wf(),
                self@ == old(self)@,
                done.len() == i,
                self.calls() == start.push(first) + attempts(pid, actions@.take(i as int), done),
                state == noted_all(snap, actions@.take(i as int), done),
            decreases actions@.len() - i,
        {
            let action = actions[i];
            let ok: bool = self.backend.apply(pid, &action).is_ok();
            if ok {
                match action {
                    TargetAction::Suspend => {
                        state.suspended = true;
                    },
                    TargetAction::QosCpuQuota { percent } => {
                        state.qos_percent = Some(percent);
                    },
                    _ => {},
                }
            }
            proof {
                let before = done;
                done = done.push(ok);
                assert(done.drop_last() =~= before);
                assert(actions@.take(i + 1).drop_last() =~= actions@.take(i as int));
                assert(self.calls() =~= start.push(first) + attempts(
                    pid,
                    actions@.take(i + 1),
                    done,
                ));
            }
            i = i + 1;
        }
        self.boosted.insert(pid, state);
        proof {
            assert(actions@.take(i as int) =~= actions@);
            let new = seq![first] + attempts(pid, actions@, done);
            assert(self.calls() =~= start + new);
            calls_added(start, new, self.calls());
            assert(new.skip(1) =~= attempts(pid, actions@, done));
            answers_of_attempts(pid, actions@, done);
        }
    }
}

fn holds(pids: &Vec<u32>, pid: u32) -> (r: bool)
    ensures
        r == pids@.contains(pid),
{
    let mut i: usize = 0;
    while i < pids.len()
        invariant
            i <= pids@.len(),
            forall|k: int| 0 <= k < i ==> pids@[k] != pid,
        decreases pids@.len() - i,
    {
        if pids[i] == pid {
            return true;
        }
        i = i + 1;
    }
    false
}

impl<B: ProcessBackend + QosLifecycle> PolicyEngine<B> {
    /// Leaves game boost: every boosted process is restored (resumed, uncapped,
    /// with its priority and affinity), and all caps are cleared. Also for a
    /// shutdown: nothing stays suspended behind the engine's back.
    pub fn exit_game_mode(&mut self)
        requires
            old(self).wf(),
        ensures
            final(self).wf(),
            extends(old(self).calls(), final(self).calls()),
            exits(old(self)@, added(old(self).calls(), final(self).calls()), final(self)@),
    {
        let ghost start = self.calls();
        if self.mode != Mode::GameBoost {
            proof {
                assert(start + Seq::<BackendCall>::empty() =~= start);
                calls_added(start, Seq::empty(), start);
            }
            return;
        }
        self.revert_tweaks();
        let ghost mid = self.calls();
        let ghost v = self@;
        let order = keys_of(&self.boosted);
        let ghost boosted = self.boosted@;
        let ghost mut done: Seq<bool> = Seq::empty();
        let mut i: usize = 0;
        assert(self.calls() =~= mid + restores(boosted, order@.take(0), done));
        while i < order.len()
            invariant
                i <= order@.len(),
                self.wf(),
                self@ == v,
                boosted == self.boosted@,
                order@.to_set() == boosted.dom(),
                done.len() == i,
                self.calls() == mid + restores(boosted, order@.take(i as int), done),
            decreases order@.len() - i,
        {
            let pid: u32 = order[i];
            assert(order@.to_set().contains(pid));
            let state: ProcState = match self.boosted.get(&pid) {
                Some(s) => *s,
                None => vstd::pervasive::unreached(),
            };
            let ok: bool = self.backend.restore(pid, &state).is_ok();
            proof {
                done = done.push(ok);
                assert(self.calls() =~= mid + restores(boosted, order@.take(i + 1), done));
            }
            i = i + 1;
        }
        self.boosted.clear();
        self.mode = Mode::Normal;
        self.game_pids.clear();
        self.foreground_resumed.clear();
        self.last_foreground = None;
        self.backend.clear_all_qos();
        proof {
            assert(order@.take(i as int) =~= order@);
            let new = restores(boosted, order@, done).push(BackendCall::ClearAllQos);
            assert(self.calls() =~= mid + new);
            calls_added(mid, new, self.calls());
            calls_in_two(start, mid, self.calls());
            assert(new =~= restores(boosted, order@, answers(new)).push(BackendCall::ClearAllQos));
            assert(restores_each(boosted, order@, new));
            let reverted = choose|done: Seq<bool>|
                added(start, mid) == #[trigger] exit_calls(
                    old(self)@.backup,
                    old(self)@.marker,
                    done,
                );
            assert(ends(old(self)@, reverted, order@, added(start, self.calls())));
            assert(self@.boosted =~= Map::<u32, ProcState>::empty());
            assert(self@.resumed =~= Set::<u32>::empty());
            assert(self@.games =~= Seq::<u32>::empty());
            assert(self@.backup is None);
            assert(self@.foreground is None);
        }
    }

    /// Takes the network tweaks back, if any are in force.
    fn revert_tweaks(&mut self)
        requires
            old(self).wf(),
        ensures
            final(self).wf(),
            final(self)@ == (EngineView { backup: None, ..old(self)@ }),
            extends(old(self).calls(), final(self).calls()),
            exists|done: Seq<bool>|
                added(old(self).calls(), final(self).calls()) == #[trigger] exit_calls(
                    old(self)@.backup,
                    old(self)@.marker,
                    done,
                ),
    {
        let ghost start = self.calls();
        let ghost v = self@;
        match self.network_backup.take() {
            Some(backup) => {
                let done = self.backend.revert_network(&backup);
                proof {
                    crate::network::all_counted(done@);
                }
                if done.len() == backup.len() && crate::network::marker_is_stale(
                    backup.len(),
                    crate::network::reverted_count(&done),
                ) {
                    self.backend.remove_marker(self.network_marker.as_str());
                }
                proof {
                    let new = exit_calls(v.backup, v.marker, done@);
                    assert(self.calls() =~= start + new);
                    calls_added(start, new, self.calls());
                }
            },
            None => {
                proof {
                    no_calls(start);
                    assert(exit_calls(v.backup, v.marker, Seq::empty()) =~= Seq::<
                        BackendCall,
                    >::empty());
                }
            },
        }
    }

    /// Makes the system ready for a boost.
    fn prepare(&mut self)
        requires
            old(self).wf(),
            old(self)@.mode == Mode::GameBoost,
        ensures
            final(self).wf(),
            extends(old(self).calls(), final(self).calls()),
            exists|r: EntryReplies|
                added(old(self).calls(), final(self).calls()) == #[trigger] entry_calls(
                    old(self)@.cfg,
                    old(self)@.marker,
                    r,
                ) && final(self)@ == (EngineView {
                    backup: if old(self)@.cfg.network.enabled {
                        r.backup
                    } else {
                        old(self)@.backup
                    },
                    ..old(self)@
                }),
    {
        let ghost start = self.calls();
        let ghost v = self@;
        let ghost mut replies = EntryReplies { backup: None, written: false, purged: false };
        if self.cfg.network.enabled {
            let applied = self.backend.apply_network(
                self.cfg.network.nagle,
                self.cfg.network.netbios,
            );
            proof {
                replies = EntryReplies { backup: crate::actions::backup_reply(applied), ..replies };
            }
            match applied {
                Ok(backup) => {
                    if backup.len() > 0 {
                        if let Ok(bytes) = crate::network::encode_marker(&backup) {
                            let written: bool = self.backend.write_marker(
                                self.network_marker.as_str(),
                                &bytes,
                            ).is_ok();
                            proof {
                                replies = EntryReplies { written, ..replies };
                            }
                        }
                    }
                    self.network_backup = Some(backup);
                },
                Err(_) => {
                    self.network_backup = None;
                },
            }
        }
        if self.cfg.game.purge_standby_on_boost {
            let purged: bool = self.backend.purge_standby().is_ok();
            proof {
                replies = EntryReplies { purged, ..replies };
            }
        }
        proof {
            let new = entry_calls(v.cfg, v.marker, replies);
            assert(self.calls() =~= start + new);
            calls_added(start, new, self.calls());
        }
    }

    /// Begins a boost for a game, or notes one more game.
    fn enter_game_mode(&mut self, game: u32)
        requires
            old(self).wf(),
        ensures
            final(self).wf(),
            extends(old(self).calls(), final(self).calls()),
            enters(old(self)@, game, added(old(self).calls(), final(self).calls()), final(self)@),
    {
        let ghost start = self.calls();
        proof {
            assert(start + Seq::<BackendCall>::empty() =~= start);
            calls_added(start, Seq::empty(), start);
        }
        if self.mode == Mode::GameBoost {
            if !holds(&self.game_pids, game) {
                self.game_pids.push(game);
            }
            return;
        }
        let ghost v = self@;
        let targets = self.ordered_candidates(game);
        self.mode = Mode::GameBoost;
        self.game_pids.clear();
        self.game_pids.push(game);
        assert(self.game_pids@ =~= seq![game]);
        let ghost marked = self@;
        self.prepare();
        let ghost ready = self.calls();
        let ghost replies = choose|r: EntryReplies|
            added(start, ready) == #[trigger] entry_calls(marked.cfg, marked.marker, r) && self@
                == (EngineView {
                backup: if marked.cfg.network.enabled {
                    r.backup
                } else {
                    marked.backup
                },
                ..marked
            });
        proof {
            no_calls(ready);
        }
        let ghost all = pairs(targets@);
        let ghost entered = self@;
        let mut i: usize = 0;
        assert(all.take(0) =~= Seq::<(u32, Seq<char>)>::empty());
        while i < targets.len()
            invariant
                i <= targets@.len(),
                self.wf(),
                all == pairs(targets@),
                entered.mode == Mode::GameBoost,
                self@ == (EngineView { boosted: self@.boosted, ..entered }),
                extends(ready, self.calls()),
                boosts_all(
                    entered.cfg,
                    entered.boosted,
                    all.take(i as int),
                    added(ready, self.calls()),
                    self@.boosted,
                ),
            decreases targets@.len() - i,
        {
            let ghost before_calls = self.calls();
            let ghost mid = self@.boosted;
            self.apply_background_to(targets[i].1, targets[i].2.as_str());
            proof {
                let k = added(ready, before_calls).len() as int;
                let new = added(ready, self.calls());
                assert(self.calls().take(before_calls.len() as int) == before_calls);
                assert(self.calls().take(ready.len() as int) =~= before_calls.take(
                    ready.len() as int,
                ));
                assert(new.take(k) =~= added(ready, before_calls));
                assert(new.skip(k) =~= added(before_calls, self.calls()));
                assert(all.take(i + 1).drop_last() =~= all.take(i as int));
                assert(all.take(i + 1).last() == (targets@[i as int].1, targets@[i as int].2@));
                let upto = all.take(i + 1);
                assert(boosts_all(
                    entered.cfg,
                    entered.boosted,
                    upto.drop_last(),
                    new.take(k),
                    mid,
                ));
                assert(boosts_one(
                    entered.cfg,
                    mid,
                    upto.last().0,
                    upto.last().1,
                    new.skip(k),
                    self@.boosted,
                ));
                assert(0 <= k <= new.len());
                assert(boosts_all(entered.cfg, entered.boosted, upto, new, self@.boosted));
            }
            i = i + 1;
        }
        proof {
            assert(all.take(i as int) =~= all);
            calls_in_two(start, ready, self.calls());
            assert(begins(v, game, replies, added(start, self.calls()), self@));
        }
    }

    /// Begins the boost again for every game that runs, if any does; nothing
    /// happens in a boost.
    pub fn reenter_if_game_running(&mut self)
        requires
            old(self).wf(),
        ensures
            final(self).wf(),
            extends(old(self).calls(), final(self).calls()),
            reenters(old(self)@, added(old(self).calls(), final(self).calls()), final(self)@),
    {
        let ghost start = self.calls();
        proof {
            assert(start + Seq::<BackendCall>::empty() =~= start);
            calls_added(start, Seq::empty(), start);
        }
        if self.mode == Mode::GameBoost {
            return;
        }
        let games = self.games_running();
        if games.len() == 0 {
            return;
        }
        self.enter_game_mode(games[0]);
        let ghost mid = self@;
        let ghost rest = games@.skip(1);
        let mut i: usize = 1;
        assert(rest.take(0) =~= Seq::<u32>::empty());
        while i < games.len()
            invariant
                1 <= i <= games@.len(),
                rest == games@.skip(1),
                self.wf(),
                self.calls() == start + added(start, self.calls()),
                extends(start, self.calls()),
                enters(old(self)@, games@[0], added(start, self.calls()), mid),
                self@ == (EngineView { games: with_pids(mid.games, rest.take(i - 1)), ..mid }),
                mid.mode == Mode::GameBoost,
            decreases games@.len() - i,
        {
            let pid: u32 = games[i];
            assert(rest.take(i as int).drop_last() =~= rest.take(i - 1));
            assert(rest.take(i as int).last() == pid);
            if !holds(&self.game_pids, pid) {
                self.game_pids.push(pid);
            }
            i = i + 1;
        }
        assert(rest.take(i - 1) =~= rest);
    }

    /// The pids of the games in the table.
    fn games_running(&self) -> (r: Vec<u32>)
        requires
            self.wf(),
        ensures
            r@ == running_games(self@.cfg, self@.table.listing()),
    {
        let rows = self.table.iter();
        let ghost all = self@.table.listing();
        let mut r: Vec<u32> = Vec::new();
        let mut i: usize = 0;
        assert(r@ =~= running_games(self@.cfg, all.take(0)));
        while i < rows.len()
            invariant
                i <= rows@.len(),
                self.wf(),
                all == self@.table.listing(),
                crate::proc_table::listed(rows@) == all,
                r@ == running_games(self@.cfg, all.take(i as int)),
            decreases rows@.len() - i,
        {
            let (pid, name, _) = rows[i];
            assert(all[i as int] == (rows@[i as int].0, rows@[i as int].1@, rows@[i as int].2));
            assert(all.take(i + 1).drop_last() =~= all.take(i as int));
            if self.is_game(name) {
                r.push(pid);
            }
            i = i + 1;
        }
        assert(all.take(i as int) =~= all);
        r
    }
}

/// Calls in two stretches are the calls of both, one after the other.
proof fn calls_in_two(
    start: Seq<BackendCall>,
    mid: Seq<BackendCall>,
    end: Seq<BackendCall>,
)
    requires
        extends(start, mid),
        extends(mid, end),
    ensures
        extends(start, end),
        added(start, end) == added(start, mid) + added(mid, end),
        added(start, end).take(added(start, mid).len() as int) == added(start, mid),
        added(start, end).skip(added(start, mid).len() as int) == added(mid, end),
{
    let k = added(start, mid).len() as int;
    assert(end.take(start.len() as int) =~= mid.take(start.len() as int));
    assert(end.take(mid.len() as int) == mid);
    assert forall|i: int| 0 <= i < k implies added(start, end)[i] == added(start, mid)[i] by {
        assert(end.take(mid.len() as int)[start.len() + i] == mid[start.len() + i]);
    }
    assert(added(start, end).take(k) =~= added(start, mid));
    assert(added(start, end).skip(k) =~= added(mid, end));
    assert(added(start, end) =~= added(start, mid) + added(mid, end));
}

proof fn no_calls(calls: Seq<BackendCall>)
    ensures
        extends(calls, calls),
        added(calls, calls).len() == 0,
        added(calls, calls) == Seq::<BackendCall>::empty(),
{
    assert(calls.take(calls.len() as int) =~= calls);
    assert(added(calls, calls) =~= Seq::<BackendCall>::empty());
}

impl<B: ProcessBackend + QosLifecycle> PolicyEngine<B> {
    /// Replaces the configuration: the boost ends under the old one and begins
    /// again under the new one if a game runs.
    pub fn set_config(&mut self, cfg: Config)
        requires
            old(self).wf(),
            rules_matchable(cfg@),
            masks_fit(cfg@),
        ensures
            final(self).wf(),
            extends(old(self).calls(), final(self).calls()),
            reconfigures(
                old(self)@,
                cfg@,
                added(old(self).calls(), final(self).calls()),
                final(self)@,
            ),
    {
        let ghost start = self.calls();
        self.exit_game_mode();
        let ghost mid = self@;
        let ghost mid_calls = self.calls();
        self.matcher = PatternMatcher::new(crate::config::clone_texts(&cfg.game.processes));
        self.background_matcher = PatternMatcher::new(names_of_background(&cfg.background));
        self.always_matcher = PatternMatcher::new(names_of_always(&cfg.rule));
        self.protected_hashes = hashes_of_protected(&cfg);
        self.cfg = cfg;
        assert(self@ == (EngineView { cfg: cfg@, ..mid }));
        self.reenter_if_game_running();
        proof {
            calls_in_two(start, mid_calls, self.calls());
            let calls = added(start, self.calls());
            let k = added(start, mid_calls).len() as int;
            assert(exits(old(self)@, calls.take(k), mid));
        }
    }

    /// Replaces the configuration as [`PolicyEngine::set_config`] does; nothing
    /// happens, and the answer is `false`, when the engine cannot run it.
    pub fn try_set_config(&mut self, cfg: Config) -> (r: bool)
        requires
            old(self).wf(),
        ensures
            final(self).wf(),
            r == (rules_matchable(cfg@) && masks_fit(cfg@)),
            extends(old(self).calls(), final(self).calls()),
            r ==> reconfigures(
                old(self)@,
                cfg@,
                added(old(self).calls(), final(self).calls()),
                final(self)@,
            ),
            !r ==> final(self)@ == old(self)@ && final(self).calls() == old(self).calls(),
    {
        if usable(&cfg) {
            self.set_config(cfg);
            true
        } else {
            proof {
                no_calls(self.calls());
            }
            false
        }
    }

    /// Takes a process event in.
    pub fn on_process_event(&mut self, ev: &ProcessEvent)
        requires
            old(self).wf(),
        ensures
            final(self).wf(),
            extends(old(self).calls(), final(self).calls()),
            ev.kind == ProcessKind::Start ==> starts(
                old(self)@,
                ev.pid,
                ev.name@,
                added(old(self).calls(), final(self).calls()),
                final(self)@,
            ),
            ev.kind == ProcessKind::Stop ==> stops(
                old(self)@,
                ev.pid,
                added(old(self).calls(), final(self).calls()),
                final(self)@,
            ),
    {
        match ev.kind {
            ProcessKind::Start => self.on_start(ev.pid, ev.name.as_str()),
            ProcessKind::Stop => self.on_stop(ev.pid),
        }
    }

    fn on_start(&mut self, pid: u32, name: &str)
        requires
            old(self).wf(),
        ensures
            final(self).wf(),
            extends(old(self).calls(), final(self).calls()),
            starts(
                old(self)@,
                pid,
                name@,
                added(old(self).calls(), final(self).calls()),
                final(self)@,
            ),
    {
        let ghost start = self.calls();
        self.table.upsert(pid, name, false);
        let ghost seen = self@;
        if self.is_protected(name) {
            proof {
                no_calls(start);
            }
            return;
        }
        let always = self.always_actions_for(name);
        self.attempt_all(pid, &always);
        let ghost mid = self.calls();
        proof {
            no_calls(mid);
            calls_in_two(start, mid, mid);
            assert(added(start, mid).len() == always@.len());
        }
        if self.is_game(name) {
            if self.cfg.game.boost_on_start {
                self.enter_game_mode(pid);
            }
        } else if self.mode == Mode::GameBoost && !holds(&self.game_pids, pid) {
            self.apply_background_to(pid, name);
        }
        proof {
            calls_in_two(start, mid, self.calls());
        }
    }

    fn on_stop(&mut self, pid: u32)
        requires
            old(self).wf(),
        ensures
            final(self).wf(),
            extends(old(self).calls(), final(self).calls()),
            stops(old(self)@, pid, added(old(self).calls(), final(self).calls()), final(self)@),
    {
        let ghost start = self.calls();
        let ghost v = self@;
        self.table.remove(pid);
        proof {
            no_calls(start);
        }
        if holds(&self.game_pids, pid) {
            self.exit_game_mode();
        } else if let Some(state) = self.boosted.remove(&pid) {
            let ok: bool = self.backend.restore(pid, &state).is_ok();
            proof {
                let call = BackendCall::Restore { pid, state, done: ok };
                assert(self.calls() =~= start + seq![call]);
                calls_added(start, seq![call], self.calls());
                assert(seq![call] =~= restores(v.boosted, seq![pid], answers(seq![call])));
            }
        } else {
            assert(self@.boosted =~= v.boosted);
        }
        let ghost mid = self.calls();
        self.backend.on_process_exit(pid);
        proof {
            let last = BackendCall::ProcessExit { pid };
            assert(self.calls() =~= start + added(start, mid).push(last)) by {
                assert(mid =~= start + added(start, mid)) by {
                    assert(mid.take(start.len() as int) == start);
                }
            }
            calls_added(start, added(start, mid).push(last), self.calls());
            assert(added(start, self.calls()).drop_last() =~= added(start, mid));
        }
    }

    /// Takes a foreground event in.
    pub fn on_foreground(&mut self, ev: &ForegroundEvent)
        requires
            old(self).wf(),
        ensures
            final(self).wf(),
            extends(old(self).calls(), final(self).calls()),
            focuses(
                old(self)@,
                ev.pid,
                added(old(self).calls(), final(self).calls()),
                final(self)@,
            ),
    {
        let pid: u32 = ev.pid;
        let ghost v = self@;
        let ghost c0 = self.calls();
        let ghost (leave, without) = leaves_foreground(v, pid);
        let ghost (come, with) = comes_to_foreground(v, without, pid);
        self.leave_foreground(pid);
        let ghost c1 = self.calls();
        self.come_to_foreground(pid);
        let ghost c2 = self.calls();
        let ghost seen = self@;
        proof {
            calls_in_two(c0, c1, c2);
            no_calls(c2);
            calls_in_two(c0, c2, c2);
        }
        let name = copy_text(self.table.name_or_default(pid));
        if self.is_game(name.as_str()) {
            if self.mode != Mode::GameBoost {
                self.enter_game_mode(pid);
            }
        } else if !self.cfg.game.boost_on_start && self.mode == Mode::GameBoost && !holds(
            &self.game_pids,
            pid,
        ) {
            self.exit_game_mode();
        }
        proof {
            foreground_calls(c0, c1, c2, self.calls());
        }
    }

    fn leave_foreground(&mut self, pid: u32)
        requires
            old(self).wf(),
        ensures
            final(self).wf(),
            final(self)@ == (EngineView {
                resumed: leaves_foreground(old(self)@, pid).1,
                foreground: Some(pid),
                ..old(self)@
            }),
            extends(old(self).calls(), final(self).calls()),
            added(old(self).calls(), final(self).calls()) == attempts(
                old(self)@.foreground->0,
                leaves_foreground(old(self)@, pid).0,
                answers(added(old(self).calls(), final(self).calls())),
            ),
    {
        let ghost start = self.calls();
        let ghost v = self@;
        proof {
            no_calls(start);
            assert(Seq::<BackendCall>::empty() =~= attempts(
                v.foreground->0,
                Seq::empty(),
                answers(Seq::empty()),
            ));
        }
        if let Some(prev) = self.last_foreground {
            if prev != pid && self.foreground_resumed.remove(&prev) {
                if self.was_suspended(prev) {
                    let ok: bool = self.backend.apply(prev, &TargetAction::Suspend).is_ok();
                    proof {
                        let done = seq![ok];
                        let call = attempts(prev, seq![TargetAction::Suspend], done);
                        assert(self.calls() =~= start + call);
                        calls_added(start, call, self.calls());
                        answers_of_attempts(prev, seq![TargetAction::Suspend], done);
                    }
                }
            } else {
                assert(self@.resumed =~= v.resumed);
            }
        }
        self.last_foreground = Some(pid);
        assert(self@.resumed =~= leaves_foreground(v, pid).1);
    }

    fn was_suspended(&self, pid: u32) -> (r: bool)
        ensures
            r == self@.is_suspended(pid),
    {
        match self.boosted.get(&pid) {
            Some(s) => s.suspended,
            None => false,
        }
    }

    fn come_to_foreground(&mut self, pid: u32)
        requires
            old(self).wf(),
        ensures
            final(self).wf(),
            final(self)@ == (EngineView {
                resumed: comes_to_foreground(old(self)@, old(self)@.resumed, pid).1,
                ..old(self)@
            }),
            extends(old(self).calls(), final(self).calls()),
            added(old(self).calls(), final(self).calls()) == attempts(
                pid,
                comes_to_foreground(old(self)@, old(self)@.resumed, pid).0,
                answers(added(old(self).calls(), final(self).calls())),
            ),
    {
        let ghost start = self.calls();
        proof {
            no_calls(start);
            assert(Seq::<BackendCall>::empty() =~= attempts(
                pid,
                Seq::empty(),
                answers(Seq::empty()),
            ));
        }
        if !self.foreground_resumed.contains(&pid) && self.was_suspended(pid) {
            let ok: bool = self.backend.apply(pid, &TargetAction::Resume).is_ok();
            self.foreground_resumed.insert(pid);
            proof {
                let done = seq![ok];
                let call = attempts(pid, seq![TargetAction::Resume], done);
                assert(self.calls() =~= start + call);
                calls_added(start, call, self.calls());
                answers_of_attempts(pid, seq![TargetAction::Resume], done);
            }
        }
    }
}

/// Calls in three stretches, as [`focuses`] cuts them.
proof fn foreground_calls(
    c0: Seq<BackendCall>,
    c1: Seq<BackendCall>,
    c2: Seq<BackendCall>,
    c3: Seq<BackendCall>,
)
    requires
        extends(c0, c1),
        extends(c1, c2),
        extends(c2, c3),
    ensures
        extends(c0, c3),
        ({
            let a = added(c0, c1).len() as int;
            let b = a + added(c1, c2).len();
            let calls = added(c0, c3);
            &&& b <= calls.len()
            &&& calls.take(a) == added(c0, c1)
            &&& calls.subrange(a, b) == added(c1, c2)
            &&& calls.skip(b) == added(c2, c3)
        }),
{
    calls_in_two(c0, c1, c2);
    calls_in_two(c0, c2, c3);
    let a = added(c0, c1).len() as int;
    let b = a + added(c1, c2).len();
    let calls = added(c0, c3);
    let first = added(c0, c2);
    assert(calls.take(b) == first);
    assert(calls.take(a) =~= first.take(a));
    assert(calls.subrange(a, b) =~= first.skip(a));
}

} // verus!
