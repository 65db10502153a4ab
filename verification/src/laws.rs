//! What holds of the policy engine over whole runs.

use vstd::prelude::*;

use crate::actions::{
    only_restrains, BackendCall, ProcState, ProcessBackend, QosLifecycle, TargetAction,
};
use crate::config::{protected_names, BackgroundView, ConfigView};
use crate::network::{all_done, EntryView};
use crate::policy::{
    answers, background_actions, background_index, begins, boosts_all, boosts_one, by_hash,
    by_hash_orders, candidates, comes_to_foreground, ends, enters, entry_calls, exit_calls, exits,
    focuses, is_game, is_protected, leaves_foreground, protected_in_any_case, reconfigures,
    reenters, restores, running_games, starts, stops, with_pid, with_pids, EngineView,
    EntryReplies, Mode, PolicyEngine,
};
use crate::text::fold;

verus! {

/// A call that reads or changes a process.
pub open spec fn touches(call: BackendCall, pid: u32) -> bool {
    match call {
        BackendCall::Snapshot { pid: p, reply: _ } => p == pid,
        BackendCall::Apply { pid: p, action: _, done: _ } => p == pid,
        _ => false,
    }
}

/// Some call reads or changes the process.
pub open spec fn some_touches(calls: Seq<BackendCall>, pid: u32) -> bool {
    exists|i: int| 0 <= i < calls.len() && touches(#[trigger] calls[i], pid)
}

// ---------------------------------------------------------------------------
// Protected processes
// ---------------------------------------------------------------------------
/// The start of a process with a protected name, in any ASCII case, makes the
/// engine do nothing but note the process.
pub proof fn protected_start_is_left_alone(
    v: EngineView,
    pid: u32,
    name: Seq<char>,
    calls: Seq<BackendCall>,
    w: EngineView,
)
    requires
        starts(v, pid, name, calls, w),
        protected_names(v.cfg.protected_extra).contains(fold(name)),
    ensures
        calls.len() == 0,
        w == (EngineView { table: v.table.upserted(pid, name, false), ..v }),
{
    protected_in_any_case(v.cfg, name);
}

proof fn one_touches_target_only(
    c: ConfigView,
    before: Map<u32, ProcState>,
    pid: u32,
    name: Seq<char>,
    calls: Seq<BackendCall>,
    after: Map<u32, ProcState>,
    p: u32,
)
    requires
        boosts_one(c, before, pid, name, calls, after),
        some_touches(calls, p),
    ensures
        p == pid,
        !is_protected(c, name),
{
    let i = choose|i: int| 0 <= i < calls.len() && touches(#[trigger] calls[i], p);
    if i > 0 {
        assert(calls.skip(1)[i - 1] == calls[i]);
    }
}

proof fn all_touch_targets_only(
    c: ConfigView,
    before: Map<u32, ProcState>,
    targets: Seq<(u32, Seq<char>)>,
    calls: Seq<BackendCall>,
    after: Map<u32, ProcState>,
    p: u32,
)
    requires
        boosts_all(c, before, targets, calls, after),
        some_touches(calls, p),
    ensures
        exists|i: int|
            0 <= i < targets.len() && (#[trigger] targets[i]).0 == p && !is_protected(
                c,
                targets[i].1,
            ),
    decreases targets.len(),
{
    let at = choose|i: int| 0 <= i < calls.len() && touches(#[trigger] calls[i], p);
    if targets.len() > 0 {
        let (k, mid) = choose|k: int, mid: Map<u32, ProcState>|
            0 <= k <= calls.len() && boosts_all(
                c,
                before,
                targets.drop_last(),
                calls.take(k),
                mid,
            ) && #[trigger] boosts_one(
                c,
                mid,
                targets.last().0,
                targets.last().1,
                calls.skip(k),
                after,
            );
        if at < k {
            assert(touches(calls.take(k)[at], p));
            all_touch_targets_only(c, before, targets.drop_last(), calls.take(k), mid, p);
            let i = choose|i: int|
                0 <= i < targets.drop_last().len() && (#[trigger] targets.drop_last()[i]).0 == p
                    && !is_protected(c, targets.drop_last()[i].1);
            assert(targets[i] == targets.drop_last()[i]);
        } else {
            assert(touches(calls.skip(k)[at - k], p));
            one_touches_target_only(
                c,
                mid,
                targets.last().0,
                targets.last().1,
                calls.skip(k),
                after,
                p,
            );
            assert(targets[targets.len() - 1].0 == p);
        }
    }
}

proof fn candidate_has_row(
    c: ConfigView,
    rows: Seq<(u32, Seq<char>, bool)>,
    game: u32,
    entry: (u32, Seq<char>),
)
    requires
        candidates(c, rows, game).contains(entry),
    ensures
        entry.0 != game,
        !is_protected(c, entry.1),
        exists|i: int|
            0 <= i < rows.len() && (#[trigger] rows[i]).0 == entry.0 && rows[i].1 == entry.1,
    decreases rows.len(),
{
    let all = candidates(c, rows, game);
    let before = candidates(c, rows.drop_last(), game);
    let at = choose|i: int| 0 <= i < all.len() && all[i] == entry;
    if at < before.len() {
        assert(before[at] == entry);
        candidate_has_row(c, rows.drop_last(), game, entry);
        let i = choose|i: int|
            0 <= i < rows.drop_last().len() && (#[trigger] rows.drop_last()[i]).0 == entry.0
                && rows.drop_last()[i].1 == entry.1;
        assert(rows[i] == rows.drop_last()[i]);
    } else {
        assert(rows[rows.len() - 1].0 == entry.0);
    }
}

proof fn ordered_candidate_is_candidate(list: Seq<(u32, Seq<char>)>, i: int)
    requires
        0 <= i < by_hash(list).len(),
    ensures
        list.contains(by_hash(list)[i]),
{
    broadcast use vstd::seq_lib::group_to_multiset_ensures;

    by_hash_orders(list);
    let e = by_hash(list)[i];
    assert(by_hash(list).contains(e));
    assert(by_hash(list).to_multiset().count(e) > 0);
    assert(list.to_multiset().count(e) > 0);
}

proof fn entry_touches_nothing(c: ConfigView, marker: Seq<char>, r: EntryReplies, pid: u32)
    ensures
        forall|i: int|
            0 <= i < entry_calls(c, marker, r).len() ==> !touches(
                #[trigger] entry_calls(c, marker, r)[i],
                pid,
            ),
{
}

/// Beginning a boost reads or changes no process that is tracked under a
/// protected name, and not the game that began it.
pub proof fn boost_spares_protected(
    v: EngineView,
    game: u32,
    calls: Seq<BackendCall>,
    w: EngineView,
    pid: u32,
)
    requires
        enters(v, game, calls, w),
        pid == game || is_protected(v.cfg, v.table.name_or_empty(pid)),
    ensures
        !some_touches(calls, pid),
{
    if some_touches(calls, pid) {
        let rows = v.table.listing();
        let list = candidates(v.cfg, rows, game);
        let targets = by_hash(list);
        let r = choose|r: EntryReplies| #[trigger] begins(v, game, r, calls, w);
        let n = entry_calls(v.cfg, v.marker, r).len() as int;
        let at = choose|i: int| 0 <= i < calls.len() && touches(#[trigger] calls[i], pid);
        entry_touches_nothing(v.cfg, v.marker, r, pid);
        if at < n {
            assert(calls.take(n)[at] == calls[at]);
        }
        assert(touches(calls.skip(n)[at - n], pid));
        all_touch_targets_only(v.cfg, v.boosted, targets, calls.skip(n), w.boosted, pid);
        let i = choose|i: int|
            0 <= i < targets.len() && (#[trigger] targets[i]).0 == pid && !is_protected(
                v.cfg,
                targets[i].1,
            );
        ordered_candidate_is_candidate(list, i);
        candidate_has_row(v.cfg, rows, game, targets[i]);
        let k = choose|k: int|
            0 <= k < rows.len() && (#[trigger] rows[k]).0 == targets[i].0 && rows[k].1
                == targets[i].1;
        assert(rows[k].1 == v.table.name_or_empty(rows[k].0));
    }
}

/// A new configuration acts on no process that is tracked under a name which it
/// protects; all that may happen to such a process is that it is restored.
pub proof fn reconfiguring_spares_protected(
    v: EngineView,
    cfg: ConfigView,
    calls: Seq<BackendCall>,
    w: EngineView,
    pid: u32,
)
    requires
        reconfigures(v, cfg, calls, w),
        is_protected(cfg, v.table.name_or_empty(pid)),
    ensures
        !some_touches(calls, pid),
{
    let (k, mid) = choose|k: int, mid: EngineView|
        0 <= k <= calls.len() && #[trigger] exits(v, calls.take(k), mid) && reenters(
            (EngineView { cfg, ..mid }),
            calls.skip(k),
            w,
        );
    let fresh = EngineView { cfg, ..mid };
    exit_touches_nothing(v, calls.take(k), mid, pid);
    let games = running_games(cfg, mid.table.listing());
    if fresh.mode != Mode::GameBoost && games.len() > 0 {
        let entered = choose|e: EngineView| #[trigger]
            enters(fresh, games[0], calls.skip(k), e) && w == (EngineView {
                games: with_pids(e.games, games.skip(1)),
                ..e
            });
        boost_spares_protected(fresh, games[0], calls.skip(k), entered, pid);
    }
    if some_touches(calls, pid) {
        let i = choose|i: int| 0 <= i < calls.len() && touches(#[trigger] calls[i], pid);
        if i < k {
            assert(touches(calls.take(k)[i], pid));
        } else {
            assert(touches(calls.skip(k)[i - k], pid));
        }
    }
}

proof fn exit_touches_nothing(v: EngineView, calls: Seq<BackendCall>, w: EngineView, pid: u32)
    requires
        exits(v, calls, w),
    ensures
        !some_touches(calls, pid),
{
    if some_touches(calls, pid) {
        let i = choose|i: int| 0 <= i < calls.len() && touches(#[trigger] calls[i], pid);
        let (done, order) = choose|done: Seq<bool>, order: Seq<u32>| #[trigger]
            ends(v, done, order, calls);
        let n = exit_calls(v.backup, v.marker, done).len() as int;
        let rest = calls.skip(n);
        if i < n {
            assert(calls.take(n)[i] == calls[i]);
        } else {
            assert(rest[i - n] == calls[i]);
            assert(rest[i - n] == restores(v.boosted, order, answers(rest)).push(
                BackendCall::ClearAllQos,
            )[i - n]);
        }
    }
}

// ---------------------------------------------------------------------------
// Boost and restore
// ---------------------------------------------------------------------------
/// Outside game boost nothing is boosted, no game is held, nothing was resumed
/// and no tweak is in force; in a boost some game is held.
pub proof fn normal_mode_holds_nothing<B: ProcessBackend + QosLifecycle>(e: &PolicyEngine<B>)
    requires
        e.wf(),
    ensures
        e@.quiet_when_normal(),
        e@.boost_has_game(),
{
    e.wf_means();
}

/// The call restores the process to what was kept of it.
pub open spec fn restores_pid(v: EngineView, call: BackendCall, pid: u32) -> bool {
    match call {
        BackendCall::Restore { pid: p, state, done: _ } => p == pid && state == v.boosted[pid],
        _ => false,
    }
}

/// Leaving a boost restores every boosted process, and each exactly once; it
/// ends with clearing all caps, and nothing is boosted any more.
pub proof fn exit_restores_each_once(
    v: EngineView,
    calls: Seq<BackendCall>,
    w: EngineView,
    pid: u32,
)
    requires
        exits(v, calls, w),
        v.mode == Mode::GameBoost,
        v.boosted.contains_key(pid),
    ensures
        exists|i: int| 0 <= i < calls.len() && restores_pid(v, #[trigger] calls[i], pid),
        forall|i: int, j: int|
            0 <= i < calls.len() && 0 <= j < calls.len() && restores_pid(
                v,
                #[trigger] calls[i],
                pid,
            ) && restores_pid(v, #[trigger] calls[j], pid) ==> i == j,
        exists|done: Seq<bool>|
            calls.len() == #[trigger] exit_calls(v.backup, v.marker, done).len()
                + v.boosted.dom().len() + 1,
        calls.last() == BackendCall::ClearAllQos,
        w.mode == Mode::Normal,
        w.boosted == Map::<u32, ProcState>::empty(),
{
    let (done, order) = choose|done: Seq<bool>, order: Seq<u32>| #[trigger]
        ends(v, done, order, calls);
    let first = exit_calls(v.backup, v.marker, done);
    let n = first.len() as int;
    let rest = calls.skip(n);
    let body = restores(v.boosted, order, answers(rest));
    assert(order.to_set().contains(pid));
    let k = choose|k: int| 0 <= k < order.len() && order[k] == pid;
    assert(calls[n + k] == rest[k] && rest[k] == body[k]);
    assert(restores_pid(v, calls[n + k], pid));
    assert forall|i: int, j: int|
        0 <= i < calls.len() && 0 <= j < calls.len() && restores_pid(v, #[trigger] calls[i], pid)
            && restores_pid(v, #[trigger] calls[j], pid) implies i == j by {
        assert forall|x: int| 0 <= x < n implies !restores_pid(v, #[trigger] calls[x], pid) by {
            assert(calls.take(n)[x] == calls[x]);
        }
        assert(calls[i] == rest[i - n] && calls[j] == rest[j - n]);
        if i - n < order.len() && j - n < order.len() {
            assert(rest[i - n] == body[i - n] && rest[j - n] == body[j - n]);
            assert(order[i - n] == order[j - n]);
        }
    }
    assert(calls.last() == rest.last());
    order.unique_seq_to_set();
}

/// The actions of a rule never resume a process, and unless its quota is 0,
/// which no valid rule has, they never lift a cap.
pub proof fn rules_only_restrain(b: BackgroundView)
    requires
        b.qos_cpu_quota != Some(0u32),
    ensures
        only_restrains(background_actions(b)),
{
    let actions = background_actions(b);
    assert forall|i: int| 0 <= i < actions.len() implies (#[trigger] actions[i])
        != TargetAction::Resume && actions[i] != (TargetAction::QosCpuQuota { percent: 0 }) by {}
}

/// A process is boosted only under a background rule, and only if its name is
/// not protected.
pub proof fn only_targets_are_boosted(
    c: ConfigView,
    before: Map<u32, ProcState>,
    pid: u32,
    name: Seq<char>,
    calls: Seq<BackendCall>,
    after: Map<u32, ProcState>,
)
    requires
        boosts_one(c, before, pid, name, calls, after),
    ensures
        forall|p: u32| p != pid ==> (#[trigger] after.contains_key(p) <==> before.contains_key(p)),
        !before.contains_key(pid) && after.contains_key(pid) ==> background_index(c, name) is Some
            && !is_protected(c, name),
{
}

// ---------------------------------------------------------------------------
// Games
// ---------------------------------------------------------------------------
/// When any game that holds the boost stops, the boost ends: nothing is boosted
/// and no game is held.
pub proof fn stopping_a_game_ends_the_boost(
    v: EngineView,
    pid: u32,
    calls: Seq<BackendCall>,
    w: EngineView,
)
    requires
        stops(v, pid, calls, w),
        v.games.contains(pid),
        v.quiet_when_normal(),
    ensures
        w.mode == Mode::Normal,
        w.boosted == Map::<u32, ProcState>::empty(),
        w.games.len() == 0,
{
    if v.mode == Mode::Normal {
        assert(v.games.len() == 0);
    }
}

/// A game that starts begins or joins a boost exactly where games are boosted on
/// start; where they are not, its start changes nothing but the table.
pub proof fn starting_a_game(
    v: EngineView,
    pid: u32,
    name: Seq<char>,
    calls: Seq<BackendCall>,
    w: EngineView,
)
    requires
        starts(v, pid, name, calls, w),
        is_game(v.cfg, name),
        !is_protected(v.cfg, name),
    ensures
        v.cfg.game.boost_on_start ==> w.mode == Mode::GameBoost && w.games.contains(pid),
        !v.cfg.game.boost_on_start ==> w == (EngineView {
            table: v.table.upserted(pid, name, false),
            ..v
        }),
{
    let seen = EngineView { table: v.table.upserted(pid, name, false), ..v };
    let n = crate::policy::always_actions(v.cfg, name).len() as int;
    if v.cfg.game.boost_on_start {
        entering_boosts(seen, pid, calls.skip(n), w);
    }
}

proof fn entering_boosts(v: EngineView, game: u32, calls: Seq<BackendCall>, w: EngineView)
    requires
        enters(v, game, calls, w),
    ensures
        w.mode == Mode::GameBoost,
        w.games.contains(game),
        forall|p: u32|
            v.mode == Mode::GameBoost && v.games.contains(p) ==> #[trigger] w.games.contains(p),
{
    if v.mode == Mode::GameBoost {
        with_pid_holds(v.games, game);
    } else {
        assert(w.games[0] == game);
    }
}

proof fn with_pid_holds(pids: Seq<u32>, pid: u32)
    ensures
        with_pid(pids, pid).contains(pid),
        forall|p: u32| pids.contains(p) ==> #[trigger] with_pid(pids, pid).contains(p),
{
    let r = with_pid(pids, pid);
    if !pids.contains(pid) {
        assert(r[pids.len() as int] == pid);
        assert forall|p: u32| pids.contains(p) implies #[trigger] r.contains(p) by {
            let i = choose|i: int| 0 <= i < pids.len() && pids[i] == p;
            assert(r[i] == p);
        }
    }
}

proof fn with_pids_holds(pids: Seq<u32>, more: Seq<u32>)
    ensures
        forall|p: u32|
            pids.contains(p) || more.contains(p) ==> #[trigger] with_pids(pids, more).contains(p),
    decreases more.len(),
{
    if more.len() > 0 {
        let head = with_pids(pids, more.drop_last());
        with_pids_holds(pids, more.drop_last());
        with_pid_holds(head, more.last());
        assert forall|p: u32| pids.contains(p) || more.contains(p) implies #[trigger] with_pids(
            pids,
            more,
        ).contains(p) by {
            if more.contains(p) && p != more.last() {
                let i = choose|i: int| 0 <= i < more.len() && more[i] == p;
                assert(more.drop_last()[i] == p);
            }
            if p != more.last() {
                assert(head.contains(p));
            }
        }
    }
}

/// A new configuration leaves the engine in a boost exactly when one of the
/// tracked processes is a game under it, and then every such process holds the
/// boost, so that the end of any of them ends it.
pub proof fn reconfiguring_follows_running_games(
    v: EngineView,
    cfg: ConfigView,
    calls: Seq<BackendCall>,
    w: EngineView,
)
    requires
        reconfigures(v, cfg, calls, w),
    ensures
        w.cfg == cfg,
        w.table == v.table,
        w.mode == Mode::GameBoost <==> running_games(cfg, v.table.listing()).len() > 0,
        forall|p: u32|
            running_games(cfg, v.table.listing()).contains(p) ==> #[trigger] w.games.contains(p),
{
    let (k, mid) = choose|k: int, mid: EngineView|
        0 <= k <= calls.len() && #[trigger] exits(v, calls.take(k), mid) && reenters(
            (EngineView { cfg, ..mid }),
            calls.skip(k),
            w,
        );
    let fresh = EngineView { cfg, ..mid };
    let games = running_games(cfg, v.table.listing());
    assert(mid.mode == Mode::Normal);
    if games.len() > 0 {
        let entered = choose|e: EngineView| #[trigger]
            enters(fresh, games[0], calls.skip(k), e) && w == (EngineView {
                games: with_pids(e.games, games.skip(1)),
                ..e
            });
        entering_boosts(fresh, games[0], calls.skip(k), entered);
        with_pids_holds(entered.games, games.skip(1));
        assert forall|p: u32| games.contains(p) implies #[trigger] w.games.contains(p) by {
            let i = choose|i: int| 0 <= i < games.len() && games[i] == p;
            if i > 0 {
                assert(games.skip(1)[i - 1] == p);
            }
        }
    }
}

// ---------------------------------------------------------------------------
// Smart suspend
// ---------------------------------------------------------------------------
/// The call applies the action to the process.
pub open spec fn applies(call: BackendCall, pid: u32, action: TargetAction) -> bool {
    match call {
        BackendCall::Apply { pid: p, action: a, done: _ } => p == pid && a == action,
        _ => false,
    }
}

/// Some call applies the action to the process.
pub open spec fn some_applies(calls: Seq<BackendCall>, pid: u32, action: TargetAction) -> bool {
    exists|i: int| 0 <= i < calls.len() && applies(#[trigger] calls[i], pid, action)
}

/// A suspended process that comes to the foreground is resumed, unless it is
/// noted as resumed already; and one that was resumed for being in the
/// foreground is suspended again when another process takes its place.
pub proof fn foreground_is_never_frozen(
    v: EngineView,
    pid: u32,
    calls: Seq<BackendCall>,
    w: EngineView,
)
    requires
        focuses(v, pid, calls, w),
    ensures
        v.is_suspended(pid) && !v.resumed.contains(pid) ==> some_applies(
            calls,
            pid,
            TargetAction::Resume,
        ),
        v.foreground is Some && v.foreground->0 != pid && v.resumed.contains(v.foreground->0)
            && v.is_suspended(v.foreground->0) ==> some_applies(
            calls,
            v.foreground->0,
            TargetAction::Suspend,
        ),
        w.mode == Mode::GameBoost && v.mode == Mode::GameBoost && v.is_suspended(pid)
            ==> w.resumed.contains(pid),
{
    let (leave, without) = leaves_foreground(v, pid);
    let (come, with) = comes_to_foreground(v, without, pid);
    let a = leave.len() as int;
    let b = a + come.len();
    if v.is_suspended(pid) && !v.resumed.contains(pid) {
        assert(come[0] == TargetAction::Resume);
        assert(calls.subrange(a, b)[0] == calls[a]);
        assert(applies(calls[a], pid, TargetAction::Resume));
    }
    if v.foreground is Some && v.foreground->0 != pid && v.resumed.contains(v.foreground->0)
        && v.is_suspended(v.foreground->0) {
        assert(leave[0] == TargetAction::Suspend);
        assert(calls.take(a)[0] == calls[0]);
        assert(applies(calls[0], v.foreground->0, TargetAction::Suspend));
    }
}

/// A game that comes to the foreground is boosted, however games are boosted
/// otherwise. Where they are boosted by the foreground alone, a process that
/// neither is a game nor holds the boost ends it.
pub proof fn foreground_rules_the_boost(
    v: EngineView,
    pid: u32,
    calls: Seq<BackendCall>,
    w: EngineView,
)
    requires
        focuses(v, pid, calls, w),
    ensures
        is_game(v.cfg, v.table.name_or_empty(pid)) ==> w.mode == Mode::GameBoost,
        !v.cfg.game.boost_on_start && !is_game(v.cfg, v.table.name_or_empty(pid))
            && !v.games.contains(pid) ==> w.mode == Mode::Normal,
        v.cfg.game.boost_on_start && v.mode == Mode::GameBoost ==> w.mode == Mode::GameBoost
            && w.boosted == v.boosted,
{
    let (leave, without) = leaves_foreground(v, pid);
    let (come, with) = comes_to_foreground(v, without, pid);
    let b = leave.len() as int + come.len();
    let seen = EngineView { resumed: with, foreground: Some(pid), ..v };
    if is_game(v.cfg, v.table.name_or_empty(pid)) && v.mode != Mode::GameBoost {
        entering_boosts(seen, pid, calls.skip(b), w);
    }
}

// ---------------------------------------------------------------------------
// The system as a whole
// ---------------------------------------------------------------------------
/// A call that is about the system as a whole: the network, the marker of its
/// backup or the standby memory.
pub open spec fn is_system_call(call: BackendCall) -> bool {
    match call {
        BackendCall::ApplyNetwork { nagle: _, netbios: _, made: _ } => true,
        BackendCall::RevertNetwork { backup: _, worked: _ } => true,
        BackendCall::PurgeStandby { done: _ } => true,
        BackendCall::ReadMarker { path: _, file: _ } => true,
        BackendCall::WriteMarker { path: _, bytes: _, done: _ } => true,
        BackendCall::RemoveMarker { path: _ } => true,
        _ => false,
    }
}

/// No call about the system comes after a call about a process.
pub open spec fn system_first(calls: Seq<BackendCall>) -> bool {
    forall|i: int, j: int|
        0 <= i < j < calls.len() && is_system_call(#[trigger] calls[j]) ==> is_system_call(
            #[trigger] calls[i],
        )
}

/// No call is about the system as a whole.
pub open spec fn no_system_call(calls: Seq<BackendCall>) -> bool {
    forall|i: int| 0 <= i < calls.len() ==> !is_system_call(#[trigger] calls[i])
}

proof fn lead_is_first(calls: Seq<BackendCall>, n: int)
    requires
        0 <= n <= calls.len(),
        forall|i: int| 0 <= i < n ==> is_system_call(#[trigger] calls.take(n)[i]),
        no_system_call(calls.skip(n)),
    ensures
        system_first(calls),
{
    assert forall|i: int, j: int|
        0 <= i < j < calls.len() && is_system_call(#[trigger] calls[j]) implies is_system_call(
        #[trigger] calls[i],
    ) by {
        if j >= n {
            assert(calls.skip(n)[j - n] == calls[j]);
        }
        assert(calls.take(n)[i] == calls[i]);
    }
}

proof fn boosting_makes_no_system_call(
    c: ConfigView,
    before: Map<u32, ProcState>,
    targets: Seq<(u32, Seq<char>)>,
    calls: Seq<BackendCall>,
    after: Map<u32, ProcState>,
)
    requires
        boosts_all(c, before, targets, calls, after),
    ensures
        no_system_call(calls),
    decreases targets.len(),
{
    if targets.len() > 0 {
        let (k, mid) = choose|k: int, mid: Map<u32, ProcState>|
            0 <= k <= calls.len() && boosts_all(
                c,
                before,
                targets.drop_last(),
                calls.take(k),
                mid,
            ) && #[trigger] boosts_one(
                c,
                mid,
                targets.last().0,
                targets.last().1,
                calls.skip(k),
                after,
            );
        boosting_makes_no_system_call(c, before, targets.drop_last(), calls.take(k), mid);
        let last = calls.skip(k);
        assert forall|i: int| 0 <= i < calls.len() implies !is_system_call(
            #[trigger] calls[i],
        ) by {
            if i < k {
                assert(calls.take(k)[i] == calls[i]);
            } else {
                assert(last[i - k] == calls[i]);
                if i > k {
                    assert(last.skip(1)[i - k - 1] == last[i - k]);
                }
            }
        }
    }
}

/// When a boost begins, the network tweaks and the purge of the standby memory
/// come before the first process is acted on.
pub proof fn entering_readies_the_system_first(
    v: EngineView,
    game: u32,
    calls: Seq<BackendCall>,
    w: EngineView,
)
    requires
        enters(v, game, calls, w),
    ensures
        system_first(calls),
{
    if v.mode != Mode::GameBoost {
        let r = choose|r: EntryReplies| #[trigger] begins(v, game, r, calls, w);
        let n = entry_calls(v.cfg, v.marker, r).len() as int;
        boosting_makes_no_system_call(
            v.cfg,
            v.boosted,
            by_hash(candidates(v.cfg, v.table.listing(), game)),
            calls.skip(n),
            w.boosted,
        );
        lead_is_first(calls, n);
    }
}

/// When a boost ends, the network tweaks are taken back before the first process
/// is restored. What is put back is the backup that was kept when the boost began,
/// and the marker is deleted exactly when that worked for every entry.
pub proof fn leaving_takes_tweaks_back_first(v: EngineView, calls: Seq<BackendCall>, w: EngineView)
    requires
        exits(v, calls, w),
        v.mode == Mode::GameBoost,
    ensures
        system_first(calls),
        w.backup is None,
        v.backup is None ==> no_system_call(calls),
        v.backup is Some ==> exists|done: Seq<bool>|
            calls[0] == (#[trigger] reverts(v.backup->0, done)) && (calls.contains(
                BackendCall::RemoveMarker { path: v.marker },
            ) <==> done.len() == v.backup->0.len() && all_done(done, v.backup->0.len())),
{
    let (done, order) = choose|done: Seq<bool>, order: Seq<u32>| #[trigger]
        ends(v, done, order, calls);
    let first = exit_calls(v.backup, v.marker, done);
    let n = first.len() as int;
    let rest = calls.skip(n);
    let body = restores(v.boosted, order, answers(rest)).push(BackendCall::ClearAllQos);
    assert forall|i: int| 0 <= i < rest.len() implies !is_system_call(#[trigger] rest[i]) by {
        assert(rest[i] == body[i]);
    }
    lead_is_first(calls, n);
    if v.backup is Some {
        assert(calls.take(n)[0] == calls[0]);
        let removal = BackendCall::RemoveMarker { path: v.marker };
        assert(calls[0] == reverts(v.backup->0, done));
        if done.len() == v.backup->0.len() && all_done(done, v.backup->0.len()) {
            assert(calls.take(n)[1] == calls[1]);
            assert(calls[1] == removal);
        } else if calls.contains(removal) {
            let i = choose|i: int| 0 <= i < calls.len() && calls[i] == removal;
            if i >= n {
                assert(rest[i - n] == calls[i]);
            }
        }
    } else {
        assert(calls =~= rest);
    }
}

/// The call that puts a backup back.
pub open spec fn reverts(backup: Seq<EntryView>, done: Seq<bool>) -> BackendCall {
    BackendCall::RevertNetwork { backup, worked: done }
}

} // verus!
