//! Whatever happens during a boost, each boosted process can be taken back, and
//! is taken back when the boost ends.

use vstd::prelude::*;

use crate::actions::{
    after_action, after_all, after_all_push, noted_all, priority_flag, priority_of_flag,
    restore_actions, snapshot_of, BackendCall, ProcModel, ProcState, TargetAction,
};
use crate::config::{ConfigView, PriorityClass};
use crate::laws::rules_only_restrain;
use crate::policy::{
    always_actions, answers, attempts, background_actions, background_index, boosts_one,
    comes_to_foreground, ends, exit_calls, exits, focuses, is_target, leaves_foreground, restores,
    starts, stops, EngineView, Mode,
};

verus! {

/// What a call does to a process with the given pid; a call that failed, or that
/// is about another process, does nothing.
pub open spec fn felt(m: ProcModel, call: BackendCall, pid: u32) -> ProcModel {
    match call {
        BackendCall::Apply { pid: p, action, done } => if p == pid && done {
            after_action(m, action)
        } else {
            m
        },
        BackendCall::Restore { pid: p, state, done } => if p == pid && done {
            after_all(m, restore_actions(state))
        } else {
            m
        },
        _ => m,
    }
}

/// What a list of calls does to a process.
pub open spec fn felt_all(m: ProcModel, calls: Seq<BackendCall>, pid: u32) -> ProcModel
    decreases calls.len(),
{
    if calls.len() == 0 {
        m
    } else {
        felt(felt_all(m, calls.drop_last(), pid), calls.last(), pid)
    }
}

/// A process that runs freely, in one of the six priority classes.
pub open spec fn runs_freely(m: ProcModel) -> bool {
    &&& !m.suspended
    &&& m.quota is None
    &&& exists|p: PriorityClass| m.priority == priority_flag(p)
}

/// Restoring the kept state takes the process to where it was: to `m`.
pub open spec fn restorable(now: ProcModel, kept: ProcState, m: ProcModel) -> bool {
    after_all(now, restore_actions(kept)) == m
}

/// When restoring works: the kept priority and affinity are those from before,
/// and a suspension or a cap that is in force was kept note of.
proof fn restorable_means(now: ProcModel, kept: ProcState, m: ProcModel)
    requires
        runs_freely(m),
        kept.priority == m.priority,
        kept.affinity == m.affinity,
    ensures
        restorable(now, kept, m) <==> (now.suspended ==> kept.suspended) && (now.quota is Some
            ==> kept.qos_percent is Some),
{
    let e = Seq::<TargetAction>::empty();
    let a1 = if kept.suspended {
        e.push(TargetAction::Resume)
    } else {
        e
    };
    let a2 = if kept.qos_percent is Some {
        a1.push(TargetAction::QosCpuQuota { percent: 0 })
    } else {
        a1
    };
    let a3 = a2.push(TargetAction::Priority(priority_of_flag(kept.priority)));
    let a4 = a3.push(TargetAction::Affinity { core_mask: kept.affinity });
    assert(restore_actions(kept) =~= a4);
    assert(after_all(now, e) == now);
    after_all_push(now, e, TargetAction::Resume);
    after_all_push(now, a1, TargetAction::QosCpuQuota { percent: 0 });
    after_all_push(now, a2, TargetAction::Priority(priority_of_flag(kept.priority)));
    after_all_push(now, a3, TargetAction::Affinity { core_mask: kept.affinity });
}

/// A call that leaves a restorable process restorable: it is about another
/// process, or what it does to this one is covered by what was kept.
pub open spec fn covered(call: BackendCall, pid: u32, kept: ProcState) -> bool {
    match call {
        BackendCall::Apply { pid: p, action, done: _ } => p == pid ==> match action {
            TargetAction::Suspend => kept.suspended,
            TargetAction::QosCpuQuota { percent } => percent == 0 || kept.qos_percent is Some,
            _ => true,
        },
        BackendCall::Restore { pid: p, state: _, done: _ } => p != pid,
        _ => true,
    }
}

/// Every call leaves a restorable process restorable.
pub open spec fn all_covered(calls: Seq<BackendCall>, pid: u32, kept: ProcState) -> bool {
    forall|i: int| 0 <= i < calls.len() ==> covered(#[trigger] calls[i], pid, kept)
}

/// The kept state is one that a process which runs freely is restored from.
pub open spec fn kept_of(kept: ProcState, m: ProcModel) -> bool {
    runs_freely(m) && kept.priority == m.priority && kept.affinity == m.affinity
}

/// Calls that are covered leave a restorable process restorable.
pub proof fn covered_calls_keep_restorable(
    now: ProcModel,
    calls: Seq<BackendCall>,
    pid: u32,
    kept: ProcState,
    m: ProcModel,
)
    requires
        kept_of(kept, m),
        restorable(now, kept, m),
        all_covered(calls, pid, kept),
    ensures
        restorable(felt_all(now, calls, pid), kept, m),
    decreases calls.len(),
{
    if calls.len() > 0 {
        let head = calls.drop_last();
        assert(all_covered(head, pid, kept)) by {
            assert forall|i: int| 0 <= i < head.len() implies covered(
                #[trigger] head[i],
                pid,
                kept,
            ) by {
                assert(head[i] == calls[i]);
            }
        }
        covered_calls_keep_restorable(now, head, pid, kept, m);
        let before = felt_all(now, head, pid);
        assert(covered(calls[calls.len() - 1], pid, kept));
        restorable_means(before, kept, m);
        restorable_means(felt(before, calls.last(), pid), kept, m);
    }
}

proof fn felt_joins(m: ProcModel, a: Seq<BackendCall>, b: Seq<BackendCall>, pid: u32)
    ensures
        felt_all(m, a + b, pid) == felt_all(felt_all(m, a, pid), b, pid),
    decreases b.len(),
{
    if b.len() == 0 {
        assert(a + b =~= a);
    } else {
        felt_joins(m, a, b.drop_last(), pid);
        assert((a + b).drop_last() =~= a + b.drop_last());
        assert((a + b).last() == b.last());
    }
}

// ---------------------------------------------------------------------------
// Being boosted
// ---------------------------------------------------------------------------
proof fn attempts_felt(
    m: ProcModel,
    pid: u32,
    actions: Seq<TargetAction>,
    done: Seq<bool>,
    kept: ProcState,
)
    requires
        done.len() == actions.len(),
        runs_freely(m),
        crate::actions::only_restrains(actions),
        kept == noted_all(snapshot_of(m), actions, done),
    ensures
        kept_of(kept, m),
        restorable(felt_all(m, attempts(pid, actions, done), pid), kept, m),
    decreases actions.len(),
{
    let calls = attempts(pid, actions, done);
    if actions.len() == 0 {
        restorable_means(m, kept, m);
    } else {
        let ha = actions.drop_last();
        let hd = done.drop_last();
        assert(crate::actions::only_restrains(ha)) by {
            assert forall|i: int| 0 <= i < ha.len() implies (#[trigger] ha[i])
                != TargetAction::Resume && ha[i] != (TargetAction::QosCpuQuota { percent: 0 }) by {
                assert(ha[i] == actions[i]);
            }
        }
        let hk = noted_all(snapshot_of(m), ha, hd);
        attempts_felt(m, pid, ha, hd, hk);
        assert(calls.drop_last() =~= attempts(pid, ha, hd));
        let before = felt_all(m, attempts(pid, ha, hd), pid);
        let after = felt(before, calls.last(), pid);
        assert(calls.last() == (BackendCall::Apply {
            pid,
            action: actions.last(),
            done: done.last(),
        }));
        assert(actions.last() == actions[actions.len() - 1]);
        restorable_means(before, hk, m);
        restorable_means(after, kept, m);
    }
}

/// A process that ran freely and is met in a boost can be taken back to where it
/// was, whichever actions of its rule succeeded.
pub proof fn boosted_is_restorable(
    c: ConfigView,
    before: Map<u32, ProcState>,
    pid: u32,
    name: Seq<char>,
    calls: Seq<BackendCall>,
    after: Map<u32, ProcState>,
    m: ProcModel,
)
    requires
        boosts_one(c, before, pid, name, calls, after),
        is_target(c, before, pid, name),
        calls[0] == (BackendCall::Snapshot { pid, reply: Some(snapshot_of(m)) }),
        c.background[background_index(c, name)->0].qos_cpu_quota != Some(0u32),
        runs_freely(m),
    ensures
        after.contains_key(pid),
        kept_of(after[pid], m),
        restorable(felt_all(m, calls, pid), after[pid], m),
{
    let b = c.background[background_index(c, name)->0];
    let actions = background_actions(b);
    let done = answers(calls.skip(1));
    rules_only_restrain(b);
    assert(calls.skip(1).len() == attempts(pid, actions, done).len());
    attempts_felt(m, pid, actions, done, after[pid]);
    let first = seq![calls[0]];
    assert(calls =~= first + calls.skip(1));
    felt_joins(m, first, calls.skip(1), pid);
    assert(first.drop_last() =~= Seq::<BackendCall>::empty());
    assert(felt_all(m, first.drop_last(), pid) == m);
    assert(felt_all(m, first, pid) == m);
}

// ---------------------------------------------------------------------------
// While boosted
// ---------------------------------------------------------------------------
/// Every restore of the process was answered with success.
pub open spec fn restores_succeeded(calls: Seq<BackendCall>, pid: u32) -> bool {
    forall|i: int|
        0 <= i < calls.len() ==> match #[trigger] calls[i] {
            BackendCall::Restore { pid: p, state: _, done } => p == pid ==> done,
            _ => true,
        }
}

/// A boosted process after an event: it is still boosted, with the same state
/// kept of it, and can still be taken back; or it is not, and then it is where
/// it was before the boost, unless a call to restore it failed.
pub open spec fn held_or_restored(
    v: EngineView,
    now: ProcModel,
    calls: Seq<BackendCall>,
    w: EngineView,
    pid: u32,
    m: ProcModel,
) -> bool {
    if w.boosted.contains_key(pid) {
        &&& w.boosted[pid] == v.boosted[pid]
        &&& restorable(felt_all(now, calls, pid), w.boosted[pid], m)
    } else {
        restores_succeeded(calls, pid) ==> felt_all(now, calls, pid) == m
    }
}

proof fn untouched(now: ProcModel, calls: Seq<BackendCall>, pid: u32)
    requires
        forall|i: int|
            0 <= i < calls.len() ==> match #[trigger] calls[i] {
                BackendCall::Apply { pid: p, action: _, done: _ } => p != pid,
                BackendCall::Restore { pid: p, state: _, done: _ } => p != pid,
                _ => true,
            },
    ensures
        felt_all(now, calls, pid) == now,
    decreases calls.len(),
{
    if calls.len() > 0 {
        let head = calls.drop_last();
        assert forall|i: int| 0 <= i < head.len() implies match #[trigger] head[i] {
            BackendCall::Apply { pid: p, action: _, done: _ } => p != pid,
            BackendCall::Restore { pid: p, state: _, done: _ } => p != pid,
            _ => true,
        } by {
            assert(head[i] == calls[i]);
        }
        untouched(now, head, pid);
        assert(calls[calls.len() - 1] == calls.last());
    }
}

proof fn exit_holds_or_restores(
    v: EngineView,
    now: ProcModel,
    calls: Seq<BackendCall>,
    w: EngineView,
    pid: u32,
    m: ProcModel,
)
    requires
        exits(v, calls, w),
        v.boosted.contains_key(pid),
        restorable(now, v.boosted[pid], m),
    ensures
        held_or_restored(v, now, calls, w, pid, m),
{
    if v.mode == Mode::GameBoost {
        let (done, order) = choose|done: Seq<bool>, order: Seq<u32>| #[trigger]
            ends(v, done, order, calls);
        let n = exit_calls(v.backup, v.marker, done).len() as int;
        let rest = calls.skip(n);
        let body = restores(v.boosted, order, answers(rest));
        assert(order.to_set().contains(pid));
        let k = choose|k: int| 0 <= k < order.len() && order[k] == pid;
        assert(calls[n + k] == rest[k] && rest[k] == body[k]);
        let a = calls.take(n + k);
        let b = seq![calls[n + k]];
        let c = calls.skip(n + k + 1);
        assert(calls =~= a + (b + c));
        felt_joins(now, a, b + c, pid);
        felt_joins(felt_all(now, a, pid), b, c, pid);
        assert forall|i: int| 0 <= i < a.len() implies match #[trigger] a[i] {
            BackendCall::Apply { pid: p, action: _, done: _ } => p != pid,
            BackendCall::Restore { pid: p, state: _, done: _ } => p != pid,
            _ => true,
        } by {
            if i < n {
                assert(a[i] == calls.take(n)[i]);
            } else {
                assert(a[i] == rest[i - n] && rest[i - n] == body[i - n]);
                assert(order[i - n] != order[k]);
            }
        }
        untouched(now, a, pid);
        assert(b.drop_last() =~= Seq::<BackendCall>::empty());
        assert(felt_all(now, b.drop_last(), pid) == now);
        let mid = felt_all(now, b, pid);
        assert forall|i: int| 0 <= i < c.len() implies match #[trigger] c[i] {
            BackendCall::Apply { pid: p, action: _, done: _ } => p != pid,
            BackendCall::Restore { pid: p, state: _, done: _ } => p != pid,
            _ => true,
        } by {
            assert(c[i] == rest[k + 1 + i]);
            if k + 1 + i < order.len() {
                assert(rest[k + 1 + i] == body[k + 1 + i]);
                assert(order[k + 1 + i] != order[k]);
            }
        }
        untouched(mid, c, pid);
        if restores_succeeded(calls, pid) {
            assert(match calls[n + k] {
                BackendCall::Restore { pid: p, state: _, done } => done,
                _ => true,
            });
        }
    } else {
        assert(calls =~= Seq::<BackendCall>::empty());
    }
}

proof fn attempts_covered(
    pid: u32,
    actions: Seq<TargetAction>,
    done: Seq<bool>,
    of: u32,
    kept: ProcState,
)
    requires
        of == pid ==> forall|i: int|
            0 <= i < actions.len() ==> match #[trigger] actions[i] {
                TargetAction::Suspend => kept.suspended,
                TargetAction::QosCpuQuota { percent } => percent == 0 || kept.qos_percent is Some,
                _ => true,
            },
    ensures
        all_covered(attempts(pid, actions, done), of, kept),
{
    let calls = attempts(pid, actions, done);
    assert forall|i: int| 0 <= i < calls.len() implies covered(#[trigger] calls[i], of, kept) by {
        if of == pid {
            let a = actions[i];
        }
    }
}

proof fn covered_joins(a: Seq<BackendCall>, b: Seq<BackendCall>, pid: u32, kept: ProcState)
    requires
        all_covered(a, pid, kept),
        all_covered(b, pid, kept),
    ensures
        all_covered(a + b, pid, kept),
{
    assert forall|i: int| 0 <= i < (a + b).len() implies covered(
        #[trigger] (a + b)[i],
        pid,
        kept,
    ) by {
        if i < a.len() {
            assert((a + b)[i] == a[i]);
        } else {
            assert((a + b)[i] == b[i - a.len()]);
        }
    }
}

/// The foreground changes: a boosted process stays restorable, or is restored
/// because the boost ends.
pub proof fn focus_holds_or_restores(
    v: EngineView,
    focus: u32,
    now: ProcModel,
    calls: Seq<BackendCall>,
    w: EngineView,
    pid: u32,
    m: ProcModel,
)
    requires
        focuses(v, focus, calls, w),
        v.quiet_when_normal(),
        v.boosted.contains_key(pid),
        kept_of(v.boosted[pid], m),
        restorable(now, v.boosted[pid], m),
    ensures
        held_or_restored(v, now, calls, w, pid, m),
{
    let kept = v.boosted[pid];
    let (leave, without) = leaves_foreground(v, focus);
    let (come, with) = comes_to_foreground(v, without, focus);
    let a = leave.len() as int;
    let b = a + come.len();
    let seen = EngineView { resumed: with, foreground: Some(focus), ..v };
    let first = calls.take(a);
    let second = calls.subrange(a, b);
    let rest = calls.skip(b);
    assert(calls =~= (first + second) + rest);
    attempts_covered(v.foreground->0, leave, answers(first), pid, kept);
    attempts_covered(focus, come, answers(second), pid, kept);
    covered_joins(first, second, pid, kept);
    covered_calls_keep_restorable(now, first + second, pid, kept, m);
    felt_joins(now, first + second, rest, pid);
    let mid = felt_all(now, first + second, pid);
    let name = v.table.name_or_empty(focus);
    assert(v.mode == Mode::GameBoost);
    if !v.cfg.game.boost_on_start && !crate::policy::is_game(v.cfg, name) && !v.games.contains(
        focus,
    ) {
        exit_holds_or_restores(seen, mid, rest, w, pid, m);
        if restores_succeeded(calls, pid) {
            assert(restores_succeeded(rest, pid)) by {
                assert forall|i: int| 0 <= i < rest.len() implies match #[trigger] rest[i] {
                    BackendCall::Restore { pid: p, state: _, done } => p == pid ==> done,
                    _ => true,
                } by {
                    assert(rest[i] == calls[b + i]);
                }
            }
        }
    } else {
        assert(rest =~= Seq::<BackendCall>::empty());
    }
}

proof fn always_is_covered(c: ConfigView, name: Seq<char>, kept: ProcState)
    ensures
        forall|i: int|
            0 <= i < always_actions(c, name).len() ==> match #[trigger] always_actions(c, name)[i] {
                TargetAction::Suspend => kept.suspended,
                TargetAction::QosCpuQuota { percent } => percent == 0 || kept.qos_percent is Some,
                _ => true,
            },
{
}

/// A process starts: a boosted process stays restorable.
pub proof fn start_holds(
    v: EngineView,
    started: u32,
    name: Seq<char>,
    now: ProcModel,
    calls: Seq<BackendCall>,
    w: EngineView,
    pid: u32,
    m: ProcModel,
)
    requires
        starts(v, started, name, calls, w),
        v.quiet_when_normal(),
        v.boosted.contains_key(pid),
        kept_of(v.boosted[pid], m),
        restorable(now, v.boosted[pid], m),
    ensures
        w.boosted.contains_key(pid),
        held_or_restored(v, now, calls, w, pid, m),
{
    let kept = v.boosted[pid];
    assert(v.mode == Mode::GameBoost);
    if crate::policy::is_protected(v.cfg, name) {
        assert(calls =~= Seq::<BackendCall>::empty());
    } else {
        let always = always_actions(v.cfg, name);
        let n = always.len() as int;
        let first = calls.take(n);
        let rest = calls.skip(n);
        assert(calls =~= first + rest);
        always_is_covered(v.cfg, name, kept);
        attempts_covered(started, always, answers(first), pid, kept);
        assert(all_covered(rest, pid, kept)) by {
            if is_target(v.cfg, v.boosted, started, name) && !crate::policy::is_game(v.cfg, name)
                && !v.games.contains(started) {
                assert(started != pid);
                assert forall|i: int| 0 <= i < rest.len() implies covered(
                    #[trigger] rest[i],
                    pid,
                    kept,
                ) by {
                    if i > 0 {
                        assert(rest.skip(1)[i - 1] == rest[i]);
                    }
                }
            }
        }
        covered_joins(first, rest, pid, kept);
        covered_calls_keep_restorable(now, calls, pid, kept, m);
    }
}

/// A process stops: another process that is boosted stays restorable, or is
/// restored because the boost ends; and the one that stopped, if it was boosted,
/// is restored.
pub proof fn stop_holds_or_restores(
    v: EngineView,
    stopped: u32,
    now: ProcModel,
    calls: Seq<BackendCall>,
    w: EngineView,
    pid: u32,
    m: ProcModel,
)
    requires
        stops(v, stopped, calls, w),
        v.quiet_when_normal(),
        v.boosted.contains_key(pid),
        kept_of(v.boosted[pid], m),
        restorable(now, v.boosted[pid], m),
    ensures
        held_or_restored(v, now, calls, w, pid, m),
{
    let seen = EngineView { table: v.table.removed(stopped), ..v };
    let body = calls.drop_last();
    let last = seq![calls.last()];
    assert(calls =~= body + last);
    felt_joins(now, body, last, pid);
    untouched(felt_all(now, body, pid), last, pid);
    if restores_succeeded(calls, pid) {
        assert(restores_succeeded(body, pid)) by {
            assert forall|i: int| 0 <= i < body.len() implies match #[trigger] body[i] {
                BackendCall::Restore { pid: p, state: _, done } => p == pid ==> done,
                _ => true,
            } by {
                assert(body[i] == calls[i]);
            }
        }
    }
    if v.games.contains(stopped) {
        exit_holds_or_restores(seen, now, body, w, pid, m);
    } else if v.boosted.contains_key(stopped) {
        assert(body == restores(v.boosted, seq![stopped], answers(body)));
        assert(body.len() == 1);
        assert(body.drop_last() =~= Seq::<BackendCall>::empty());
        assert(felt_all(now, body.drop_last(), pid) == now);
        assert(body.last() == body[0]);
        if stopped == pid {
            if restores_succeeded(calls, pid) {
                assert(body[0] == calls[0]);
            }
        }
    } else {
        assert(body =~= Seq::<BackendCall>::empty());
    }
}

/// When a boost ends, a boosted process for which the call to restore it succeeds
/// is where it was before the boost.
pub proof fn exit_restores(
    v: EngineView,
    now: ProcModel,
    calls: Seq<BackendCall>,
    w: EngineView,
    pid: u32,
    m: ProcModel,
)
    requires
        exits(v, calls, w),
        v.mode == Mode::GameBoost,
        v.boosted.contains_key(pid),
        restorable(now, v.boosted[pid], m),
        restores_succeeded(calls, pid),
    ensures
        felt_all(now, calls, pid) == m,
{
    exit_holds_or_restores(v, now, calls, w, pid, m);
}

} // verus!
