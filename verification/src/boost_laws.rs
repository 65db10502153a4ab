//! What a boost does to the processes that run when it begins, and when one begins
//! and ends.

use vstd::prelude::*;

use crate::actions::{BackendCall, ProcState, TargetAction};
use crate::config::{BackgroundView, ConfigView};
use crate::laws::restores_pid;
use crate::network::{as_triples, marker_layout};
use crate::policy::{
    answers, background_index, background_names, begins, boosts_all, boosts_one, by_hash,
    by_hash_orders, candidates, ends, enters, entry_calls, exit_calls, exits, focuses, is_game,
    is_protected, masks_fit, reconfigures, reenters, restores, running_games, starts, stops, with_pid,
    with_pids, EngineView, EntryReplies, Mode,
};
use crate::rule_laws::{
    first_named, first_named_means, games_are_named, met_means, named_in, rule_run,
};

verus! {

// ---------------------------------------------------------------------------
// Running processes
// ---------------------------------------------------------------------------
/// A process is boosted under a rule: some calls in a row read it and did to it what
/// the rule asks for, and what they found is kept of it. Or it could not be read.
pub open spec fn boosted_under(
    b: BackgroundView,
    pid: u32,
    calls: Seq<BackendCall>,
    after: Map<u32, ProcState>,
) -> bool {
    if after.contains_key(pid) {
        exists|x: int, y: int|
            0 <= x <= y <= calls.len() && rule_run(
                b,
                pid,
                #[trigger] calls.subrange(x, y),
                after[pid],
            )
    } else {
        calls.contains(BackendCall::Snapshot { pid, reply: None })
    }
}

/// Entries with the same pid have the same name.
spec fn one_name_each(targets: Seq<(u32, Seq<char>)>) -> bool {
    forall|i: int, j: int|
        0 <= i < targets.len() && 0 <= j < targets.len() && (#[trigger] targets[i]).0 == (
        #[trigger] targets[j]).0 ==> targets[i].1 == targets[j].1
}

proof fn one_keeps(
    c: ConfigView,
    before: Map<u32, ProcState>,
    pid: u32,
    name: Seq<char>,
    calls: Seq<BackendCall>,
    after: Map<u32, ProcState>,
)
    requires
        boosts_one(c, before, pid, name, calls, after),
    ensures
        forall|p: u32| #[trigger]
            before.contains_key(p) ==> after.contains_key(p) && after[p] == before[p],
        forall|p: u32| #[trigger]
            after.contains_key(p) && !before.contains_key(p) ==> p == pid && !is_protected(c, name)
                && background_index(c, name) is Some,
{
}

proof fn part_of_part(calls: Seq<BackendCall>, k: int, x: int, y: int)
    requires
        0 <= k <= calls.len(),
    ensures
        0 <= x <= y <= k ==> calls.take(k).subrange(x, y) == calls.subrange(x, y),
        calls.skip(k) == calls.subrange(k, calls.len() as int),
{
    if 0 <= x <= y <= k {
        assert(calls.take(k).subrange(x, y) =~= calls.subrange(x, y));
    }
    assert(calls.skip(k) =~= calls.subrange(k, calls.len() as int));
}

#[verifier::rlimit(40)]
proof fn all_are_boosted(
    c: ConfigView,
    before: Map<u32, ProcState>,
    targets: Seq<(u32, Seq<char>)>,
    calls: Seq<BackendCall>,
    after: Map<u32, ProcState>,
    at: int,
    i: int,
)
    requires
        boosts_all(c, before, targets, calls, after),
        masks_fit(c),
        one_name_each(targets),
        0 <= at < targets.len(),
        !before.contains_key(targets[at].0),
        !is_protected(c, targets[at].1),
        first_named(c.background.map_values(|b: BackgroundView| b.name), targets[at].1, i),
    ensures
        boosted_under(c.background[i], targets[at].0, calls, after),
    decreases targets.len(),
{
    let head = targets.drop_last();
    let last = targets.last();
    let (pid, name) = targets[at];
    let (k, mid) = choose|k: int, mid: Map<u32, ProcState>|
        0 <= k <= calls.len() && boosts_all(
            c,
            before,
            targets.drop_last(),
            calls.take(k),
            mid,
        ) && #[trigger] boosts_one(
            c,
            mid,
            targets.last().0,
            targets.last().1,
            calls.skip(k),
            after,
        );
    let b = c.background[i];
    assert(one_name_each(head)) by {
        assert forall|x: int, y: int|
            0 <= x < head.len() && 0 <= y < head.len() && (#[trigger] head[x]).0 == (
            #[trigger] head[y]).0 implies head[x].1 == head[y].1 by {
            assert(targets[x] == head[x] && targets[y] == head[y]);
        }
    }
    one_keeps(c, mid, last.0, last.1, calls.skip(k), after);
    part_of_part(calls, k, 0, 0);
    if mid.contains_key(pid) {
        // Boosted before the last one was met.
        let e = first_entry(c, before, head, calls.take(k), mid, pid);
        assert(targets[e] == head[e]);
        all_are_boosted(c, before, head, calls.take(k), mid, e, i);
        let (x, y) = choose|x: int, y: int|
            0 <= x <= y <= calls.take(k).len() && rule_run(
                b,
                pid,
                #[trigger] calls.take(k).subrange(x, y),
                mid[pid],
            );
        part_of_part(calls, k, x, y);
        assert(rule_run(b, pid, calls.subrange(x, y), after[pid]));
    } else if last.0 == pid {
        assert(targets[targets.len() - 1].1 == name);
        met_means(c, mid, pid, name, calls.skip(k), after, i);
        if after.contains_key(pid) {
            assert(rule_run(b, pid, calls.subrange(k, calls.len() as int), after[pid]));
        } else {
            assert(calls.skip(k)[0] == calls[k]);
        }
    } else {
        assert(head[at] == targets[at]);
        all_are_boosted(c, before, head, calls.take(k), mid, at, i);
        let unread = BackendCall::Snapshot { pid, reply: None };
        let j = choose|j: int| 0 <= j < calls.take(k).len() && calls.take(k)[j] == unread;
        assert(calls[j] == unread);
    }
}

/// A process that was boosted on the way is one of those that were met, under an
/// unprotected name that a rule is about.
proof fn first_entry(
    c: ConfigView,
    before: Map<u32, ProcState>,
    targets: Seq<(u32, Seq<char>)>,
    calls: Seq<BackendCall>,
    after: Map<u32, ProcState>,
    pid: u32,
) -> (e: int)
    requires
        boosts_all(c, before, targets, calls, after),
        after.contains_key(pid),
        !before.contains_key(pid),
    ensures
        0 <= e < targets.len(),
        targets[e].0 == pid,
        !is_protected(c, targets[e].1),
        background_index(c, targets[e].1) is Some,
    decreases targets.len(),
{
    let (k, mid) = choose|k: int, mid: Map<u32, ProcState>|
        0 <= k <= calls.len() && boosts_all(
            c,
            before,
            targets.drop_last(),
            calls.take(k),
            mid,
        ) && #[trigger] boosts_one(
            c,
            mid,
            targets.last().0,
            targets.last().1,
            calls.skip(k),
            after,
        );
    one_keeps(c, mid, targets.last().0, targets.last().1, calls.skip(k), after);
    if mid.contains_key(pid) {
        let e = first_entry(c, before, targets.drop_last(), calls.take(k), mid, pid);
        assert(targets.drop_last()[e] == targets[e]);
        e
    } else {
        targets.len() - 1
    }
}

proof fn row_is_candidate(
    c: ConfigView,
    rows: Seq<(u32, Seq<char>, bool)>,
    game: u32,
    k: int,
)
    requires
        0 <= k < rows.len(),
        rows[k].0 != game,
        !is_protected(c, rows[k].1),
    ensures
        candidates(c, rows, game).contains((rows[k].0, rows[k].1)),
    decreases rows.len(),
{
    let all = candidates(c, rows, game);
    let before = candidates(c, rows.drop_last(), game);
    let entry = (rows[k].0, rows[k].1);
    if k == rows.len() - 1 {
        assert(all[before.len() as int] == entry);
    } else {
        assert(rows.drop_last()[k] == rows[k]);
        row_is_candidate(c, rows.drop_last(), game, k);
        let i = choose|i: int| 0 <= i < before.len() && before[i] == entry;
        assert(all[i] == entry);
    }
}

proof fn candidate_is_row(
    c: ConfigView,
    rows: Seq<(u32, Seq<char>, bool)>,
    game: u32,
    i: int,
) -> (k: int)
    requires
        0 <= i < candidates(c, rows, game).len(),
    ensures
        0 <= k < rows.len(),
        candidates(c, rows, game)[i] == (rows[k].0, rows[k].1),
        rows[k].0 != game,
        !is_protected(c, rows[k].1),
    decreases rows.len(),
{
    let before = candidates(c, rows.drop_last(), game);
    if i < before.len() {
        let k = candidate_is_row(c, rows.drop_last(), game, i);
        assert(rows.drop_last()[k] == rows[k]);
        k
    } else {
        rows.len() - 1
    }
}

proof fn ordering_keeps_entries(list: Seq<(u32, Seq<char>)>, e: (u32, Seq<char>))
    ensures
        by_hash(list).contains(e) <==> list.contains(e),
{
    broadcast use vstd::seq_lib::group_to_multiset_ensures;

    by_hash_orders(list);
    assert(by_hash(list).contains(e) <==> by_hash(list).to_multiset().count(e) > 0);
    assert(list.contains(e) <==> list.to_multiset().count(e) > 0);
}

proof fn targets_have_one_name(v: EngineView, game: u32)
    ensures
        one_name_each(by_hash(candidates(v.cfg, v.table.listing(), game))),
{
    let rows = v.table.listing();
    let list = candidates(v.cfg, rows, game);
    let targets = by_hash(list);
    assert forall|i: int| 0 <= i < targets.len() implies (#[trigger] targets[i]).1
        == v.table.name_or_empty(targets[i].0) by {
        assert(targets.contains(targets[i]));
        ordering_keeps_entries(list, targets[i]);
        let n = choose|n: int| 0 <= n < list.len() && list[n] == targets[i];
        let k = candidate_is_row(v.cfg, rows, game, n);
        assert(rows[k].1 == v.table.name_or_empty(rows[k].0));
    }
}

/// The name that is recorded for a process; the empty text where there is none.
pub open spec fn recorded_name(v: EngineView, pid: u32) -> Seq<char> {
    if v.table.names.contains_key(pid) {
        v.table.names[pid]
    } else {
        Seq::empty()
    }
}

/// The process is tracked.
pub open spec fn is_listed(v: EngineView, pid: u32) -> bool {
    exists|k: int| 0 <= k < v.table.rows.len() && (#[trigger] v.table.rows[k]).pid == pid
}

/// When a boost begins, each tracked process, but for the game that began it, whose
/// name is not protected and that some background rule names, is read; and where that
/// works, the first such rule is applied to it in full and it is boosted.
#[verifier::rlimit(40)]
pub proof fn boost_reaches_every_background_process(
    v: EngineView,
    game: u32,
    calls: Seq<BackendCall>,
    w: EngineView,
    pid: u32,
    i: int,
)
    requires
        enters(v, game, calls, w),
        v.mode == Mode::Normal,
        v.quiet_when_normal(),
        masks_fit(v.cfg),
        is_listed(v, pid),
        pid != game,
        !is_protected(v.cfg, recorded_name(v, pid)),
        first_named(
            v.cfg.background.map_values(|b: BackgroundView| b.name),
            recorded_name(v, pid),
            i,
        ),
    ensures
        boosted_under(v.cfg.background[i], pid, calls, w.boosted),
{
    let r = choose|r: EntryReplies| #[trigger] begins(v, game, r, calls, w);
    let n = entry_calls(v.cfg, v.marker, r).len() as int;
    let rows = v.table.listing();
    let list = candidates(v.cfg, rows, game);
    let targets = by_hash(list);
    let k = choose|k: int| 0 <= k < v.table.rows.len() && (#[trigger] v.table.rows[k]).pid == pid;
    assert(rows[k].0 == pid && rows[k].1 == recorded_name(v, pid));
    row_is_candidate(v.cfg, rows, game, k);
    ordering_keeps_entries(list, (pid, recorded_name(v, pid)));
    let at = choose|at: int|
        0 <= at < targets.len() && targets[at] == (pid, recorded_name(v, pid));
    targets_have_one_name(v, game);
    let rest = calls.skip(n);
    all_are_boosted(v.cfg, v.boosted, targets, rest, w.boosted, at, i);
    if w.boosted.contains_key(pid) {
        let (x, y) = choose|x: int, y: int|
            0 <= x <= y <= rest.len() && rule_run(
                v.cfg.background[i],
                pid,
                #[trigger] rest.subrange(x, y),
                w.boosted[pid],
            );
        assert(rest.subrange(x, y) =~= calls.subrange(n + x, n + y));
        assert(rule_run(
            v.cfg.background[i],
            pid,
            calls.subrange(n + x, n + y),
            w.boosted[pid],
        ));
    } else {
        let unread = BackendCall::Snapshot { pid, reply: None };
        let j = choose|j: int| 0 <= j < rest.len() && rest[j] == unread;
        assert(calls[n + j] == unread);
    }
}

/// A boost that begins reaches no other process: what is boosted then is tracked, is
/// not the game that began the boost, has an unprotected name, and is named by a
/// background rule.
pub proof fn boost_reaches_only_background_processes(
    v: EngineView,
    game: u32,
    calls: Seq<BackendCall>,
    w: EngineView,
    pid: u32,
)
    requires
        enters(v, game, calls, w),
        v.mode == Mode::Normal,
        v.quiet_when_normal(),
        w.boosted.contains_key(pid),
    ensures
        is_listed(v, pid),
        pid != game,
        !is_protected(v.cfg, recorded_name(v, pid)),
        exists|i: int|
            0 <= i < v.cfg.background.len() && named_in(
                (#[trigger] v.cfg.background[i]).name,
                recorded_name(v, pid),
            ),
{
    let r = choose|r: EntryReplies| #[trigger] begins(v, game, r, calls, w);
    let n = entry_calls(v.cfg, v.marker, r).len() as int;
    let rows = v.table.listing();
    let list = candidates(v.cfg, rows, game);
    let targets = by_hash(list);
    let e = first_entry(v.cfg, v.boosted, targets, calls.skip(n), w.boosted, pid);
    assert(targets.contains(targets[e]));
    ordering_keeps_entries(list, targets[e]);
    let m = choose|m: int| 0 <= m < list.len() && list[m] == targets[e];
    let k = candidate_is_row(v.cfg, rows, game, m);
    assert(v.table.rows[k].pid == pid);
    let name = recorded_name(v, pid);
    assert(targets[e].1 == name);
    let names = background_names(v.cfg);
    first_named_means(names, name);
    let i = choose|i: int| 0 <= i < names.len() && named_in(#[trigger] names[i], name);
    assert(named_in(v.cfg.background[i].name, name));
}

// ---------------------------------------------------------------------------
// The system as a whole
// ---------------------------------------------------------------------------
/// A boost that begins makes the network tweaks exactly where the configuration
/// enables them, with the flags it sets, keeps the backup, and writes its marker
/// unless the backup is empty; and it purges the standby memory exactly where the
/// configuration asks for it.
#[verifier::rlimit(40)]
pub proof fn boost_tweaks_as_configured(
    v: EngineView,
    game: u32,
    calls: Seq<BackendCall>,
    w: EngineView,
)
    requires
        enters(v, game, calls, w),
        v.mode == Mode::Normal,
        v.quiet_when_normal(),
    ensures
        w.mode == Mode::GameBoost,
        w.games.contains(game),
        v.cfg.network.enabled ==> {
            &&& calls.len() > 0
            &&& calls[0] == (BackendCall::ApplyNetwork {
                nagle: v.cfg.network.nagle,
                netbios: v.cfg.network.netbios,
                made: w.backup,
            })
            &&& w.backup is Some && w.backup->0.len() > 0 ==> calls.len() > 1 && calls[1] is WriteMarker
                && calls[1]->WriteMarker_path == v.marker && calls[1]->bytes == marker_layout(
                as_triples(w.backup->0),
            )
        },
        !v.cfg.network.enabled ==> w.backup is None && (calls.len() > 0 ==> !(calls[0] is ApplyNetwork)),
        v.cfg.game.purge_standby_on_boost ==> exists|i: int|
            0 <= i < calls.len() && i <= 2 && (#[trigger] calls[i]) is PurgeStandby,
        !v.cfg.game.purge_standby_on_boost ==> forall|i: int|
            0 <= i < calls.len() ==> !((#[trigger] calls[i]) is PurgeStandby),
{
    let r = choose|r: EntryReplies| #[trigger] begins(v, game, r, calls, w);
    let ready = entry_calls(v.cfg, v.marker, r);
    let n = ready.len() as int;
    let rest = calls.skip(n);
    assert(w.games[0] == game);
    met_processes_only(
        v.cfg,
        v.boosted,
        by_hash(candidates(v.cfg, v.table.listing(), game)),
        rest,
        w.boosted,
    );
    assert forall|i: int| 0 <= i < calls.len() implies (if i < n {
        #[trigger] calls[i] == ready[i]
    } else {
        calls[i] is Snapshot || calls[i] is Apply
    }) by {
        if i < n {
            assert(calls.take(n)[i] == calls[i]);
        } else {
            assert(rest[i - n] == calls[i]);
        }
    }
    if v.cfg.network.enabled {
        assert(calls[0] == ready[0]);
        if r.backup is Some && r.backup->0.len() > 0 {
            assert(calls[1] == ready[1]);
        }
    }
    if v.cfg.game.purge_standby_on_boost {
        assert(ready[n - 1] is PurgeStandby);
        assert(calls[n - 1] is PurgeStandby);
    }
}

proof fn met_processes_only(
    c: ConfigView,
    before: Map<u32, ProcState>,
    targets: Seq<(u32, Seq<char>)>,
    calls: Seq<BackendCall>,
    after: Map<u32, ProcState>,
)
    requires
        boosts_all(c, before, targets, calls, after),
    ensures
        forall|i: int|
            0 <= i < calls.len() ==> (#[trigger] calls[i]) is Snapshot || calls[i] is Apply,
    decreases targets.len(),
{
    if targets.len() > 0 {
        let (k, mid) = choose|k: int, mid: Map<u32, ProcState>|
            0 <= k <= calls.len() && boosts_all(
                c,
                before,
                targets.drop_last(),
                calls.take(k),
                mid,
            ) && #[trigger] boosts_one(
                c,
                mid,
                targets.last().0,
                targets.last().1,
                calls.skip(k),
                after,
            );
        met_processes_only(c, before, targets.drop_last(), calls.take(k), mid);
        let last = calls.skip(k);
        assert forall|i: int| 0 <= i < calls.len() implies (#[trigger] calls[i]) is Snapshot
            || calls[i] is Apply by {
            if i < k {
                assert(calls.take(k)[i] == calls[i]);
            } else {
                assert(last[i - k] == calls[i]);
                if i > k {
                    assert(last.skip(1)[i - k - 1] == last[i - k]);
                }
            }
        }
    }
}

// ---------------------------------------------------------------------------
// The end of a boost
// ---------------------------------------------------------------------------
/// Leaving a boost ends in normal mode with nothing held, under the same
/// configuration and with the same processes tracked; the last call clears all caps,
/// and nothing is done to a process that was not boosted. Outside a boost leaving
/// does nothing.
#[verifier::rlimit(40)]
pub proof fn leaving_ends_the_boost(v: EngineView, calls: Seq<BackendCall>, w: EngineView)
    requires
        exits(v, calls, w),
    ensures
        v.mode == Mode::Normal ==> w == v && calls.len() == 0,
        w.mode == Mode::Normal,
        w.cfg == v.cfg,
        w.table == v.table,
        v.mode == Mode::GameBoost ==> {
            &&& w.boosted == Map::<u32, ProcState>::empty()
            &&& w.games.len() == 0
            &&& w.resumed == Set::<u32>::empty()
            &&& w.foreground is None
            &&& w.backup is None
            &&& calls.len() > 0
            &&& calls.last() == BackendCall::ClearAllQos
            &&& forall|i: int|
                0 <= i < calls.len() ==> match #[trigger] calls[i] {
                    BackendCall::Restore { pid, state, done: _ } => v.boosted.contains_key(pid)
                        && state == v.boosted[pid],
                    BackendCall::Snapshot { pid: _, reply: _ } => false,
                    BackendCall::Apply { pid: _, action: _, done: _ } => false,
                    _ => true,
                }
        },
{
    if v.mode == Mode::GameBoost {
        let (done, order) = choose|done: Seq<bool>, order: Seq<u32>| #[trigger]
            ends(v, done, order, calls);
        let first = exit_calls(v.backup, v.marker, done);
        let n = first.len() as int;
        let rest = calls.skip(n);
        let body = restores(v.boosted, order, answers(rest)).push(BackendCall::ClearAllQos);
        assert(rest == body);
        assert(rest.last() == calls.last());
        assert forall|i: int| 0 <= i < calls.len() implies match #[trigger] calls[i] {
            BackendCall::Restore { pid, state, done: _ } => v.boosted.contains_key(pid) && state
                == v.boosted[pid],
            BackendCall::Snapshot { pid: _, reply: _ } => false,
            BackendCall::Apply { pid: _, action: _, done: _ } => false,
            _ => true,
        } by {
            if i < n {
                assert(calls.take(n)[i] == calls[i]);
            } else {
                assert(rest[i - n] == calls[i]);
                if i - n < order.len() {
                    assert(order.to_set().contains(order[i - n]));
                }
            }
        }
    }
}

/// A process that stops is let go: its exit is the last call. A boosted one that holds
/// no boost is restored to what was kept of it, and the others stay as they are; where
/// it was neither boosted nor holds the boost, nothing else happens.
pub proof fn stopped_process_is_let_go(
    v: EngineView,
    pid: u32,
    calls: Seq<BackendCall>,
    w: EngineView,
)
    requires
        stops(v, pid, calls, w),
    ensures
        calls.len() > 0,
        calls.last() == (BackendCall::ProcessExit { pid }),
        w.cfg == v.cfg,
        !v.games.contains(pid) ==> {
            &&& w.mode == v.mode
            &&& w.games == v.games
            &&& w.boosted == v.boosted.remove(pid)
            &&& v.boosted.contains_key(pid) ==> calls.len() == 2 && restores_pid(v, calls[0], pid)
            &&& !v.boosted.contains_key(pid) ==> calls.len() == 1
        },
{
    if !v.games.contains(pid) {
        if v.boosted.contains_key(pid) {
            assert(calls.drop_last()[0] == calls[0]);
        } else {
            assert(v.boosted.remove(pid) =~= v.boosted);
        }
    }
}

// ---------------------------------------------------------------------------
// A new configuration
// ---------------------------------------------------------------------------
proof fn game_row_is_running(c: ConfigView, rows: Seq<(u32, Seq<char>, bool)>, k: int)
    requires
        0 <= k < rows.len(),
        is_game(c, rows[k].1),
    ensures
        running_games(c, rows).contains(rows[k].0),
    decreases rows.len(),
{
    let all = running_games(c, rows);
    let before = running_games(c, rows.drop_last());
    if k == rows.len() - 1 {
        assert(all[before.len() as int] == rows[k].0);
    } else {
        assert(rows.drop_last()[k] == rows[k]);
        game_row_is_running(c, rows.drop_last(), k);
        let i = choose|i: int| 0 <= i < before.len() && before[i] == rows[k].0;
        assert(all[i] == rows[k].0);
    }
}

proof fn running_game_has_row(c: ConfigView, rows: Seq<(u32, Seq<char>, bool)>, i: int) -> (k: int)
    requires
        0 <= i < running_games(c, rows).len(),
    ensures
        0 <= k < rows.len(),
        running_games(c, rows)[i] == rows[k].0,
        is_game(c, rows[k].1),
    decreases rows.len(),
{
    let before = running_games(c, rows.drop_last());
    if i < before.len() {
        let k = running_game_has_row(c, rows.drop_last(), i);
        assert(rows.drop_last()[k] == rows[k]);
        k
    } else {
        rows.len() - 1
    }
}

/// A tracked process is a game under a configuration: one of the configured names
/// stands in the recorded one.
pub open spec fn runs_as_game(v: EngineView, c: ConfigView, pid: u32) -> bool {
    &&& is_listed(v, pid)
    &&& exists|i: int|
        0 <= i < c.game.processes.len() && named_in(
            #[trigger] c.game.processes[i],
            recorded_name(v, pid),
        )
}

proof fn with_pids_from(pids: Seq<u32>, more: Seq<u32>, p: u32)
    ensures
        with_pids(pids, more).contains(p) <==> pids.contains(p) || more.contains(p),
    decreases more.len(),
{
    if more.len() > 0 {
        let head = with_pids(pids, more.drop_last());
        let last = more.last();
        with_pids_from(pids, more.drop_last(), p);
        let all = with_pid(head, last);
        assert(all.contains(p) <==> head.contains(p) || p == last) by {
            if head.contains(p) {
                let i = choose|i: int| 0 <= i < head.len() && head[i] == p;
                assert(all[i] == p);
            }
            if p == last && !head.contains(last) {
                assert(all[head.len() as int] == p);
            }
        }
        if more.contains(p) && p != last {
            let i = choose|i: int| 0 <= i < more.len() && more[i] == p;
            assert(more.drop_last()[i] == p);
        }
        if more.drop_last().contains(p) {
            let i = choose|i: int| 0 <= i < more.drop_last().len() && more.drop_last()[i] == p;
            assert(more[i] == p);
        }
        assert(more[more.len() - 1] == last);
    }
}

/// After a new configuration the engine is in a boost exactly when some tracked process
/// is a game under it, whether or not games are boosted on start; the boost is held by
/// those processes and no other. What begins the boost again is one of them, and the
/// boost then does what a boost does.
#[verifier::rlimit(40)]
pub proof fn reconfiguring_boosts_while_a_game_runs(
    v: EngineView,
    cfg: ConfigView,
    calls: Seq<BackendCall>,
    w: EngineView,
)
    requires
        reconfigures(v, cfg, calls, w),
    ensures
        w.cfg == cfg,
        w.mode == Mode::GameBoost <==> exists|p: u32| runs_as_game(v, cfg, p),
        w.mode == Mode::GameBoost ==> forall|p: u32| #[trigger]
            w.games.contains(p) <==> runs_as_game(v, cfg, p),
        w.mode == Mode::GameBoost ==> exists|k: int, mid: EngineView, game: u32, held: EngineView|
            {
                &&& 0 <= k <= calls.len()
                &&& #[trigger] exits(v, calls.take(k), mid)
                &&& runs_as_game(v, cfg, game)
                &&& #[trigger] enters((EngineView { cfg, ..mid }), game, calls.skip(k), held)
                &&& w == (EngineView { games: w.games, ..held })
            },
        w.mode == Mode::Normal ==> exits(v, calls, (EngineView { cfg: v.cfg, ..w })),
{
    let (k, mid) = choose|k: int, mid: EngineView|
        0 <= k <= calls.len() && #[trigger] exits(v, calls.take(k), mid) && reenters(
            (EngineView { cfg, ..mid }),
            calls.skip(k),
            w,
        );
    let fresh = EngineView { cfg, ..mid };
    leaving_ends_the_boost(v, calls.take(k), mid);
    let rows = v.table.listing();
    let games = running_games(cfg, rows);
    assert forall|p: u32| games.contains(p) <==> #[trigger] runs_as_game(v, cfg, p) by {
        games_are_named(cfg, recorded_name(v, p));
        if games.contains(p) {
            let i = choose|i: int| 0 <= i < games.len() && games[i] == p;
            let j = running_game_has_row(cfg, rows, i);
            assert(v.table.rows[j].pid == p);
            assert(rows[j].1 == recorded_name(v, p));
        }
        if runs_as_game(v, cfg, p) {
            let j = choose|j: int|
                0 <= j < v.table.rows.len() && (#[trigger] v.table.rows[j]).pid == p;
            assert(rows[j].0 == p && rows[j].1 == recorded_name(v, p));
            game_row_is_running(cfg, rows, j);
        }
    }
    if games.len() > 0 {
        assert(games.contains(games[0]));
        assert(runs_as_game(v, cfg, games[0]));
        let held = choose|e: EngineView| #[trigger]
            enters(fresh, games[0], calls.skip(k), e) && w == (EngineView {
                games: with_pids(e.games, games.skip(1)),
                ..e
            });
        assert(held.mode == Mode::GameBoost);
        assert(held.games == seq![games[0]]);
        assert forall|p: u32| #[trigger] w.games.contains(p) <==> runs_as_game(v, cfg, p) by {
            with_pids_from(held.games, games.skip(1), p);
            if games.contains(p) {
                let i = choose|i: int| 0 <= i < games.len() && games[i] == p;
                if i > 0 {
                    assert(games.skip(1)[i - 1] == p);
                } else {
                    assert(held.games[0] == p);
                }
            }
            if held.games.contains(p) {
                assert(p == games[0]);
            }
            if games.skip(1).contains(p) {
                let i = choose|i: int| 0 <= i < games.skip(1).len() && games.skip(1)[i] == p;
                assert(games[i + 1] == p);
            }
        }
        assert(w == (EngineView { games: w.games, ..held }));
    } else {
        assert forall|p: u32| !#[trigger] runs_as_game(v, cfg, p) by {
            if runs_as_game(v, cfg, p) {
                assert(games.contains(p));
            }
        }
        assert(calls.take(k) =~= calls);
    }
}

/// A tracked game that comes to the foreground outside a boost begins one, whatever the
/// configuration says of starts; where games are not boosted on start, a process that
/// is no game and holds no boost ends it by coming to the foreground.
pub proof fn foreground_begins_and_ends_boosts(
    v: EngineView,
    pid: u32,
    calls: Seq<BackendCall>,
    w: EngineView,
)
    requires
        focuses(v, pid, calls, w),
    ensures
        runs_as_game(v, v.cfg, pid) ==> w.mode == Mode::GameBoost && (v.mode == Mode::Normal
            ==> w.games.contains(pid)),
        !runs_as_game(v, v.cfg, pid) && v.mode == Mode::Normal && is_listed(v, pid) ==> w.mode
            == Mode::Normal,
        !runs_as_game(v, v.cfg, pid) && is_listed(v, pid) && !v.games.contains(pid)
            && !v.cfg.game.boost_on_start ==> w.mode == Mode::Normal,
        v.mode == Mode::GameBoost && (v.cfg.game.boost_on_start || v.games.contains(pid))
            ==> w.mode == Mode::GameBoost,
        v.mode == Mode::Normal || w.mode == Mode::GameBoost ==> w.foreground == Some(pid),
        w.cfg == v.cfg,
        w.table == v.table,
{
    games_are_named(v.cfg, recorded_name(v, pid));
    let (leave, without) = crate::policy::leaves_foreground(v, pid);
    let (come, with) = crate::policy::comes_to_foreground(v, without, pid);
    let b = leave.len() as int + come.len();
    let seen = EngineView { resumed: with, foreground: Some(pid), ..v };
    if is_game(v.cfg, recorded_name(v, pid)) && v.mode != Mode::GameBoost {
        let r = choose|r: EntryReplies| #[trigger] begins(seen, pid, r, calls.skip(b), w);
        assert(w.games[0] == pid);
    }
}

/// In a boost, a change of the foreground acts on no process but the one that leaves it
/// and the one that comes: the first is suspended again if it was resumed for being there
/// and suspended before, the second is resumed if it is suspended and was not resumed yet.
/// Where the boost goes on, exactly that is noted, and nothing else changes.
#[verifier::rlimit(40)]
pub proof fn foreground_acts_on_two_processes_at_most(
    v: EngineView,
    pid: u32,
    calls: Seq<BackendCall>,
    w: EngineView,
)
    requires
        focuses(v, pid, calls, w),
        v.mode == Mode::GameBoost,
    ensures
        forall|i: int|
            0 <= i < calls.len() ==> match #[trigger] calls[i] {
                BackendCall::Apply { pid: p, action, done: _ } => {
                    ||| action == TargetAction::Suspend && v.foreground == Some(p) && p != pid
                        && v.resumed.contains(p) && v.boosted.contains_key(p)
                        && v.boosted[p].suspended
                    ||| action == TargetAction::Resume && p == pid && !v.resumed.contains(p)
                        && v.boosted.contains_key(p) && v.boosted[p].suspended
                },
                BackendCall::Snapshot { pid: _, reply: _ } => false,
                _ => true,
            },
        w.mode == Mode::GameBoost ==> {
            &&& w.foreground == Some(pid)
            &&& w.boosted == v.boosted
            &&& w.games == v.games
            &&& w.backup == v.backup
            &&& forall|p: u32| #[trigger]
                w.resumed.contains(p) <==> {
                    ||| v.resumed.contains(p) && !(v.foreground == Some(p) && p != pid)
                    ||| p == pid && v.boosted.contains_key(p) && v.boosted[p].suspended
                }
        },
{
    let (leave, without) = crate::policy::leaves_foreground(v, pid);
    let (come, with) = crate::policy::comes_to_foreground(v, without, pid);
    let a = leave.len() as int;
    let b = a + come.len();
    let seen = EngineView { resumed: with, foreground: Some(pid), ..v };
    let rest = calls.skip(b);
    let name = v.table.name_or_empty(pid);
    if !is_game(v.cfg, name) && !v.cfg.game.boost_on_start && !v.games.contains(pid) {
        leaving_ends_the_boost(seen, rest, w);
    } else {
        assert(rest.len() == 0);
    }
    assert forall|i: int| 0 <= i < calls.len() implies match #[trigger] calls[i] {
        BackendCall::Apply { pid: p, action, done: _ } => {
            ||| action == TargetAction::Suspend && v.foreground == Some(p) && p != pid
                && v.resumed.contains(p) && v.boosted.contains_key(p) && v.boosted[p].suspended
            ||| action == TargetAction::Resume && p == pid && !v.resumed.contains(p)
                && v.boosted.contains_key(p) && v.boosted[p].suspended
        },
        BackendCall::Snapshot { pid: _, reply: _ } => false,
        _ => true,
    } by {
        if i < a {
            assert(calls.take(a)[i] == calls[i]);
        } else if i < b {
            assert(calls.subrange(a, b)[i - a] == calls[i]);
        } else {
            assert(rest[i - b] == calls[i]);
        }
    }
}

/// A process that starts is listed from then on, under the name it started with unless
/// it was listed before; the others stay listed as they were.
#[verifier::rlimit(40)]
pub proof fn start_is_recorded(
    v: EngineView,
    pid: u32,
    name: Seq<char>,
    calls: Seq<BackendCall>,
    w: EngineView,
)
    requires
        starts(v, pid, name, calls, w),
    ensures
        is_listed(w, pid),
        !is_listed(v, pid) ==> recorded_name(w, pid) == name,
        forall|p: u32|
            p != pid ==> #[trigger] recorded_name(w, p) == recorded_name(v, p) && is_listed(w, p)
                == is_listed(v, p),
        w.cfg == v.cfg,
{
    let t = v.table;
    let u = t.upserted(pid, name, false);
    assert(w.table == u);
    if t.has(pid) {
        let i = t.row_of(pid);
        assert(t.is_row_of(pid, i));
        assert(t.rows[i].pid == pid);
        assert(is_listed(v, pid));
    }
    if is_listed(v, pid) {
        let k = choose|k: int| 0 <= k < t.rows.len() && (#[trigger] t.rows[k]).pid == pid;
        t.some_row_means_first_row(pid, k);
        if t.rows[t.row_of(pid)].name_hash == crate::proc_table::hash_of(name) {
            assert(u.rows[t.row_of(pid)].pid == pid);
        } else {
            assert(u.rows[t.rows.len() as int].pid == pid);
        }
    } else {
        assert(u.rows[t.rows.len() as int].pid == pid);
    }
    assert forall|p: u32| p != pid implies #[trigger] recorded_name(w, p) == recorded_name(v, p)
        && is_listed(w, p) == is_listed(v, p) by {
        if is_listed(v, p) {
            let k = choose|k: int| 0 <= k < t.rows.len() && (#[trigger] t.rows[k]).pid == p;
            assert(u.rows[k].pid == p);
        }
        if is_listed(w, p) {
            let k = choose|k: int| 0 <= k < u.rows.len() && (#[trigger] u.rows[k]).pid == p;
            assert(k < t.rows.len());
            assert(t.rows[k].pid == p);
        }
    }
}

} // verus!
