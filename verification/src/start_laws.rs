//! A process that starts during a boost is treated like one that ran before it.

use vstd::prelude::*;

use crate::actions::{BackendCall, ProcState, TargetAction};
use crate::config::ConfigView;
use crate::laws::touches;
use crate::policy::{
    always_actions, answers, attempts, background_actions, background_index, begins, boosts_all,
    boosts_one, by_hash, candidates, entry_calls, is_game, is_protected, is_target, starts,
    EngineView, EntryReplies, Mode,
};
use crate::proc_table::{hash_of, ProcMeta, TableView};

verus! {

/// What a backend answers, where that depends on what it is asked alone.
pub struct Answers {
    pub snapshot: spec_fn(u32) -> Option<ProcState>,
    pub apply: spec_fn(u32, TargetAction) -> bool,
}

/// The calls were answered so.
pub open spec fn answered(calls: Seq<BackendCall>, a: Answers) -> bool {
    forall|i: int|
        0 <= i < calls.len() ==> match #[trigger] calls[i] {
            BackendCall::Snapshot { pid, reply } => reply == (a.snapshot)(pid),
            BackendCall::Apply { pid, action, done } => done == (a.apply)(pid, action),
            _ => true,
        }
}

/// The calls that read or change a process, in order.
pub open spec fn calls_about(calls: Seq<BackendCall>, pid: u32) -> Seq<BackendCall> {
    calls.filter(|c: BackendCall| touches(c, pid))
}

proof fn answered_part(calls: Seq<BackendCall>, a: Answers, from: int, to: int)
    requires
        answered(calls, a),
        0 <= from <= to <= calls.len(),
    ensures
        answered(calls.subrange(from, to), a),
{
    let part = calls.subrange(from, to);
    assert forall|i: int| 0 <= i < part.len() implies match #[trigger] part[i] {
        BackendCall::Snapshot { pid, reply } => reply == (a.snapshot)(pid),
        BackendCall::Apply { pid, action, done } => done == (a.apply)(pid, action),
        _ => true,
    } by {
        assert(part[i] == calls[from + i]);
    }
}

proof fn attempts_fixed(
    pid: u32,
    actions: Seq<TargetAction>,
    one: Seq<BackendCall>,
    two: Seq<BackendCall>,
    a: Answers,
)
    requires
        one == attempts(pid, actions, answers(one)),
        two == attempts(pid, actions, answers(two)),
        answered(one, a),
        answered(two, a),
    ensures
        one == two,
{
    assert forall|i: int| 0 <= i < one.len() implies one[i] == two[i] by {
        assert(one[i] == attempts(pid, actions, answers(one))[i]);
        assert(two[i] == attempts(pid, actions, answers(two))[i]);
    }
    assert(one =~= two);
}

/// Whenever a process is met in a boost, the same is done to it and the same is
/// kept of it: that depends on the configuration, its name and the answers alone.
pub proof fn met_alike(
    c: ConfigView,
    pid: u32,
    name: Seq<char>,
    a: Answers,
    before1: Map<u32, ProcState>,
    calls1: Seq<BackendCall>,
    after1: Map<u32, ProcState>,
    before2: Map<u32, ProcState>,
    calls2: Seq<BackendCall>,
    after2: Map<u32, ProcState>,
)
    requires
        boosts_one(c, before1, pid, name, calls1, after1),
        boosts_one(c, before2, pid, name, calls2, after2),
        !before1.contains_key(pid),
        !before2.contains_key(pid),
        answered(calls1, a),
        answered(calls2, a),
    ensures
        calls1 == calls2,
        after1.contains_key(pid) <==> after2.contains_key(pid),
        after1.contains_key(pid) ==> after1[pid] == after2[pid],
        before1 == before2 ==> after1 == after2,
{
    if is_target(c, before1, pid, name) {
        let actions = background_actions(c.background[background_index(c, name)->0]);
        assert(calls1[0] == calls2[0]);
        let rest1 = calls1.skip(1);
        let rest2 = calls2.skip(1);
        assert(calls1 =~= seq![calls1[0]] + rest1);
        assert(calls2 =~= seq![calls2[0]] + rest2);
        if (a.snapshot)(pid) is Some {
            answered_part(calls1, a, 1, calls1.len() as int);
            answered_part(calls2, a, 1, calls2.len() as int);
            attempts_fixed(pid, actions, rest1, rest2, a);
        }
    } else {
        assert(calls1 =~= calls2);
    }
}

// ---------------------------------------------------------------------------
// Calls about one process
// ---------------------------------------------------------------------------
proof fn all_about(calls: Seq<BackendCall>, pid: u32)
    requires
        forall|i: int| 0 <= i < calls.len() ==> touches(#[trigger] calls[i], pid),
    ensures
        calls_about(calls, pid) == calls,
    decreases calls.len(),
{
    reveal(Seq::filter);
    if calls.len() > 0 {
        let head = calls.drop_last();
        assert forall|i: int| 0 <= i < head.len() implies touches(#[trigger] head[i], pid) by {
            assert(head[i] == calls[i]);
        }
        all_about(head, pid);
        assert(touches(calls[calls.len() - 1], pid));
        assert(calls =~= head.push(calls.last()));
    }
}

proof fn none_about(calls: Seq<BackendCall>, pid: u32)
    requires
        forall|i: int| 0 <= i < calls.len() ==> !touches(#[trigger] calls[i], pid),
    ensures
        calls_about(calls, pid) == Seq::<BackendCall>::empty(),
    decreases calls.len(),
{
    reveal(Seq::filter);
    if calls.len() > 0 {
        let head = calls.drop_last();
        assert forall|i: int| 0 <= i < head.len() implies !touches(#[trigger] head[i], pid) by {
            assert(head[i] == calls[i]);
        }
        none_about(head, pid);
        assert(!touches(calls[calls.len() - 1], pid));
    } else {
        assert(calls =~= Seq::<BackendCall>::empty());
    }
}

proof fn about_joins(x: Seq<BackendCall>, y: Seq<BackendCall>, pid: u32)
    ensures
        calls_about(x + y, pid) == calls_about(x, pid) + calls_about(y, pid),
{
    Seq::filter_distributes_over_add(x, y, |c: BackendCall| touches(c, pid));
}

proof fn attempts_about(pid: u32, actions: Seq<TargetAction>, done: Seq<bool>, of: u32)
    ensures
        calls_about(attempts(pid, actions, done), of) == if of == pid {
            attempts(pid, actions, done)
        } else {
            Seq::<BackendCall>::empty()
        },
{
    if of == pid {
        all_about(attempts(pid, actions, done), of);
    } else {
        none_about(attempts(pid, actions, done), of);
    }
}

proof fn met_about(
    c: ConfigView,
    before: Map<u32, ProcState>,
    pid: u32,
    name: Seq<char>,
    calls: Seq<BackendCall>,
    after: Map<u32, ProcState>,
)
    requires
        boosts_one(c, before, pid, name, calls, after),
    ensures
        calls_about(calls, pid) == calls,
{
    assert forall|i: int| 0 <= i < calls.len() implies touches(#[trigger] calls[i], pid) by {
        if i > 0 {
            assert(calls.skip(1)[i - 1] == calls[i]);
        }
    }
    all_about(calls, pid);
}

// ---------------------------------------------------------------------------
// The two orders
// ---------------------------------------------------------------------------
proof fn table_of_one(pid: u32, name: Seq<char>)
    ensures
        TableView::empty().upserted(pid, name, false).rows == seq![
            ProcMeta { pid, name_hash: hash_of(name), is_game: false },
        ],
        TableView::empty().upserted(pid, name, false).listing() == seq![(pid, name, false)],
{
    let t = TableView::empty().upserted(pid, name, false);
    assert(!TableView::empty().has(pid));
    assert(t.rows =~= seq![ProcMeta { pid, name_hash: hash_of(name), is_game: false }]);
    assert(t.listing() =~= seq![(pid, name, false)]);
}

proof fn table_of_two(first: u32, a: Seq<char>, second: u32, b: Seq<char>)
    requires
        first != second,
    ensures
        TableView::empty().upserted(first, a, false).upserted(second, b, false).listing() == seq![
            (first, a, false),
            (second, b, false),
        ],
{
    let one = TableView::empty().upserted(first, a, false);
    table_of_one(first, a);
    assert(!one.has(second)) by {
        if one.has(second) {
            let i = choose|i: int| one.is_row_of(second, i);
            assert(one.rows[i].pid == first);
        }
    }
    let two = one.upserted(second, b, false);
    assert(two.listing() =~= seq![(first, a, false), (second, b, false)]);
}

proof fn no_candidate(c: ConfigView, game: u32, name: Seq<char>)
    ensures
        by_hash(candidates(c, seq![(game, name, false)], game)) == Seq::<
            (u32, Seq<char>),
        >::empty(),
{
    let rows = seq![(game, name, false)];
    let e = Seq::<(u32, Seq<char>, bool)>::empty();
    assert(rows.drop_last() =~= e);
    assert(candidates(c, e, game) == Seq::<(u32, Seq<char>)>::empty());
}

proof fn one_candidate(c: ConfigView, pid: u32, b: Seq<char>, game: u32, name: Seq<char>)
    requires
        pid != game,
        !is_protected(c, b),
    ensures
        by_hash(candidates(c, seq![(pid, b, false), (game, name, false)], game)) == seq![(pid, b)],
{
    let rows = seq![(pid, b, false), (game, name, false)];
    let one = seq![(pid, b, false)];
    let e = Seq::<(u32, Seq<char>, bool)>::empty();
    let none = Seq::<(u32, Seq<char>)>::empty();
    let list = seq![(pid, b)];
    assert(rows.drop_last() =~= one);
    assert(one.drop_last() =~= e);
    assert(candidates(c, e, game) == none);
    assert(candidates(c, one, game) =~= list);
    assert(candidates(c, rows, game) =~= list);
    assert(list.drop_last() =~= none);
    assert(by_hash(none) == none);
    assert(by_hash(list) =~= list);
}

proof fn one_is_met(
    c: ConfigView,
    before: Map<u32, ProcState>,
    t: (u32, Seq<char>),
    calls: Seq<BackendCall>,
    after: Map<u32, ProcState>,
)
    requires
        boosts_all(c, before, seq![t], calls, after),
    ensures
        boosts_one(c, before, t.0, t.1, calls, after),
{
    let list = seq![t];
    assert(list.drop_last() =~= Seq::<(u32, Seq<char>)>::empty());
    let (k, mid) = choose|k: int, mid: Map<u32, ProcState>|
        0 <= k <= calls.len() && boosts_all(
            c,
            before,
            list.drop_last(),
            calls.take(k),
            mid,
        ) && #[trigger] boosts_one(
            c,
            mid,
            list.last().0,
            list.last().1,
            calls.skip(k),
            after,
        );
    assert(k == 0);
    assert(calls.skip(0) =~= calls);
}

/// What the start of a game does to an engine in normal mode that tracks at most
/// one other process, `target`.
#[verifier::rlimit(40)]
proof fn game_begins(
    v: EngineView,
    game: u32,
    name: Seq<char>,
    calls: Seq<BackendCall>,
    w: EngineView,
    target: Option<(u32, Seq<char>)>,
) -> (parts: (Seq<BackendCall>, Seq<BackendCall>, Seq<BackendCall>))
    requires
        starts(v, game, name, calls, w),
        v.mode == Mode::Normal,
        v.boosted == Map::<u32, ProcState>::empty(),
        v.cfg.game.boost_on_start,
        is_game(v.cfg, name),
        !is_protected(v.cfg, name),
        match target {
            Some(t) => {
                &&& t.0 != game
                &&& !is_protected(v.cfg, t.1)
                &&& v.table == TableView::empty().upserted(t.0, t.1, false)
            },
            None => v.table == TableView::empty(),
        },
    ensures
        calls == parts.0 + parts.1 + parts.2,
        parts.0 == attempts(game, always_actions(v.cfg, name), answers(parts.0)),
        forall|i: int, p: u32|
            0 <= i < parts.1.len() ==> !(#[trigger] touches(parts.1[i], p)),
        match target {
            Some(t) => boosts_one(v.cfg, Map::empty(), t.0, t.1, parts.2, w.boosted),
            None => parts.2.len() == 0 && w.boosted == Map::<u32, ProcState>::empty(),
        },
        w.mode == Mode::GameBoost,
        w.games == seq![game],
        w.cfg == v.cfg,
{
    let c = v.cfg;
    let n = always_actions(c, name).len() as int;
    let seen = EngineView { table: v.table.upserted(game, name, false), ..v };
    let entering = calls.skip(n);
    let r = choose|r: EntryReplies| #[trigger] begins(seen, game, r, entering, w);
    let ready = entry_calls(c, v.marker, r);
    let k = ready.len() as int;
    let last = entering.skip(k);
    assert(calls =~= calls.take(n) + ready + last) by {
        assert(entering =~= entering.take(k) + last);
        assert(calls =~= calls.take(n) + entering);
    }
    match target {
        Some(t) => {
            table_of_two(t.0, t.1, game, name);
            one_candidate(c, t.0, t.1, game, name);
            one_is_met(c, seen.boosted, t, last, w.boosted);
        },
        None => {
            table_of_one(game, name);
            no_candidate(c, game, name);
        },
    }
    assert forall|i: int, p: u32| 0 <= i < ready.len() implies !(#[trigger] touches(
        ready[i],
        p,
    )) by {}
    (calls.take(n), ready, last)
}

/// A process that starts during a boost is treated like one that ran before it.
/// Two engines that knew no process see a background process and a game start,
/// one in this order and one in the other, and are answered alike: both are then
/// in a boost, hold the same boosted processes, and made the same calls about the
/// background process in the same order.
#[verifier::rlimit(40)]
pub proof fn order_of_starts_does_not_matter(
    v: EngineView,
    pb: u32,
    b: Seq<char>,
    pg: u32,
    g: Seq<char>,
    a: Answers,
    x1: Seq<BackendCall>,
    v1: EngineView,
    y1: Seq<BackendCall>,
    w1: EngineView,
    x2: Seq<BackendCall>,
    v2: EngineView,
    y2: Seq<BackendCall>,
    w2: EngineView,
)
    requires
        v.mode == Mode::Normal,
        v.quiet_when_normal(),
        v.table == TableView::empty(),
        v.cfg.game.boost_on_start,
        is_game(v.cfg, g),
        !is_game(v.cfg, b),
        !is_protected(v.cfg, g),
        !is_protected(v.cfg, b),
        pb != pg,
        starts(v, pb, b, x1, v1),
        starts(v1, pg, g, y1, w1),
        starts(v, pg, g, x2, v2),
        starts(v2, pb, b, y2, w2),
        answered(x1 + y1, a),
        answered(x2 + y2, a),
    ensures
        w1.mode == Mode::GameBoost,
        w2.mode == Mode::GameBoost,
        w1.boosted == w2.boosted,
        calls_about(x1 + y1, pb) == calls_about(x2 + y2, pb),
{
    let c = v.cfg;
    let always = always_actions(c, b);
    let n = always.len() as int;
    assert(x1.take(n) =~= x1);
    let (game1, ready1, met1) = game_begins(v1, pg, g, y1, w1, Some((pb, b)));
    let (game2, ready2, met2) = game_begins(v, pg, g, x2, v2, None);
    assert(!v2.games.contains(pb));
    let always2 = y2.take(n);
    let boost2 = y2.skip(n);
    assert(y2 =~= always2 + boost2);
    assert((x1 + y1).subrange(0, n) =~= x1);
    answered_part(x1 + y1, a, 0, n);
    let m = (x1 + y1).len() as int;
    let at1 = m - met1.len();
    assert((x1 + y1).subrange(at1, m) =~= met1);
    answered_part(x1 + y1, a, at1, m);
    let k = x2.len() as int;
    assert((x2 + y2).subrange(k, k + n) =~= always2);
    answered_part(x2 + y2, a, k, k + n);
    assert((x2 + y2).subrange(k + n, (x2 + y2).len() as int) =~= boost2);
    answered_part(x2 + y2, a, k + n, (x2 + y2).len() as int);
    attempts_fixed(pb, always, x1, always2, a);
    met_alike(
        c,
        pb,
        b,
        a,
        Map::empty(),
        met1,
        w1.boosted,
        Map::empty(),
        boost2,
        w2.boosted,
    );
    // What is about the background process.
    attempts_about(pb, always, answers(x1), pb);
    attempts_about(pg, always_actions(c, g), answers(game1), pb);
    attempts_about(pg, always_actions(c, g), answers(game2), pb);
    none_about(ready1, pb);
    none_about(ready2, pb);
    none_about(met2, pb);
    met_about(c, Map::empty(), pb, b, met1, w1.boosted);
    about_joins(x1, y1, pb);
    about_joins(game1 + ready1, met1, pb);
    about_joins(game1, ready1, pb);
    about_joins(x2, y2, pb);
    about_joins(game2 + ready2, met2, pb);
    about_joins(game2, ready2, pb);
    about_joins(always2, boost2, pb);
    assert(calls_about(x1 + y1, pb) =~= x1 + met1);
    assert(calls_about(x2 + y2, pb) =~= always2 + boost2);
}

} // verus!
