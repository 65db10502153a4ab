//! What the rules of a configuration mean for the processes they name: which
//! names a rule is about, what it does to a process, and when.

use vstd::prelude::*;

use crate::actions::{
    has_bit, mask_has_listed_cores, mask_of, noted_all, same_bits_same_mask, BackendCall,
    ProcState, TargetAction,
};
use crate::config::{
    default_protected, protected_names, AlwaysView, BackgroundView, ConfigView, PriorityClass,
};
use crate::laws::applies;
use crate::policy::{
    affinity_action, always_actions, always_index, always_names, answers, attempts,
    background_actions, background_index, background_names, boosts_one, cores_fit, is_game,
    is_protected, priority_action, starts, EngineView, Mode,
};
use crate::proc_table::hash_of;
use crate::rules::{any_matches, first_match, first_match_is_earliest, folded, name_matches};
use crate::text::{fold, fold_is_idempotent, lower, occurs_at};

verus! {

// ---------------------------------------------------------------------------
// Names
// ---------------------------------------------------------------------------
/// The same character, but for the case of an ASCII letter.
pub open spec fn alike(a: char, b: char) -> bool {
    ||| a == b
    ||| 'A' <= a && a <= 'Z' && b as u32 == a as u32 + 32
    ||| 'A' <= b && b <= 'Z' && a as u32 == b as u32 + 32
}

/// The same text, but for the case of its ASCII letters.
pub open spec fn same_name(a: Seq<char>, b: Seq<char>) -> bool {
    a.len() == b.len() && forall|i: int| 0 <= i < a.len() ==> alike(#[trigger] a[i], b[i])
}

/// `part` stands somewhere in `name`, but for the case of its ASCII letters.
pub open spec fn named_in(part: Seq<char>, name: Seq<char>) -> bool {
    exists|k: int|
        0 <= k <= name.len() - part.len() && same_name(
            part,
            #[trigger] name.subrange(k, k + part.len()),
        )
}

proof fn alike_means(a: char, b: char)
    ensures
        alike(a, b) <==> lower(a) == lower(b),
{
    if lower(a) == lower(b) {
        assert(lower(a) as u32 == lower(b) as u32);
    }
}

/// Names that differ in ASCII case alone have the same lower-case form.
pub proof fn same_name_means(a: Seq<char>, b: Seq<char>)
    ensures
        same_name(a, b) <==> fold(a) == fold(b),
{
    if same_name(a, b) {
        assert forall|i: int| 0 <= i < a.len() implies fold(a)[i] == fold(b)[i] by {
            alike_means(a[i], b[i]);
        }
        assert(fold(a) =~= fold(b));
    }
    if fold(a) == fold(b) {
        assert(fold(a).len() == a.len() && fold(b).len() == b.len());
        assert forall|i: int| 0 <= i < a.len() implies alike(#[trigger] a[i], b[i]) by {
            assert(fold(a)[i] == fold(b)[i]);
            alike_means(a[i], b[i]);
        }
    }
}

/// What stands in a name is what a matcher finds in it.
pub proof fn named_means(part: Seq<char>, name: Seq<char>)
    ensures
        named_in(part, name) <==> name_matches(fold(part), name),
        named_in(part, name) <==> name_matches(part, name),
{
    fold_is_idempotent(part);
    let p = fold(part);
    let n = fold(name);
    assert forall|k: int| 0 <= k <= name.len() - part.len() implies (same_name(
        part,
        #[trigger] name.subrange(k, k + part.len()),
    ) <==> occurs_at(n, p, k)) by {
        same_name_means(part, name.subrange(k, k + part.len()));
        assert(fold(name.subrange(k, k + part.len())) =~= n.subrange(k, k + p.len()));
    }
    if named_in(part, name) {
        let k = choose|k: int|
            0 <= k <= name.len() - part.len() && same_name(
                part,
                #[trigger] name.subrange(k, k + part.len()),
            );
        assert(occurs_at(n, p, k));
    }
    if crate::text::contains(n, p) {
        let k = choose|k: int| #[trigger] occurs_at(n, p, k);
        assert(same_name(part, name.subrange(k, k + part.len())));
    }
}

/// `i` is the first entry of a list of names that stands in `name`.
pub open spec fn first_named(list: Seq<Seq<char>>, name: Seq<char>, i: int) -> bool {
    &&& 0 <= i < list.len()
    &&& named_in(list[i], name)
    &&& forall|j: int| 0 <= j < i ==> !named_in(#[trigger] list[j], name)
}

/// No entry of a list of names stands in `name`.
pub open spec fn none_named(list: Seq<Seq<char>>, name: Seq<char>) -> bool {
    forall|i: int| 0 <= i < list.len() ==> !named_in(#[trigger] list[i], name)
}

/// What the matchers find is what stands in a name.
#[verifier::rlimit(40)]
pub proof fn first_named_means(list: Seq<Seq<char>>, name: Seq<char>)
    ensures
        any_matches(folded(list), name) <==> !none_named(list, name),
        first_match(folded(list), name) is None <==> none_named(list, name),
        forall|i: int|
            first_named(list, name, i) <==> #[trigger] first_match(folded(list), name) == Some(i),
{
    let f = folded(list);
    first_match_is_earliest(f, name);
    assert forall|i: int| 0 <= i < list.len() implies (named_in(#[trigger] list[i], name)
        <==> name_matches(f[i], name)) by {
        named_means(list[i], name);
    }
    if any_matches(f, name) {
        let i = choose|i: int| 0 <= i < f.len() && name_matches(#[trigger] f[i], name);
        assert(named_in(list[i], name));
    }
    if !none_named(list, name) {
        let i = choose|i: int| 0 <= i < list.len() && named_in(#[trigger] list[i], name);
        assert(name_matches(f[i], name));
    }
    assert forall|i: int|
        first_named(list, name, i) <==> #[trigger] first_match(f, name) == Some(i) by {
        if first_named(list, name, i) {
            assert(name_matches(f[i], name));
            assert forall|j: int| 0 <= j < i implies !name_matches(#[trigger] f[j], name) by {
                assert(!named_in(list[j], name));
            }
            assert(crate::rules::is_first_match(f, name, i));
        }
        if first_match(f, name) == Some(i) {
            assert forall|j: int| 0 <= j < i implies !named_in(#[trigger] list[j], name) by {
                assert(!name_matches(f[j], name));
            }
        }
    }
}

/// A process is a game exactly when one of the configured names stands in its own,
/// in any ASCII case.
pub proof fn games_are_named(c: ConfigView, name: Seq<char>)
    ensures
        is_game(c, name) <==> exists|i: int|
            0 <= i < c.game.processes.len() && named_in(#[trigger] c.game.processes[i], name),
{
    first_named_means(c.game.processes, name);
}

/// The background rule for a process is the first whose name stands in its own;
/// there is none exactly when no name does.
pub proof fn first_background_rule_counts(c: ConfigView, name: Seq<char>, i: int)
    ensures
        background_index(c, name) == Some(i) <==> {
            &&& 0 <= i < c.background.len()
            &&& named_in(c.background[i].name, name)
            &&& forall|j: int| 0 <= j < i ==> !named_in((#[trigger] c.background[j]).name, name)
        },
        background_index(c, name) is None <==> forall|j: int|
            0 <= j < c.background.len() ==> !named_in((#[trigger] c.background[j]).name, name),
{
    let list = background_names(c);
    first_named_means(list, name);
    assert(first_named(list, name, i) <==> background_index(c, name) == Some(i));
    assert forall|j: int| 0 <= j < list.len() implies list[j] == (#[trigger] c.background[j]).name by {}
    if first_named(list, name, i) {
        assert forall|j: int| 0 <= j < i implies !named_in(
            (#[trigger] c.background[j]).name,
            name,
        ) by {
            assert(!named_in(list[j], name));
        }
    }
    if none_named(list, name) {
        assert forall|j: int| 0 <= j < c.background.len() implies !named_in(
            (#[trigger] c.background[j]).name,
            name,
        ) by {
            assert(!named_in(list[j], name));
        }
    }
}

/// The always-rule for a process is the first whose name stands in its own; there
/// is none exactly when no name does.
pub proof fn first_always_rule_counts(c: ConfigView, name: Seq<char>, i: int)
    ensures
        always_index(c, name) == Some(i) <==> {
            &&& 0 <= i < c.rule.len()
            &&& named_in(c.rule[i].name, name)
            &&& forall|j: int| 0 <= j < i ==> !named_in((#[trigger] c.rule[j]).name, name)
        },
        always_index(c, name) is None <==> forall|j: int|
            0 <= j < c.rule.len() ==> !named_in((#[trigger] c.rule[j]).name, name),
{
    let list = always_names(c);
    first_named_means(list, name);
    assert(first_named(list, name, i) <==> always_index(c, name) == Some(i));
    assert forall|j: int| 0 <= j < list.len() implies list[j] == (#[trigger] c.rule[j]).name by {}
    if first_named(list, name, i) {
        assert forall|j: int| 0 <= j < i implies !named_in((#[trigger] c.rule[j]).name, name) by {
            assert(!named_in(list[j], name));
        }
    }
    if none_named(list, name) {
        assert forall|j: int| 0 <= j < c.rule.len() implies !named_in(
            (#[trigger] c.rule[j]).name,
            name,
        ) by {
            assert(!named_in(list[j], name));
        }
    }
}

/// A process is protected when it has a name that is protected by default or by the
/// configuration, in any ASCII case; and a process that is protected has the hash of
/// such a name.
pub proof fn protected_names_are_protected(c: ConfigView, name: Seq<char>)
    ensures
        forall|i: int|
            0 <= i < default_protected().len() && same_name(
                #[trigger] default_protected()[i],
                name,
            ) ==> is_protected(c, name),
        forall|i: int|
            0 <= i < c.protected_extra.len() && same_name(#[trigger] c.protected_extra[i], name)
                ==> is_protected(c, name),
        is_protected(c, name) ==> {
            ||| exists|i: int|
                0 <= i < default_protected().len() && hash_of(#[trigger] default_protected()[i])
                    == hash_of(name)
            ||| exists|i: int|
                0 <= i < c.protected_extra.len() && hash_of(#[trigger] c.protected_extra[i])
                    == hash_of(name)
        },
{
    let all = protected_names(c.protected_extra);
    assert forall|p: Seq<char>| #[trigger] all.contains(fold(p)) && same_name(
        p,
        name,
    ) implies is_protected(c, name) by {
        same_name_means(p, name);
        crate::proc_table::hash_of_folded(name);
    }
    assert forall|i: int|
        0 <= i < default_protected().len() && same_name(
            #[trigger] default_protected()[i],
            name,
        ) implies is_protected(c, name) by {
        assert(all.contains(fold(default_protected()[i])));
    }
    assert forall|i: int|
        0 <= i < c.protected_extra.len() && same_name(
            #[trigger] c.protected_extra[i],
            name,
        ) implies is_protected(c, name) by {
        assert(all.contains(fold(c.protected_extra[i])));
    }
    if is_protected(c, name) {
        let p = choose|p: Seq<char>| #[trigger] all.contains(p) && hash_of(name) == hash_of(p);
        if exists|i: int|
            0 <= i < default_protected().len() && p == fold(#[trigger] default_protected()[i]) {
            let i = choose|i: int|
                0 <= i < default_protected().len() && p == fold(#[trigger] default_protected()[i]);
            crate::proc_table::hash_of_folded(default_protected()[i]);
            assert(hash_of(default_protected()[i]) == hash_of(name));
        } else {
            let i = choose|i: int|
                0 <= i < c.protected_extra.len() && p == fold(#[trigger] c.protected_extra[i]);
            crate::proc_table::hash_of_folded(c.protected_extra[i]);
            assert(hash_of(c.protected_extra[i]) == hash_of(name));
        }
    }
}

/// The processes that Windows itself rests on, and the service, are protected under every
/// configuration, in any ASCII case.
pub proof fn system_processes_are_protected(c: ConfigView, name: Seq<char>)
    requires
        same_name("csrss.exe"@, name) || same_name("services.exe"@, name) || same_name(
            "smss.exe"@,
            name,
        ) || same_name("wininit.exe"@, name) || same_name("winlogon.exe"@, name) || same_name(
            "dwm.exe"@,
            name,
        ) || same_name("lsass.exe"@, name) || same_name("explorer.exe"@, name) || same_name(
            "system"@,
            name,
        ) || same_name("aetheris.exe"@, name),
    ensures
        is_protected(c, name),
{
    let d = default_protected();
    protected_names_are_protected(c, name);
    assert(d.len() == 10);
    assert(d[0] == "csrss.exe"@ && d[1] == "services.exe"@ && d[2] == "smss.exe"@ && d[3]
        == "wininit.exe"@ && d[4] == "winlogon.exe"@ && d[5] == "dwm.exe"@ && d[6] == "lsass.exe"@
        && d[7] == "explorer.exe"@ && d[8] == "system"@ && d[9] == "aetheris.exe"@);
}

// ---------------------------------------------------------------------------
// Actions
// ---------------------------------------------------------------------------
/// A mask with a bit for each listed core and no other.
pub open spec fn is_mask(mask: u64, cores: Seq<u8>) -> bool {
    forall|c: u8| c < 64 ==> ((mask >> c) & 1 == 1 <==> #[trigger] cores.contains(c))
}

proof fn is_mask_means(mask: u64, cores: Seq<u8>)
    requires
        crate::actions::all_below_64(cores),
    ensures
        is_mask(mask, cores) <==> mask == mask_of(cores),
{
    assert forall|c: u8| c < 64 implies (#[trigger] cores.contains(c) <==> (mask_of(cores) >> c) & 1
        == 1) by {
        mask_has_listed_cores(cores, c);
    }
    if is_mask(mask, cores) {
        assert forall|c: u8| c < 64 implies has_bit(mask, c) == #[trigger] has_bit(
            mask_of(cores),
            c,
        ) by {
            assert(cores.contains(c) <==> (mask >> c) & 1 == 1);
        }
        same_bits_same_mask(mask, mask_of(cores));
    }
}

/// A background rule asks for an action.
pub open spec fn asked_by_rule(b: BackgroundView, a: TargetAction) -> bool {
    match a {
        TargetAction::Priority(p) => b.priority == Some(p),
        TargetAction::Affinity { core_mask } => b.affinity is Some && is_mask(
            core_mask,
            b.affinity->0,
        ),
        TargetAction::QosCpuQuota { percent } => b.qos_cpu_quota == Some(percent),
        TargetAction::Suspend => b.suspend,
        TargetAction::TrimMemory => b.trim_memory,
        TargetAction::Resume => false,
    }
}

/// An always-rule asks for an action.
pub open spec fn asked_by_always(r: AlwaysView, a: TargetAction) -> bool {
    match a {
        TargetAction::Priority(p) => r.priority == Some(p),
        TargetAction::Affinity { core_mask } => r.affinity is Some && is_mask(
            core_mask,
            r.affinity->0,
        ),
        _ => false,
    }
}

/// When an action comes among others: priority first, then affinity, quota,
/// suspension and trim.
pub open spec fn turn_of(a: TargetAction) -> int {
    match a {
        TargetAction::Priority(_) => 0,
        TargetAction::Affinity { core_mask: _ } => 1,
        TargetAction::QosCpuQuota { percent: _ } => 2,
        TargetAction::Suspend => 3,
        TargetAction::TrimMemory => 4,
        TargetAction::Resume => 5,
    }
}

/// Actions in turn, at most one of each kind.
pub open spec fn in_turn(actions: Seq<TargetAction>) -> bool {
    forall|i: int, j: int|
        0 <= i < j < actions.len() ==> turn_of(#[trigger] actions[i]) < turn_of(
            #[trigger] actions[j],
        )
}

/// The actions of a background rule are those it asks for and no other, each once
/// and in turn: its priority, its cores, its quota, its suspension and its trim.
#[verifier::rlimit(40)]
pub proof fn rule_gives_what_it_asks_for(b: BackgroundView)
    requires
        b.affinity is Some ==> forall|i: int|
            0 <= i < b.affinity->0.len() ==> #[trigger] b.affinity->0[i] < 64,
    ensures
        forall|a: TargetAction| #[trigger]
            background_actions(b).contains(a) <==> asked_by_rule(b, a),
        in_turn(background_actions(b)),
{
    let p1 = priority_action(b.priority);
    let p2 = affinity_action(b.affinity);
    let p3 = match b.qos_cpu_quota {
        Some(percent) => seq![TargetAction::QosCpuQuota { percent }],
        None => Seq::empty(),
    };
    let p4 = if b.suspend {
        seq![TargetAction::Suspend]
    } else {
        Seq::empty()
    };
    let p5 = if b.trim_memory {
        seq![TargetAction::TrimMemory]
    } else {
        Seq::empty()
    };
    one_more(p1, p2, 1);
    one_more(p1 + p2, p3, 2);
    one_more(p1 + p2 + p3, p4, 3);
    one_more(p1 + p2 + p3 + p4, p5, 4);
    assert(background_actions(b) == p1 + p2 + p3 + p4 + p5);
    assert forall|a: TargetAction| #[trigger] background_actions(b).contains(a) <==> asked_by_rule(
        b,
        a,
    ) by {
        affinity_part(b.affinity, a);
        priority_part(b.priority, a);
        assert(p3.contains(a) <==> p3.len() == 1 && p3[0] == a);
        assert(p4.contains(a) <==> p4.len() == 1 && p4[0] == a);
        assert(p5.contains(a) <==> p5.len() == 1 && p5[0] == a);
    }
}

proof fn one_more(acts: Seq<TargetAction>, part: Seq<TargetAction>, t: int)
    requires
        part.len() <= 1,
        part.len() == 1 ==> turn_of(part[0]) == t,
        in_turn(acts),
        forall|i: int| 0 <= i < acts.len() ==> turn_of(#[trigger] acts[i]) < t,
    ensures
        in_turn(acts + part),
        forall|i: int| 0 <= i < (acts + part).len() ==> turn_of(#[trigger] (acts + part)[i]) < t + 1,
        forall|a: TargetAction| #[trigger]
            (acts + part).contains(a) <==> acts.contains(a) || part.contains(a),
{
    let all = acts + part;
    assert forall|a: TargetAction| #[trigger] all.contains(a) <==> acts.contains(a)
        || part.contains(a) by {
        if acts.contains(a) {
            let i = choose|i: int| 0 <= i < acts.len() && acts[i] == a;
            assert(all[i] == a);
        }
        if part.contains(a) {
            assert(all[acts.len() as int] == a);
        }
        if all.contains(a) {
            let i = choose|i: int| 0 <= i < all.len() && all[i] == a;
            if i < acts.len() {
                assert(acts[i] == a);
            } else {
                assert(part[0] == a);
            }
        }
    }
}

proof fn affinity_part(affinity: Option<Seq<u8>>, a: TargetAction)
    requires
        affinity is Some ==> crate::actions::all_below_64(affinity->0),
    ensures
        affinity_action(affinity).contains(a) <==> match a {
            TargetAction::Affinity { core_mask } => affinity is Some && is_mask(
                core_mask,
                affinity->0,
            ),
            _ => false,
        },
{
    let part = affinity_action(affinity);
    assert(part.contains(a) <==> part.len() == 1 && part[0] == a);
    if affinity is Some {
        if let TargetAction::Affinity { core_mask } = a {
            is_mask_means(core_mask, affinity->0);
        }
    }
}

proof fn priority_part(priority: Option<PriorityClass>, a: TargetAction)
    ensures
        priority_action(priority).contains(a) <==> match a {
            TargetAction::Priority(p) => priority == Some(p),
            _ => false,
        },
{
    let part = priority_action(priority);
    assert(part.contains(a) <==> part.len() == 1 && part[0] == a);
}

/// The actions of the always-rule for a process are those that the first rule whose
/// name stands in its own asks for, priority before affinity; there is none where no
/// rule is about it. Whether the process is a game plays no part.
pub proof fn always_rule_gives_what_it_asks_for(c: ConfigView, name: Seq<char>, i: int)
    requires
        crate::policy::masks_fit(c),
    ensures
        first_named(c.rule.map_values(|r: AlwaysView| r.name), name, i) ==> {
            &&& forall|a: TargetAction| #[trigger]
                always_actions(c, name).contains(a) <==> asked_by_always(c.rule[i], a)
            &&& in_turn(always_actions(c, name))
        },
        none_named(c.rule.map_values(|r: AlwaysView| r.name), name) ==> always_actions(
            c,
            name,
        ).len() == 0,
{
    let list = c.rule.map_values(|r: AlwaysView| r.name);
    assert(list =~= always_names(c));
    first_named_means(list, name);
    if first_named(list, name, i) {
        assert(first_match(folded(list), name) == Some(i));
        let r = c.rule[i];
        assert(cores_fit(c.rule[i].affinity));
        let p1 = priority_action(r.priority);
        let p2 = affinity_action(r.affinity);
        one_more(p1, p2, 1);
        assert forall|a: TargetAction| #[trigger] always_actions(c, name).contains(a)
            <==> asked_by_always(r, a) by {
            affinity_part(r.affinity, a);
            priority_part(r.priority, a);
        }
    }
}

// ---------------------------------------------------------------------------
// A process starts
// ---------------------------------------------------------------------------
/// The action that a call applies.
pub open spec fn action_in(call: BackendCall) -> Option<TargetAction> {
    match call {
        BackendCall::Apply { pid: _, action, done: _ } => Some(action),
        _ => None,
    }
}

/// The calls apply actions to one process, in turn, and these are the actions for
/// which `asked` holds.
pub open spec fn applies_exactly(
    calls: Seq<BackendCall>,
    pid: u32,
    asked: spec_fn(TargetAction) -> bool,
) -> bool {
    &&& forall|i: int|
        0 <= i < calls.len() ==> action_in(#[trigger] calls[i]) is Some && applies(
            calls[i],
            pid,
            action_in(calls[i])->0,
        )
    &&& forall|a: TargetAction| #[trigger]
        asked(a) <==> exists|i: int| 0 <= i < calls.len() && applies(#[trigger] calls[i], pid, a)
    &&& forall|i: int, j: int|
        0 <= i < j < calls.len() ==> turn_of(action_in(#[trigger] calls[i])->0) < turn_of(
            action_in(#[trigger] calls[j])->0,
        )
}

#[verifier::rlimit(40)]
proof fn attempts_apply_exactly(
    pid: u32,
    actions: Seq<TargetAction>,
    done: Seq<bool>,
    asked: spec_fn(TargetAction) -> bool,
)
    requires
        forall|a: TargetAction| #[trigger] actions.contains(a) <==> asked(a),
        in_turn(actions),
    ensures
        applies_exactly(attempts(pid, actions, done), pid, asked),
{
    let calls = attempts(pid, actions, done);
    assert forall|a: TargetAction| #[trigger] asked(a) <==> exists|i: int|
        0 <= i < calls.len() && applies(#[trigger] calls[i], pid, a) by {
        if asked(a) {
            assert(actions.contains(a));
            let i = choose|i: int| 0 <= i < actions.len() && actions[i] == a;
            assert(applies(calls[i], pid, a));
        }
        if exists|i: int| 0 <= i < calls.len() && applies(#[trigger] calls[i], pid, a) {
            let i = choose|i: int| 0 <= i < calls.len() && applies(#[trigger] calls[i], pid, a);
            assert(actions[i] == a);
            assert(actions.contains(a));
        }
    }
    assert forall|i: int, j: int| 0 <= i < j < calls.len() implies turn_of(
        action_in(#[trigger] calls[i])->0,
    ) < turn_of(action_in(#[trigger] calls[j])->0) by {
        assert(turn_of(actions[i]) < turn_of(actions[j]));
    }
}

/// A process of this name gets nothing but its always-rule when it starts: it begins no boost,
/// being no game or one that is not boosted on start, and no background rule is for it, as no
/// boost is on, it is a game, or none names it.
pub open spec fn gets_always_rule_only(v: EngineView, name: Seq<char>) -> bool {
    let game = !none_named(v.cfg.game.processes, name);
    &&& !(game && v.cfg.game.boost_on_start)
    &&& v.mode == Mode::Normal || game || none_named(
        v.cfg.background.map_values(|b: BackgroundView| b.name),
        name,
    )
}

/// When a process with an unprotected name starts and some always-rule is about it,
/// the first calls apply to it what the first such rule asks for, in either mode and
/// also where the process is a game. Where nothing else is to be done to it, these are
/// all calls, and none where no rule is about it.
#[verifier::rlimit(40)]
pub proof fn start_applies_the_always_rule(
    v: EngineView,
    pid: u32,
    name: Seq<char>,
    calls: Seq<BackendCall>,
    w: EngineView,
    i: int,
)
    requires
        starts(v, pid, name, calls, w),
        crate::policy::masks_fit(v.cfg),
        !is_protected(v.cfg, name),
    ensures
        first_named(v.cfg.rule.map_values(|r: AlwaysView| r.name), name, i) ==> exists|n: int|
            0 <= n <= calls.len() && applies_exactly(
                #[trigger] calls.take(n),
                pid,
                |a: TargetAction| asked_by_always(v.cfg.rule[i], a),
            ) && (gets_always_rule_only(v, name) ==> n == calls.len()),
        none_named(v.cfg.rule.map_values(|r: AlwaysView| r.name), name) && gets_always_rule_only(
            v,
            name,
        ) ==> calls.len() == 0,
{
    always_rule_gives_what_it_asks_for(v.cfg, name, i);
    first_named_means(v.cfg.game.processes, name);
    let names = v.cfg.background.map_values(|b: BackgroundView| b.name);
    assert(names =~= background_names(v.cfg));
    first_named_means(names, name);
    let always = always_actions(v.cfg, name);
    let n = always.len() as int;
    if first_named(v.cfg.rule.map_values(|r: AlwaysView| r.name), name, i) {
        let asked = |a: TargetAction| asked_by_always(v.cfg.rule[i], a);
        let first = calls.take(n);
        attempts_apply_exactly(pid, always, answers(first), asked);
        assert(applies_exactly(calls.take(n), pid, asked));
    }
}

/// Calls that read a process and then do to it what a background rule asks for, and
/// what is kept of it for later: its priority and affinity as they were read, a
/// suspension that worked, and a cap that worked.
pub open spec fn rule_run(
    b: BackgroundView,
    pid: u32,
    calls: Seq<BackendCall>,
    kept: ProcState,
) -> bool {
    &&& calls.len() > 0
    &&& match calls[0] {
        BackendCall::Snapshot { pid: p, reply } => {
            &&& p == pid
            &&& reply is Some
            &&& kept.priority == reply->0.priority
            &&& kept.affinity == reply->0.affinity
            &&& kept.suspended <==> (reply->0.suspended || calls.contains(
                BackendCall::Apply { pid, action: TargetAction::Suspend, done: true },
            ))
            &&& kept.qos_percent == if b.qos_cpu_quota is Some && calls.contains(
                BackendCall::Apply {
                    pid,
                    action: TargetAction::QosCpuQuota { percent: b.qos_cpu_quota->0 },
                    done: true,
                },
            ) {
                b.qos_cpu_quota
            } else {
                reply->0.qos_percent
            }
        },
        _ => false,
    }
    &&& applies_exactly(calls.skip(1), pid, |a: TargetAction| asked_by_rule(b, a))
}

#[verifier::rlimit(40)]
proof fn noted_all_means(state: ProcState, actions: Seq<TargetAction>, done: Seq<bool>)
    requires
        actions.len() == done.len(),
    ensures
        noted_all(state, actions, done).priority == state.priority,
        noted_all(state, actions, done).affinity == state.affinity,
        noted_all(state, actions, done).suspended <==> state.suspended || exists|i: int|
            0 <= i < actions.len() && #[trigger] actions[i] == TargetAction::Suspend && done[i],
        forall|i: int|
            0 <= i < actions.len() && (#[trigger] actions[i]) is QosCpuQuota && done[i] && (
            forall|j: int| i < j < actions.len() ==> !((#[trigger] actions[j]) is QosCpuQuota))
                ==> noted_all(state, actions, done).qos_percent == Some(actions[i]->percent),
        (forall|i: int|
            0 <= i < actions.len() && (#[trigger] actions[i]) is QosCpuQuota ==> !done[i])
            ==> noted_all(state, actions, done).qos_percent == state.qos_percent,
    decreases actions.len(),
{
    if actions.len() > 0 {
        let ha = actions.drop_last();
        let hd = done.drop_last();
        noted_all_means(state, ha, hd);
        let last = actions.len() - 1;
        let head = noted_all(state, ha, hd);
        if exists|i: int|
            0 <= i < actions.len() && #[trigger] actions[i] == TargetAction::Suspend && done[i] {
            let i = choose|i: int|
                0 <= i < actions.len() && #[trigger] actions[i] == TargetAction::Suspend && done[i];
            if i < last {
                assert(ha[i] == TargetAction::Suspend && hd[i]);
            }
        }
        if head.suspended && !state.suspended {
            let i = choose|i: int|
                0 <= i < ha.len() && #[trigger] ha[i] == TargetAction::Suspend && hd[i];
            assert(actions[i] == TargetAction::Suspend && done[i]);
        }
        if actions[last] == TargetAction::Suspend && done[last] {
            assert(noted_all(state, actions, done).suspended);
        }
        assert forall|i: int|
            0 <= i < actions.len() && (#[trigger] actions[i]) is QosCpuQuota && done[i] && (
            forall|j: int| i < j < actions.len() ==> !((#[trigger] actions[j]) is QosCpuQuota))
            implies noted_all(state, actions, done).qos_percent == Some(actions[i]->percent) by {
            if i < last {
                assert(ha[i] == actions[i] && hd[i]);
                assert forall|j: int| i < j < ha.len() implies !((
                #[trigger] ha[j]) is QosCpuQuota) by {
                    assert(ha[j] == actions[j]);
                }
                assert(head.qos_percent == Some(ha[i]->percent));
                assert(!(actions[last] is QosCpuQuota));
            }
        }
        if forall|i: int|
            0 <= i < actions.len() && (#[trigger] actions[i]) is QosCpuQuota ==> !done[i] {
            assert forall|i: int|
                0 <= i < ha.len() && (#[trigger] ha[i]) is QosCpuQuota implies !hd[i] by {
                assert(actions[i] is QosCpuQuota);
            }
            if actions[last] is QosCpuQuota {
                assert(!done[last]);
            }
        }
    }
}

#[verifier::rlimit(40)]
proof fn quota_is_kept(
    b: BackgroundView,
    pid: u32,
    calls: Seq<BackendCall>,
    state: ProcState,
    kept: ProcState,
)
    requires
        calls.len() > 0,
        calls[0] is Snapshot,
        calls.skip(1) == attempts(pid, background_actions(b), answers(calls.skip(1))),
        kept == noted_all(state, background_actions(b), answers(calls.skip(1))),
        forall|a: TargetAction| #[trigger]
            background_actions(b).contains(a) <==> asked_by_rule(b, a),
        in_turn(background_actions(b)),
    ensures
        kept.qos_percent == if b.qos_cpu_quota is Some && calls.contains(
            BackendCall::Apply {
                pid,
                action: TargetAction::QosCpuQuota { percent: b.qos_cpu_quota->0 },
                done: true,
            },
        ) {
            b.qos_cpu_quota
        } else {
            state.qos_percent
        },
{
    let actions = background_actions(b);
    let rest = calls.skip(1);
    let done = answers(rest);
    assert(rest.len() == actions.len());
    noted_all_means(state, actions, done);
    let cap = BackendCall::Apply {
        pid,
        action: TargetAction::QosCpuQuota { percent: b.qos_cpu_quota->0 },
        done: true,
    };
    if b.qos_cpu_quota is Some && calls.contains(cap) {
        let k = choose|k: int| 0 <= k < calls.len() && calls[k] == cap;
        assert(rest[k - 1] == cap);
        assert(actions[k - 1] is QosCpuQuota && done[k - 1]);
        assert forall|j: int| k - 1 < j < actions.len() implies !((
        #[trigger] actions[j]) is QosCpuQuota) by {
            assert(turn_of(actions[k - 1]) < turn_of(actions[j]));
        }
        assert(kept.qos_percent == Some(actions[k - 1]->percent));
    } else {
        assert forall|i: int|
            0 <= i < actions.len() && (#[trigger] actions[i]) is QosCpuQuota implies !done[i] by {
            assert(actions.contains(actions[i]));
            assert(asked_by_rule(b, actions[i]));
            if done[i] {
                assert(rest[i] == cap);
                assert(calls[i + 1] == cap);
            }
        }
    }
}

/// A process that is met in a boost under a rule: where it can be read, it is run
/// through the rule and kept, and nothing else changes; where it cannot, nothing
/// happens.
#[verifier::rlimit(40)]
pub proof fn met_means(
    c: ConfigView,
    before: Map<u32, ProcState>,
    pid: u32,
    name: Seq<char>,
    calls: Seq<BackendCall>,
    after: Map<u32, ProcState>,
    i: int,
)
    requires
        boosts_one(c, before, pid, name, calls, after),
        crate::policy::masks_fit(c),
        !is_protected(c, name),
        first_named(c.background.map_values(|b: BackgroundView| b.name), name, i),
        !before.contains_key(pid),
    ensures
        after.contains_key(pid) ==> rule_run(c.background[i], pid, calls, after[pid]) && after
            == before.insert(pid, after[pid]),
        !after.contains_key(pid) ==> after == before && calls == seq![
            BackendCall::Snapshot { pid, reply: None },
        ],
{
    let list = c.background.map_values(|b: BackgroundView| b.name);
    assert(list =~= background_names(c));
    first_named_means(list, name);
    assert(first_match(folded(list), name) == Some(i));
    let b = c.background[i];
    assert(cores_fit(c.background[i].affinity));
    rule_gives_what_it_asks_for(b);
    let actions = background_actions(b);
    match calls[0] {
        BackendCall::Snapshot { pid: p, reply } => match reply {
            None => {
                assert(calls =~= seq![BackendCall::Snapshot { pid, reply: None }]);
            },
            Some(state) => {
                let rest = calls.skip(1);
                let done = answers(rest);
                assert(rest.len() == actions.len());
                noted_all_means(state, actions, done);
                attempts_apply_exactly(pid, actions, done, |a: TargetAction| asked_by_rule(b, a));
                let kept = after[pid];
                let halt = BackendCall::Apply { pid, action: TargetAction::Suspend, done: true };
                if kept.suspended && !state.suspended {
                    let k = choose|k: int|
                        0 <= k < actions.len() && #[trigger] actions[k] == TargetAction::Suspend
                            && done[k];
                    assert(rest[k] == halt);
                    assert(calls[k + 1] == halt);
                }
                if calls.contains(halt) {
                    let k = choose|k: int| 0 <= k < calls.len() && calls[k] == halt;
                    assert(rest[k - 1] == halt);
                    assert(actions[k - 1] == TargetAction::Suspend && done[k - 1]);
                }
                quota_is_kept(b, pid, calls, state, kept);
                assert(after =~= before.insert(pid, after[pid]));
            },
        },
        _ => {},
    }
}

/// A process that starts during a boost, is no game, has an unprotected name and is
/// named by a background rule is read, and where that works the first such rule is
/// applied to it in full and it is boosted from then on.
#[verifier::rlimit(40)]
pub proof fn start_in_a_boost_applies_the_rule(
    v: EngineView,
    pid: u32,
    name: Seq<char>,
    calls: Seq<BackendCall>,
    w: EngineView,
    i: int,
)
    requires
        starts(v, pid, name, calls, w),
        crate::policy::masks_fit(v.cfg),
        v.mode == Mode::GameBoost,
        !is_protected(v.cfg, name),
        none_named(v.cfg.game.processes, name),
        !v.games.contains(pid),
        !v.boosted.contains_key(pid),
        first_named(v.cfg.background.map_values(|b: BackgroundView| b.name), name, i),
    ensures
        w.mode == Mode::GameBoost,
        w.boosted.contains_key(pid) ==> exists|n: int|
            0 <= n <= calls.len() && rule_run(
                v.cfg.background[i],
                pid,
                #[trigger] calls.skip(n),
                w.boosted[pid],
            ),
        !w.boosted.contains_key(pid) ==> calls.len() > 0 && calls.last() == (BackendCall::Snapshot {
            pid,
            reply: None,
        }),
        forall|p: u32|
            p != pid ==> (#[trigger] w.boosted.contains_key(p) <==> v.boosted.contains_key(p)),
        forall|p: u32|
            p != pid && #[trigger] v.boosted.contains_key(p) ==> w.boosted[p] == v.boosted[p],
{
    first_named_means(v.cfg.game.processes, name);
    let n = always_actions(v.cfg, name).len() as int;
    met_means(v.cfg, v.boosted, pid, name, calls.skip(n), w.boosted, i);
    if w.boosted.contains_key(pid) {
        assert(rule_run(v.cfg.background[i], pid, calls.skip(n), w.boosted[pid]));
    } else {
        assert(calls.skip(n).last() == calls.last());
    }
}

} // verus!
