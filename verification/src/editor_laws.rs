//! What the editor's controls stand for, and what becomes of them.

use vstd::prelude::*;

use crate::config::{valid_config, BackgroundView, PriorityClass};
use crate::editor::{
    appended, apply_clicked, built_config, checked_of, config_answered, edited_row_is_found,
    is_checked, override_of, representative, rule_of, save_clicked, saved_rule, toggles_for,
    toggles_of, without_override, FieldsView, ListKind, Toggles, UiView,
};
use crate::ipc::Response;
use crate::text::{is_space, trim_takes_outer_space};
use crate::ui::{affinity_in, quota_in, toggled_rule};

verus! {

// ---------------------------------------------------------------------------
// Checked rows
// ---------------------------------------------------------------------------
/// `out` holds the checked entries of a list and no other, in their order: entry `k` of it
/// is entry `at[k]` of the list.
pub open spec fn picks<T>(list: Seq<T>, checked: Seq<bool>, out: Seq<T>, at: Seq<int>) -> bool {
    &&& out.len() == at.len()
    &&& forall|k: int|
        0 <= k < at.len() ==> 0 <= #[trigger] at[k] < list.len() && at[k] < checked.len()
            && checked[at[k]] && out[k] == list[at[k]]
    &&& forall|k: int, l: int| 0 <= k < l < at.len() ==> #[trigger] at[k] < #[trigger] at[l]
    &&& forall|i: int|
        0 <= i < list.len() && i < checked.len() && #[trigger] checked[i] ==> at.contains(i)
}

#[verifier::rlimit(40)]
proof fn checked_are_picked<T>(list: Seq<T>, checked: Seq<bool>, n: int) -> (at: Seq<int>)
    requires
        0 <= n <= list.len(),
    ensures
        checked_of(list, checked, n).len() == at.len(),
        forall|k: int|
            0 <= k < at.len() ==> 0 <= #[trigger] at[k] < n && at[k] < checked.len()
                && checked[at[k]] && checked_of(list, checked, n)[k] == list[at[k]],
        forall|k: int, l: int| 0 <= k < l < at.len() ==> #[trigger] at[k] < #[trigger] at[l],
        forall|i: int| 0 <= i < n && i < checked.len() && #[trigger] checked[i] ==> at.contains(i),
    decreases n,
{
    if n == 0 {
        Seq::empty()
    } else {
        let before = checked_are_picked(list, checked, n - 1);
        if is_checked(checked, n - 1) {
            let at = before.push(n - 1);
            assert forall|i: int|
                0 <= i < n && i < checked.len() && #[trigger] checked[i] implies at.contains(i) by {
                if i < n - 1 {
                    assert(before.contains(i));
                    let k = choose|k: int| 0 <= k < before.len() && before[k] == i;
                    assert(at[k] == i);
                } else {
                    assert(at[before.len() as int] == i);
                }
            }
            at
        } else {
            before
        }
    }
}

/// A click on "save" keeps the checked games and no other, in order, and everything of the
/// configuration that the editor does not show.
pub proof fn save_keeps_the_checked_games(
    v: UiView,
    games: Seq<bool>,
    rows: Seq<bool>,
    t: Toggles,
)
    ensures
        exists|at: Seq<int>| #[trigger]
            picks(
                v.cfg.game.processes,
                games,
                built_config(v, games, rows, t).game.processes,
                at,
            ),
        ({
            let c = built_config(v, games, rows, t);
            &&& c.game.boost_on_start == v.cfg.game.boost_on_start
            &&& c.game.purge_standby_on_boost == v.cfg.game.purge_standby_on_boost
            &&& c.rule == v.cfg.rule
            &&& c.protected_extra == v.cfg.protected_extra
            &&& c.network == v.cfg.network
            &&& c.hotkey == v.cfg.hotkey
        }),
{
    let list = v.cfg.game.processes;
    let at = checked_are_picked(list, games, list.len() as int);
    assert(picks(list, games, built_config(v, games, rows, t).game.processes, at));
}

/// The first rule of a name in a list.
pub open spec fn first_of_name(list: Seq<BackgroundView>, name: Seq<char>, k: int) -> bool {
    &&& 0 <= k < list.len()
    &&& list[k].name == name
    &&& forall|j: int| 0 <= j < k ==> (#[trigger] list[j]).name != name
}

/// No rule of a list has the name.
pub open spec fn none_of_name(list: Seq<BackgroundView>, name: Seq<char>) -> bool {
    forall|j: int| 0 <= j < list.len() ==> (#[trigger] list[j]).name != name
}

proof fn override_means(list: Seq<BackgroundView>, name: Seq<char>)
    ensures
        none_of_name(list, name) <==> override_of(list, name) is None,
        forall|k: int| #[trigger]
            first_of_name(list, name, k) ==> override_of(list, name) == Some(list[k]),
    decreases list.len(),
{
    if list.len() > 0 {
        let rest = list.skip(1);
        override_means(rest, name);
        if none_of_name(list, name) {
            assert(list[0].name != name);
            assert forall|j: int| 0 <= j < rest.len() implies (#[trigger] rest[j]).name != name by {
                assert(rest[j] == list[j + 1]);
            }
        } else {
            let j = choose|j: int| 0 <= j < list.len() && (#[trigger] list[j]).name == name;
            if j > 0 {
                assert(rest[j - 1].name == name);
            }
        }
        assert forall|k: int| #[trigger] first_of_name(list, name, k) implies override_of(
            list,
            name,
        ) == Some(list[k]) by {
            if k > 0 {
                assert(list[0].name != name);
                assert(rest[k - 1] == list[k]);
                assert forall|j: int| 0 <= j < k - 1 implies (#[trigger] rest[j]).name != name by {
                    assert(rest[j] == list[j + 1]);
                }
                assert(first_of_name(rest, name, k - 1));
            }
        }
    }
}

/// A rule as the global options make it: the name of its row, and exactly what is switched
/// on: a suspension, a lowered priority, a cap of 30, 50 or 70 percent, a trim.
pub open spec fn as_options_say(b: BackgroundView, name: Seq<char>, t: Toggles) -> bool {
    &&& b.name == name
    &&& b.suspend == t.suspend
    &&& b.trim_memory == t.trim_memory
    &&& b.affinity is None
    &&& t.low_priority ==> b.priority == Some(PriorityClass::BelowNormal)
    &&& !t.low_priority ==> b.priority is None
    &&& !t.cpu_limit ==> b.qos_cpu_quota is None
    &&& t.cpu_limit && t.cpu_level == 0 ==> b.qos_cpu_quota == Some(30u32)
    &&& t.cpu_limit && t.cpu_level != 0 && t.cpu_level != 2 ==> b.qos_cpu_quota == Some(50u32)
    &&& t.cpu_limit && t.cpu_level == 2 ==> b.qos_cpu_quota == Some(70u32)
}

/// A click on "save" makes a rule of each checked background row and of no other, in order:
/// one that was edited on its own as it was edited, every other as the global options say.
#[verifier::rlimit(40)]
pub proof fn save_makes_rules_of_the_checked_rows(
    v: UiView,
    games: Seq<bool>,
    rows: Seq<bool>,
    t: Toggles,
)
    ensures
        exists|picked: Seq<BackgroundView>, at: Seq<int>|
            {
                &&& #[trigger] picks(v.cfg.background, rows, picked, at)
                &&& built_config(v, games, rows, t).background.len() == picked.len()
                &&& forall|k: int|
                    0 <= k < picked.len() ==> {
                        let b = built_config(v, games, rows, t).background[k];
                        let name = (#[trigger] picked[k]).name;
                        &&& none_of_name(v.overrides, name) ==> as_options_say(b, name, t)
                        &&& forall|j: int| #[trigger]
                            first_of_name(v.overrides, name, j) ==> b == v.overrides[j]
                    }
            },
{
    let list = v.cfg.background;
    let n = list.len() as int;
    let at = checked_are_picked(list, rows, n);
    let picked = checked_of(list, rows, n);
    assert(picks(list, rows, picked, at));
    let built = built_config(v, games, rows, t).background;
    assert forall|k: int| 0 <= k < picked.len() implies {
        let b = built[k];
        let name = (#[trigger] picked[k]).name;
        &&& none_of_name(v.overrides, name) ==> as_options_say(b, name, t)
        &&& forall|j: int| #[trigger]
            first_of_name(v.overrides, name, j) ==> b == v.overrides[j]
    } by {
        let name = picked[k].name;
        override_means(v.overrides, name);
        assert(built[k] == saved_rule(name, v.overrides, t));
    }
}

/// A click on "save" sends what the controls stand for exactly when the configuration was
/// loaded without an error, no save is under way, and every rule is in order; the editor
/// then goes on from what it sent. Otherwise it keeps what it had.
pub proof fn save_sends_what_the_controls_say(
    v: UiView,
    games: Seq<bool>,
    rows: Seq<bool>,
    t: Toggles,
)
    ensures
        ({
            let (sent, w) = save_clicked(v, games, rows, t);
            let built = built_config(v, games, rows, t);
            &&& sent is Some <==> !v.save_in_flight && v.init_error is None && v.config_loaded
                && valid_config(built)
            &&& sent is Some ==> sent->0 == built && w.cfg == built && w.save_in_flight
            &&& sent is None ==> w.cfg == v.cfg && w.overrides == v.overrides && w.save_in_flight
                == v.save_in_flight
        }),
{
    crate::config::no_problem_means_valid(built_config(v, games, rows, t));
}

/// The global options are found again from a rule that they made.
pub proof fn options_come_back(name: Seq<char>, t: Toggles)
    requires
        t.cpu_level <= 2,
    ensures
        ({
            let b = toggled_rule(
                name,
                t.suspend,
                t.low_priority,
                t.cpu_limit,
                crate::ui::level_quota(t.cpu_level),
                t.trim_memory,
            );
            let back = toggles_of(b);
            &&& back.suspend == t.suspend
            &&& back.low_priority == t.low_priority
            &&& back.cpu_limit == t.cpu_limit
            &&& back.trim_memory == t.trim_memory
            &&& t.cpu_limit ==> back.cpu_level == t.cpu_level
            &&& as_options_say(b, name, t)
        }),
{
}

/// The global options show the first background rule that was not edited on its own.
pub proof fn options_show_the_first_plain_rule(v: UiView, k: int)
    requires
        0 <= k < v.cfg.background.len(),
        none_of_name(v.overrides, v.cfg.background[k].name),
        forall|j: int|
            0 <= j < k ==> !none_of_name(v.overrides, (#[trigger] v.cfg.background[j]).name),
    ensures
        ({
            let b = v.cfg.background[k];
            let t = toggles_for(v);
            &&& t.suspend == b.suspend
            &&& t.low_priority == (b.priority is Some)
            &&& t.cpu_limit == (b.qos_cpu_quota is Some)
            &&& t.trim_memory == b.trim_memory
            &&& b.qos_cpu_quota == Some(30u32) ==> t.cpu_level == 0
            &&& b.qos_cpu_quota == Some(70u32) ==> t.cpu_level == 2
            &&& b.qos_cpu_quota != Some(30u32) && b.qos_cpu_quota != Some(70u32) ==> t.cpu_level
                == 1
        }),
{
    representative_means(v.cfg.background, v.overrides, k);
}

proof fn representative_means(
    rules: Seq<BackgroundView>,
    overrides: Seq<BackgroundView>,
    k: int,
)
    requires
        0 <= k < rules.len(),
        none_of_name(overrides, rules[k].name),
        forall|j: int| 0 <= j < k ==> !none_of_name(overrides, (#[trigger] rules[j]).name),
    ensures
        representative(rules, overrides) == rules[k],
    decreases k,
{
    override_means(overrides, rules[0].name);
    if k > 0 {
        let rest = rules.skip(1);
        assert(!none_of_name(overrides, rules[0].name));
        assert(rest[k - 1] == rules[k]);
        assert forall|j: int| 0 <= j < k - 1 implies !none_of_name(
            overrides,
            (#[trigger] rest[j]).name,
        ) by {
            assert(rest[j] == rules[j + 1]);
        }
        representative_means(rest, overrides, k - 1);
    }
}

// ---------------------------------------------------------------------------
// Names and rows
// ---------------------------------------------------------------------------
/// A name that is added, whatever white space stands round it, is in its list afterwards;
/// it comes last if it was not there, and nothing is added if it was. The entries before it,
/// the other list and all else of the configuration stay.
#[verifier::rlimit(40)]
pub proof fn added_name_is_listed(
    v: UiView,
    kind: ListKind,
    before: Seq<char>,
    name: Seq<char>,
    after: Seq<char>,
)
    requires
        forall|i: int| 0 <= i < before.len() ==> is_space(#[trigger] before[i]),
        forall|i: int| 0 <= i < after.len() ==> is_space(#[trigger] after[i]),
        name.len() > 0 ==> !is_space(name[0]) && !is_space(name.last()),
    ensures
        ({
            let w = appended(v, kind, before + name + after);
            &&& name.len() == 0 ==> w == v
            &&& name.len() > 0 && kind == ListKind::Game ==> {
                &&& v.cfg.game.processes.contains(name) ==> w.cfg == v.cfg
                &&& !v.cfg.game.processes.contains(name) ==> w.cfg.game.processes
                    == v.cfg.game.processes.push(name)
                &&& w.cfg.background == v.cfg.background
            }
            &&& name.len() > 0 && kind == ListKind::Background ==> {
                &&& !none_of_name(v.cfg.background, name) ==> w.cfg == v.cfg
                &&& none_of_name(v.cfg.background, name) ==> {
                    let n = v.cfg.background.len() as int;
                    &&& w.cfg.background.len() == n + 1
                    &&& w.cfg.background.take(n) == v.cfg.background
                    &&& w.cfg.background[n].name == name
                    &&& !w.cfg.background[n].suspend && !w.cfg.background[n].trim_memory
                    &&& w.cfg.background[n].priority is None && w.cfg.background[n].affinity is None
                    &&& w.cfg.background[n].qos_cpu_quota is None
                }
                &&& w.cfg.game == v.cfg.game
            }
            &&& w.cfg.rule == v.cfg.rule
            &&& w.cfg.protected_extra == v.cfg.protected_extra
            &&& w.overrides == v.overrides
        }),
{
    trim_takes_outer_space(before, name, after);
    let w = appended(v, kind, before + name + after);
    if name.len() > 0 && kind == ListKind::Background && none_of_name(v.cfg.background, name) {
        assert(!crate::editor::has_rule(v.cfg.background, name));
        assert(w.cfg.background.take(v.cfg.background.len() as int) =~= v.cfg.background);
    }
    if name.len() > 0 && kind == ListKind::Background && !none_of_name(v.cfg.background, name) {
        let j = choose|j: int|
            0 <= j < v.cfg.background.len() && (#[trigger] v.cfg.background[j]).name == name;
        assert(crate::editor::has_rule(v.cfg.background, name));
    }
}

/// The priority classes in the order of their list.
pub open spec fn priority_listed(index: usize) -> Option<PriorityClass> {
    if index == 0 {
        Some(PriorityClass::Idle)
    } else if index == 1 {
        Some(PriorityClass::BelowNormal)
    } else if index == 2 {
        Some(PriorityClass::Normal)
    } else if index == 3 {
        Some(PriorityClass::AboveNormal)
    } else if index == 4 {
        Some(PriorityClass::High)
    } else if index == 5 {
        Some(PriorityClass::Realtime)
    } else {
        None
    }
}

/// Fields that can be read and are applied to a row are what is kept for that row, under the
/// name they give it; every row of another name keeps what was kept for it, and no row comes
/// or goes.
#[verifier::rlimit(40)]
pub proof fn applied_fields_are_kept(
    v: UiView,
    row: usize,
    rows: usize,
    f: FieldsView,
    other: Seq<char>,
)
    requires
        row < v.cfg.background.len(),
        crate::text::trimmed(f.name).len() > 0,
        affinity_in(f.affinity) is Ok,
        quota_in(f.qos) is Ok,
    ensures
        ({
            let (renamed, w) = apply_clicked(v, Some(row), rows, f);
            let name = crate::text::trimmed(f.name);
            let old = v.cfg.background[row as int].name;
            let kept = override_of(w.overrides, name);
            &&& renamed <==> name != old
            &&& kept is Some
            &&& kept->0.name == name
            &&& kept->0.suspend == f.suspend
            &&& kept->0.trim_memory == f.trim_memory
            &&& kept->0.priority == priority_listed(f.priority_idx)
            &&& kept->0.affinity == affinity_in(f.affinity)->Ok_0
            &&& kept->0.qos_cpu_quota == quota_in(f.qos)->Ok_0
            &&& other != name && other != old ==> override_of(w.overrides, other) == override_of(
                v.overrides,
                other,
            )
            &&& w.cfg.background.len() == v.cfg.background.len()
            &&& w.cfg.background[row as int].name == name
            &&& forall|i: int|
                0 <= i < v.cfg.background.len() && i != row ==> #[trigger] w.cfg.background[i]
                    == v.cfg.background[i]
            &&& w.cfg.game == v.cfg.game && w.cfg.rule == v.cfg.rule
        }),
{
    let rule = rule_of(f);
    let old = v.cfg.background[row as int].name;
    edited_row_is_found(v.overrides, rule, other);
    let left = without_override(v.overrides, old);
    edited_row_is_found(left, rule, other);
    if other != old {
        crate::editor::removal_leaves_others(v.overrides, old, other);
    }
}

/// Fields that cannot be read, or that name no row, leave the configuration and every edited
/// row as they are.
pub proof fn unreadable_fields_change_nothing(
    v: UiView,
    selected: Option<usize>,
    rows: usize,
    f: FieldsView,
)
    requires
        crate::text::trimmed(f.name).len() == 0 || affinity_in(f.affinity) is Err || quota_in(
            f.qos,
        ) is Err || (selected is None && rows == 0),
    ensures
        !apply_clicked(v, selected, rows, f).0,
        apply_clicked(v, selected, rows, f).1.cfg == v.cfg,
        apply_clicked(v, selected, rows, f).1.overrides == v.overrides,
{
}

/// A configuration that arrives replaces what was edited and opens saving; any other answer
/// leaves the configuration alone and blocks saving.
pub proof fn answers_open_or_block_saving(
    v: UiView,
    r: Result<Response, String>,
    games: Seq<bool>,
    rows: Seq<bool>,
    t: Toggles,
)
    ensures
        ({
            let w = config_answered(v, r);
            &&& r is Ok && r->Ok_0 is Config ==> {
                &&& w.cfg == r->Ok_0->Config_0@
                &&& w.overrides.len() == 0
                &&& w.config_loaded && w.init_error is None
                &&& w.save_in_flight == v.save_in_flight
            }
            &&& !(r is Ok && r->Ok_0 is Config) ==> {
                &&& w.cfg == v.cfg
                &&& w.overrides == v.overrides
                &&& save_clicked(w, games, rows, t).0 is None
            }
        }),
{
}

} // verus!
