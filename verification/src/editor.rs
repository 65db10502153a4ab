//! The state of the rule editor and what happens to it.
//!
//! The controls on the screen are read and written by the caller; here they are
//! values: which rows are checked, which row is selected, what the fields hold.

use vstd::prelude::*;

use crate::config::{
    background_views, config_problem, empty_config, BackgroundRule, BackgroundView, Config,
    ConfigView, GameView,
};
use crate::i18n::Lang;
use crate::ipc::Response;
use crate::strings::{text_for, tr};
use crate::text::{
    copy_text, decimal, decimal_text, join2, same_text, text_in, texts, trim, trimmed,
};
use crate::ui::{
    affinity_in, affinity_text, bg_rule_from_toggles, cores_text, cpu_level_to_pct, idx_to_priority,
    level_quota, needs_elevation, parse_affinity, parse_qos, pct_to_cpu_level, priority_at,
    priority_index, priority_to_idx, quota_in, quota_level, speaks_of_elevation, toggled_rule,
};

verus! {

/// The calls to the service that the editor makes in the background.
#[derive(Debug, Clone, Copy, PartialEq, Eq, Structural)]
pub enum IpcCall {
    GetConfig,
    GetState,
    Save,
}

impl IpcCall {
    pub open spec fn number(self) -> usize {
        match self {
            IpcCall::GetConfig => 0,
            IpcCall::GetState => 1,
            IpcCall::Save => 2,
        }
    }

    pub fn as_wparam(self) -> (r: usize)
        ensures
            r == self.number(),
    {
        match self {
            IpcCall::GetConfig => 0,
            IpcCall::GetState => 1,
            IpcCall::Save => 2,
        }
    }

    /// The call with a number.
    pub fn from_wparam(w: usize) -> (r: Option<IpcCall>)
        ensures
            r is Some <==> w <= 2,
            r is Some ==> r->0.number() == w,
    {
        match w {
            0 => Some(IpcCall::GetConfig),
            1 => Some(IpcCall::GetState),
            2 => Some(IpcCall::Save),
            _ => None,
        }
    }
}

/// The two lists of the editor.
#[derive(Debug, Clone, Copy, PartialEq, Eq, Structural)]
pub enum ListKind {
    Game,
    Background,
}

impl ListKind {
    pub open spec fn number(self) -> usize {
        match self {
            ListKind::Game => 0,
            ListKind::Background => 1,
        }
    }

    pub fn to_usize(self) -> (r: usize)
        ensures
            r == self.number(),
    {
        match self {
            ListKind::Game => 0,
            ListKind::Background => 1,
        }
    }

    /// The list with a number.
    pub fn from_usize(u: usize) -> (r: Option<ListKind>)
        ensures
            r is Some <==> u <= 1,
            r is Some ==> r->0.number() == u,
    {
        match u {
            0 => Some(ListKind::Game),
            1 => Some(ListKind::Background),
            _ => None,
        }
    }
}

/// The global options.
#[derive(Debug, Clone, Copy, PartialEq, Eq, Structural)]
pub struct Toggles {
    pub suspend: bool,
    pub low_priority: bool,
    pub cpu_limit: bool,
    pub cpu_level: usize,
    pub trim_memory: bool,
}

/// The fields of the advanced editor.
#[derive(Debug)]
pub struct RowFields {
    pub name: String,
    pub priority_idx: usize,
    pub affinity: String,
    pub qos: String,
    pub suspend: bool,
    pub trim_memory: bool,
}

/// The fields as values.
pub struct FieldsView {
    pub name: Seq<char>,
    pub priority_idx: usize,
    pub affinity: Seq<char>,
    pub qos: Seq<char>,
    pub suspend: bool,
    pub trim_memory: bool,
}

impl View for RowFields {
    type V = FieldsView;

    open spec fn view(&self) -> FieldsView {
        FieldsView {
            name: self.name@,
            priority_idx: self.priority_idx,
            affinity: self.affinity@,
            qos: self.qos@,
            suspend: self.suspend,
            trim_memory: self.trim_memory,
        }
    }
}

/// The state of the editor. `overrides` holds the rules of rows that were edited
/// on their own; a row is found in it by its name.
#[derive(Debug)]
pub struct UiState {
    pub lang: Lang,
    pub cfg: Config,
    /// Why the configuration could not be loaded, until it is.
    pub init_error: Option<String>,
    pub config_loaded: bool,
    pub save_in_flight: bool,
    /// The mode that the service last reported; empty when it did not answer.
    pub mode: String,
    pub cpu_level: usize,
    pub advanced_expanded: bool,
    pub overrides: Vec<BackgroundRule>,
    pub status_probe_in_flight: bool,
    /// The line that tells the outcome of the last action.
    pub result: String,
    /// The tray icon shows a running service.
    pub tray_running: bool,
}

/// The editor as a value.
pub struct UiView {
    pub lang: Lang,
    pub cfg: ConfigView,
    pub init_error: Option<Seq<char>>,
    pub config_loaded: bool,
    pub save_in_flight: bool,
    pub mode: Seq<char>,
    pub cpu_level: usize,
    pub advanced_expanded: bool,
    pub overrides: Seq<BackgroundView>,
    pub status_probe_in_flight: bool,
    pub result: Seq<char>,
    pub tray_running: bool,
}

impl View for UiState {
    type V = UiView;

    open spec fn view(&self) -> UiView {
        UiView {
            lang: self.lang,
            cfg: self.cfg@,
            init_error: text_in(self.init_error),
            config_loaded: self.config_loaded,
            save_in_flight: self.save_in_flight,
            mode: self.mode@,
            cpu_level: self.cpu_level,
            advanced_expanded: self.advanced_expanded,
            overrides: background_views(self.overrides@),
            status_probe_in_flight: self.status_probe_in_flight,
            result: self.result@,
            tray_running: self.tray_running,
        }
    }
}

// ---------------------------------------------------------------------------
// Models
// ---------------------------------------------------------------------------
/// A text of the editor with something appended.
pub open spec fn line(lang: Lang, key: Seq<char>, what: Seq<char>) -> Seq<char> {
    text_for(lang, key) + ": "@ + what
}

/// The override of a row.
pub open spec fn override_of(
    overrides: Seq<BackgroundView>,
    name: Seq<char>,
) -> Option<BackgroundView>
    decreases overrides.len(),
{
    if overrides.len() == 0 {
        None
    } else if overrides[0].name == name {
        Some(overrides[0])
    } else {
        override_of(overrides.skip(1), name)
    }
}

/// The overrides without those of a name.
pub open spec fn without_override(
    overrides: Seq<BackgroundView>,
    name: Seq<char>,
) -> Seq<BackgroundView>
    decreases overrides.len(),
{
    if overrides.len() == 0 {
        Seq::empty()
    } else {
        let before = without_override(overrides.drop_last(), name);
        if overrides.last().name == name {
            before
        } else {
            before.push(overrides.last())
        }
    }
}

/// The overrides with a rule put in, in place of one of the same name.
pub open spec fn with_override(
    overrides: Seq<BackgroundView>,
    rule: BackgroundView,
) -> Seq<BackgroundView> {
    without_override(overrides, rule.name).push(rule)
}

/// Some rule has the name.
pub open spec fn has_rule(rules: Seq<BackgroundView>, name: Seq<char>) -> bool {
    exists|i: int| 0 <= i < rules.len() && (#[trigger] rules[i]).name == name
}

/// The overrides of rows that are still there.
pub open spec fn surviving(
    overrides: Seq<BackgroundView>,
    rules: Seq<BackgroundView>,
) -> Seq<BackgroundView>
    decreases overrides.len(),
{
    if overrides.len() == 0 {
        Seq::empty()
    } else {
        let before = surviving(overrides.drop_last(), rules);
        if has_rule(rules, overrides.last().name) {
            before.push(overrides.last())
        } else {
            before
        }
    }
}

/// Row `i` is checked.
pub open spec fn is_checked(checked: Seq<bool>, i: int) -> bool {
    0 <= i < checked.len() && checked[i]
}

/// The entries of the first `n` rows that are checked, in order.
pub open spec fn checked_of<T>(list: Seq<T>, checked: Seq<bool>, n: int) -> Seq<T>
    decreases n,
{
    if n <= 0 {
        Seq::empty()
    } else {
        let before = checked_of(list, checked, n - 1);
        if is_checked(checked, n - 1) {
            before.push(list[n - 1])
        } else {
            before
        }
    }
}

/// The rule that a background row is saved as: its override if it has one, else
/// what the global options say.
pub open spec fn saved_rule(
    name: Seq<char>,
    overrides: Seq<BackgroundView>,
    t: Toggles,
) -> BackgroundView {
    match override_of(overrides, name) {
        Some(rule) => rule,
        None => toggled_rule(
            name,
            t.suspend,
            t.low_priority,
            t.cpu_limit,
            level_quota(t.cpu_level),
            t.trim_memory,
        ),
    }
}

/// The configuration that the controls stand for: the checked games, and the
/// checked background rows as they are saved; everything else is kept.
pub open spec fn built_config(
    v: UiView,
    games: Seq<bool>,
    rows: Seq<bool>,
    t: Toggles,
) -> ConfigView {
    ConfigView {
        game: GameView {
            processes: checked_of(v.cfg.game.processes, games, v.cfg.game.processes.len() as int),
            ..v.cfg.game
        },
        background: checked_of(v.cfg.background, rows, v.cfg.background.len() as int).map_values(
            |b: BackgroundView| saved_rule(b.name, v.overrides, t),
        ),
        ..v.cfg
    }
}

/// A rule in which nothing is set.
pub open spec fn plain_rule(name: Seq<char>) -> BackgroundView {
    BackgroundView {
        name,
        suspend: false,
        priority: None,
        affinity: None,
        qos_cpu_quota: None,
        trim_memory: false,
    }
}

/// The first rule without an override; a plain one where there is none.
pub open spec fn representative(
    rules: Seq<BackgroundView>,
    overrides: Seq<BackgroundView>,
) -> BackgroundView
    decreases rules.len(),
{
    if rules.len() == 0 {
        plain_rule(Seq::empty())
    } else if override_of(overrides, rules[0].name) is None {
        rules[0]
    } else {
        representative(rules.skip(1), overrides)
    }
}

/// The global options that show a rule.
pub open spec fn toggles_of(b: BackgroundView) -> Toggles {
    Toggles {
        suspend: b.suspend,
        low_priority: b.priority is Some,
        cpu_limit: b.qos_cpu_quota is Some,
        cpu_level: match b.qos_cpu_quota {
            Some(q) => quota_level(q),
            None => 1,
        },
        trim_memory: b.trim_memory,
    }
}

/// The global options that show a configuration.
pub open spec fn toggles_for(v: UiView) -> Toggles {
    toggles_of(representative(v.cfg.background, v.overrides))
}

/// The editor after a name was added to a list. A blank name changes nothing; a
/// name that is there is not added again.
pub open spec fn appended(v: UiView, kind: ListKind, name: Seq<char>) -> UiView {
    let t = trimmed(name);
    if t.len() == 0 {
        v
    } else {
        let cfg = match kind {
            ListKind::Game => if v.cfg.game.processes.contains(t) {
                v.cfg
            } else {
                ConfigView {
                    game: GameView { processes: v.cfg.game.processes.push(t), ..v.cfg.game },
                    ..v.cfg
                }
            },
            ListKind::Background => if has_rule(v.cfg.background, t) {
                v.cfg
            } else {
                ConfigView { background: v.cfg.background.push(plain_rule(t)), ..v.cfg }
            },
        };
        UiView { cfg, result: line(v.lang, "added"@, t), ..v }
    }
}

/// What a click on "save" comes to: the configuration to send, if any, and the
/// editor afterwards. Nothing is sent while a save is under way, before the
/// configuration was loaded, or when the result breaks a rule.
pub open spec fn save_clicked(
    v: UiView,
    games: Seq<bool>,
    rows: Seq<bool>,
    t: Toggles,
) -> (Option<ConfigView>, UiView) {
    let built = built_config(v, games, rows, t);
    if v.save_in_flight {
        (None, UiView { result: text_for(v.lang, "save_in_progress"@), ..v })
    } else if v.init_error is Some || !v.config_loaded {
        (None, UiView { result: text_for(v.lang, "save_blocked"@), ..v })
    } else if config_problem(built) is Some {
        (
            None,
            UiView {
                result: line(
                    v.lang,
                    "cfg_invalid"@,
                    "validation: "@ + config_problem(built)->0,
                ),
                ..v
            },
        )
    } else {
        let kept = UiView {
            cfg: built,
            overrides: surviving(v.overrides, built.background),
            save_in_flight: true,
            ..v
        };
        (Some(built), UiView { cpu_level: toggles_for(kept).cpu_level, ..kept })
    }
}

/// The row that the advanced editor is about: the selected one, else the first.
pub open spec fn edited_row(selected: Option<usize>, rows: usize) -> Option<int> {
    match selected {
        Some(row) => Some(row as int),
        None => if rows > 0 {
            Some(0int)
        } else {
            None
        },
    }
}

/// The fields that show a rule.
pub open spec fn fields_of(rule: BackgroundView) -> FieldsView {
    FieldsView {
        name: rule.name,
        priority_idx: match rule.priority {
            Some(p) => priority_index(p),
            None => 2,
        },
        affinity: match rule.affinity {
            Some(cores) => cores_text(cores),
            None => Seq::empty(),
        },
        qos: match rule.qos_cpu_quota {
            Some(q) => decimal(q as nat),
            None => Seq::empty(),
        },
        suspend: rule.suspend,
        trim_memory: rule.trim_memory,
    }
}

/// The fields for a row: its override if it has one, else its rule. Nothing to
/// show where the list has no rows or the row is none of the configuration's.
pub open spec fn fields_for(v: UiView, selected: Option<usize>, rows: usize) -> Option<FieldsView> {
    let row = match selected {
        Some(row) => row as int,
        None => 0,
    };
    if rows == 0 || row >= v.cfg.background.len() {
        None
    } else {
        let base = v.cfg.background[row];
        match override_of(v.overrides, base.name) {
            Some(rule) => Some(fields_of(rule)),
            None => Some(fields_of(base)),
        }
    }
}

/// The rule that fields stand for; an affinity and a quota that cannot be read
/// stand for none.
pub open spec fn rule_of(f: FieldsView) -> BackgroundView {
    BackgroundView {
        name: trimmed(f.name),
        suspend: f.suspend,
        priority: priority_at(f.priority_idx),
        affinity: affinity_in(f.affinity)->Ok_0,
        qos_cpu_quota: quota_in(f.qos)->Ok_0,
        trim_memory: f.trim_memory,
    }
}

/// What a click on "apply" comes to: whether a row was renamed, and the editor
/// afterwards. Fields that cannot be read change nothing but the result line.
pub open spec fn apply_clicked(
    v: UiView,
    selected: Option<usize>,
    rows: usize,
    f: FieldsView,
) -> (bool, UiView) {
    match edited_row(selected, rows) {
        None => (false, UiView { result: text_for(v.lang, "adv_no_selection"@), ..v }),
        Some(row) => if row >= v.cfg.background.len() {
            (false, v)
        } else if trimmed(f.name).len() == 0 {
            (false, UiView { result: text_for(v.lang, "adv_no_name"@), ..v })
        } else if affinity_in(f.affinity) is Err {
            (
                false,
                UiView {
                    result: line(
                        v.lang,
                        "adv_invalid_affinity"@,
                        affinity_in(f.affinity)->Err_0,
                    ),
                    ..v
                },
            )
        } else if quota_in(f.qos) is Err {
            (
                false,
                UiView {
                    result: line(v.lang, "adv_invalid_qos"@, quota_in(f.qos)->Err_0),
                    ..v
                },
            )
        } else {
            let rule = rule_of(f);
            let base = v.cfg.background[row];
            let done = UiView { result: text_for(v.lang, "adv_applied"@), ..v };
            if rule.name != base.name {
                (
                    true,
                    UiView {
                        cfg: ConfigView {
                            background: v.cfg.background.update(
                                row,
                                (BackgroundView { name: rule.name, ..base }),
                            ),
                            ..v.cfg
                        },
                        overrides: with_override(
                            without_override(v.overrides, base.name),
                            rule,
                        ),
                        ..done
                    },
                )
            } else {
                (false, UiView { overrides: with_override(v.overrides, rule), ..done })
            }
        },
    }
}

/// The editor after the service answered (or did not answer) a question for its
/// state. While the configuration could not be loaded, that line stays.
pub open spec fn state_answered(v: UiView, r: Result<Response, String>) -> UiView {
    let said = match r {
        Ok(Response::State(_)) => text_for(v.lang, "status_refreshed"@),
        Ok(_) => text_for(v.lang, "unexpected_response"@),
        Err(e) => line(v.lang, "status_failed"@, e@),
    };
    let up = r is Ok && r->Ok_0 is State;
    UiView {
        status_probe_in_flight: false,
        mode: match r {
            Ok(Response::State(s)) => s.mode@,
            _ => Seq::empty(),
        },
        tray_running: up,
        result: if v.init_error is None {
            said
        } else {
            v.result
        },
        ..v
    }
}

/// The editor after a configuration arrived: it replaces what was edited, and
/// saving is open.
pub open spec fn config_arrived(v: UiView, c: ConfigView) -> UiView {
    let fresh = UiView {
        cfg: c,
        config_loaded: true,
        init_error: None,
        overrides: Seq::empty(),
        result: text_for(v.lang, "cfg_loaded"@),
        ..v
    };
    UiView { cpu_level: toggles_for(fresh).cpu_level, ..fresh }
}

/// The editor after a configuration could not be loaded: saving is blocked until
/// one is.
pub open spec fn config_failed(v: UiView, msg: Seq<char>) -> UiView {
    UiView { init_error: Some(msg), result: msg, ..v }
}

/// The editor after the answer to a question for the configuration.
pub open spec fn config_answered(v: UiView, r: Result<Response, String>) -> UiView {
    match r {
        Ok(Response::Config(c)) => config_arrived(v, c@),
        Ok(_) => config_failed(v, text_for(v.lang, "unexpected_response"@)),
        Err(e) => config_failed(v, line(v.lang, "cfg_load_failed"@, e@)),
    }
}

/// The reason to offer a start with more rights: the refusal of a save for lack of
/// elevation, where the editor has none.
pub open spec fn relaunch_reason(r: Result<Response, String>, elevated: bool) -> Option<Seq<char>> {
    match r {
        Ok(Response::SaveConfig(Err(e))) => if !elevated && speaks_of_elevation(e@) {
            Some(e@)
        } else {
            None
        },
        _ => None,
    }
}

/// The editor after the answer to a save. Where a start with more rights is to be
/// offered, nothing is said yet.
pub open spec fn save_answered(v: UiView, r: Result<Response, String>, elevated: bool) -> UiView {
    UiView {
        save_in_flight: false,
        result: if relaunch_reason(r, elevated) is Some {
            v.result
        } else {
            match r {
                Ok(Response::SaveConfig(Ok(m))) => line(v.lang, "save_ok"@, m@),
                Ok(Response::SaveConfig(Err(e))) => line(v.lang, "save_failed"@, e@),
                Ok(_) => text_for(v.lang, "unexpected_response"@),
                Err(e) => line(v.lang, "save_failed"@, e@),
            }
        },
        ..v
    }
}

/// The editor after a start with more rights was offered: where it was declined or
/// failed, the refusal is told.
pub open spec fn relaunch_answered(v: UiView, reason: Seq<char>, launched: bool) -> UiView {
    if launched {
        v
    } else {
        UiView { result: line(v.lang, "save_failed"@, reason), ..v }
    }
}

// ---------------------------------------------------------------------------
// Code
// ---------------------------------------------------------------------------
fn line_text(lang: Lang, key: &str, what: &str) -> (r: String)
    ensures
        r@ == line(lang, key@, what@),
{
    let mut m = join2(tr(lang, key), ": ");
    m.append(what);
    m
}

fn find_override<'a>(overrides: &'a Vec<BackgroundRule>, name: &str) -> (r: Option<
    &'a BackgroundRule,
>)
    ensures
        r is Some <==> override_of(background_views(overrides@), name@) is Some,
        r is Some ==> Some(r->0@) == override_of(background_views(overrides@), name@),
{
    let ghost all = background_views(overrides@);
    let mut i: usize = 0;
    assert(all.skip(0) =~= all);
    while i < overrides.len()
        invariant
            i <= overrides@.len(),
            all == background_views(overrides@),
            override_of(all, name@) == override_of(all.skip(i as int), name@),
        decreases overrides@.len() - i,
    {
        assert(all.skip(i as int)[0] == overrides@[i as int]@);
        if same_text(overrides[i].name.as_str(), name) {
            return Some(&overrides[i]);
        }
        assert(all.skip(i as int).skip(1) =~= all.skip(i + 1));
        i = i + 1;
    }
    None
}

fn drop_override(overrides: &Vec<BackgroundRule>, name: &str) -> (r: Vec<BackgroundRule>)
    ensures
        background_views(r@) == without_override(background_views(overrides@), name@),
{
    let ghost all = background_views(overrides@);
    let mut r: Vec<BackgroundRule> = Vec::new();
    let mut i: usize = 0;
    assert(background_views(r@) =~= without_override(all.take(0), name@));
    while i < overrides.len()
        invariant
            i <= overrides@.len(),
            all == background_views(overrides@),
            background_views(r@) == without_override(all.take(i as int), name@),
        decreases overrides@.len() - i,
    {
        assert(all.take(i + 1).drop_last() =~= all.take(i as int));
        assert(all.take(i + 1).last() == overrides@[i as int]@);
        if !same_text(overrides[i].name.as_str(), name) {
            let ghost before = r@;
            r.push(overrides[i].clone());
            assert(background_views(r@) =~= background_views(before).push(
                overrides@[i as int]@,
            ));
        }
        i = i + 1;
    }
    assert(all.take(i as int) =~= all);
    r
}

fn rule_named(rules: &Vec<BackgroundRule>, name: &str) -> (r: bool)
    ensures
        r == has_rule(background_views(rules@), name@),
{
    let mut i: usize = 0;
    while i < rules.len()
        invariant
            i <= rules@.len(),
            forall|k: int| 0 <= k < i ==> (#[trigger] background_views(rules@)[k]).name != name@,
        decreases rules@.len() - i,
    {
        if same_text(rules[i].name.as_str(), name) {
            assert(background_views(rules@)[i as int].name == name@);
            return true;
        }
        i = i + 1;
    }
    false
}

fn keep_surviving(overrides: &Vec<BackgroundRule>, rules: &Vec<BackgroundRule>) -> (r: Vec<
    BackgroundRule,
>)
    ensures
        background_views(r@) == surviving(
            background_views(overrides@),
            background_views(rules@),
        ),
{
    let ghost all = background_views(overrides@);
    let mut r: Vec<BackgroundRule> = Vec::new();
    let mut i: usize = 0;
    assert(background_views(r@) =~= surviving(all.take(0), background_views(rules@)));
    while i < overrides.len()
        invariant
            i <= overrides@.len(),
            all == background_views(overrides@),
            background_views(r@) == surviving(all.take(i as int), background_views(rules@)),
        decreases overrides@.len() - i,
    {
        assert(all.take(i + 1).drop_last() =~= all.take(i as int));
        assert(all.take(i + 1).last() == overrides@[i as int]@);
        if rule_named(rules, overrides[i].name.as_str()) {
            let ghost before = r@;
            r.push(overrides[i].clone());
            assert(background_views(r@) =~= background_views(before).push(
                overrides@[i as int]@,
            ));
        }
        i = i + 1;
    }
    assert(all.take(i as int) =~= all);
    r
}

/// The names of the checked rows.
pub fn checked_names(names: &Vec<String>, checked: &Vec<bool>) -> (r: Vec<String>)
    ensures
        texts(r@) == checked_of(texts(names@), checked@, names@.len() as int),
{
    let mut r: Vec<String> = Vec::new();
    let mut i: usize = 0;
    assert(texts(r@) =~= checked_of(texts(names@), checked@, 0));
    while i < names.len()
        invariant
            i <= names@.len(),
            texts(r@) == checked_of(texts(names@), checked@, i as int),
        decreases names@.len() - i,
    {
        if i < checked.len() && checked[i] {
            let ghost before = r@;
            r.push(names[i].clone());
            assert(texts(r@) =~= texts(before).push(texts(names@)[i as int]));
        }
        i = i + 1;
    }
    r
}

impl UiState {
    /// An editor that has not heard of the service yet.
    pub fn new(lang: Lang) -> (r: Self)
        ensures
            r@ == (UiView {
                lang,
                cfg: empty_config(),
                init_error: None,
                config_loaded: false,
                save_in_flight: false,
                mode: Seq::empty(),
                cpu_level: 1,
                advanced_expanded: false,
                overrides: Seq::empty(),
                status_probe_in_flight: false,
                result: text_for(lang, "loading"@),
                tray_running: false,
            }),
    {
        let r = UiState {
            lang,
            cfg: Config::default(),
            init_error: None,
            config_loaded: false,
            save_in_flight: false,
            mode: String::new(),
            cpu_level: 1,
            advanced_expanded: false,
            overrides: Vec::new(),
            status_probe_in_flight: false,
            result: copy_text(tr(lang, "loading")),
            tray_running: false,
        };
        assert(r@.mode =~= Seq::<char>::empty());
        assert(r@.overrides =~= Seq::<BackgroundView>::empty());
        r
    }

    /// The status line: whether the service answered.
    pub fn status_text(&self) -> (r: &'static str)
        ensures
            r@ == text_for(
                self@.lang,
                if self@.mode.len() == 0 {
                    "status_stopped"@
                } else {
                    "status_running"@
                },
            ),
    {
        if self.mode.as_str().is_empty() {
            tr(self.lang, "status_stopped")
        } else {
            tr(self.lang, "status_running")
        }
    }

    /// The label of the button that opens and closes the advanced editor.
    pub fn advanced_button_text(&self) -> (r: String)
        ensures
            r@ == text_for(self@.lang, "btn_advanced"@) + " "@ + if self@.advanced_expanded {
                "\u{25be}"@
            } else {
                "\u{25b8}"@
            },
    {
        let mut r = join2(tr(self.lang, "btn_advanced"), " ");
        if self.advanced_expanded {
            r.append("\u{25be}");
        } else {
            r.append("\u{25b8}");
        }
        r
    }

    /// Begins a probe of the service unless one is under way.
    pub fn start_status_probe(&mut self) -> (r: bool)
        ensures
            r == !old(self)@.status_probe_in_flight,
            final(self)@ == (UiView { status_probe_in_flight: true, ..old(self)@ }),
    {
        if self.status_probe_in_flight {
            return false;
        }
        self.status_probe_in_flight = true;
        true
    }

    /// Adds a name to a list.
    pub fn append_name(&mut self, kind: ListKind, name: &str)
        ensures
            final(self)@ == appended(old(self)@, kind, name@),
    {
        let t = trim(name);
        if t.as_str().is_empty() {
            return;
        }
        match kind {
            ListKind::Game => {
                if !text_listed(&self.cfg.game.processes, t.as_str()) {
                    let ghost before = self.cfg.game.processes@;
                    self.cfg.game.processes.push(t.clone());
                    assert(texts(self.cfg.game.processes@) =~= texts(before).push(t@));
                }
            },
            ListKind::Background => {
                if !rule_named(&self.cfg.background, t.as_str()) {
                    let ghost before = self.cfg.background@;
                    let mut rule = BackgroundRule::default();
                    rule.name = t.clone();
                    self.cfg.background.push(rule);
                    assert(background_views(self.cfg.background@) =~= background_views(
                        before,
                    ).push(plain_rule(t@)));
                }
            },
        }
        self.result = line_text(self.lang, "added", t.as_str());
    }

    /// The configuration that the controls stand for.
    pub fn build_config_from_ui(
        &self,
        games: &Vec<bool>,
        rows: &Vec<bool>,
        toggles: &Toggles,
    ) -> (r: Config)
        ensures
            r@ == built_config(self@, games@, rows@, *toggles),
    {
        let mut cfg = self.cfg.clone();
        cfg.game.processes = checked_names(&self.cfg.game.processes, games);
        let ghost all = background_views(self.cfg.background@);
        let ghost wanted = |b: BackgroundView| saved_rule(b.name, self@.overrides, *toggles);
        let pct: u32 = cpu_level_to_pct(toggles.cpu_level);
        let mut rules: Vec<BackgroundRule> = Vec::new();
        let mut i: usize = 0;
        assert(background_views(rules@) =~= checked_of(all, rows@, 0).map_values(wanted));
        while i < self.cfg.background.len()
            invariant
                i <= self.cfg.background@.len(),
                all == background_views(self.cfg.background@),
                pct == level_quota(toggles.cpu_level),
                wanted == (|b: BackgroundView| saved_rule(b.name, self@.overrides, *toggles)),
                background_views(rules@) == checked_of(all, rows@, i as int).map_values(wanted),
            decreases self.cfg.background@.len() - i,
        {
            if i < rows.len() && rows[i] {
                let name = self.cfg.background[i].name.clone();
                let rule = match find_override(&self.overrides, name.as_str()) {
                    Some(o) => o.clone(),
                    None => bg_rule_from_toggles(
                        name,
                        toggles.suspend,
                        toggles.low_priority,
                        toggles.cpu_limit,
                        pct,
                        toggles.trim_memory,
                    ),
                };
                let ghost before = rules@;
                assert(rule@ == wanted(all[i as int]));
                rules.push(rule);
                assert(background_views(rules@) =~= background_views(before).push(
                    wanted(all[i as int]),
                ));
                assert(checked_of(all, rows@, i + 1) == checked_of(all, rows@, i as int).push(
                    all[i as int],
                ));
                assert(checked_of(all, rows@, i + 1).map_values(wanted) =~= checked_of(
                    all,
                    rows@,
                    i as int,
                ).map_values(wanted).push(wanted(all[i as int])));
            } else {
                assert(checked_of(all, rows@, i + 1) == checked_of(all, rows@, i as int));
            }
            i = i + 1;
        }
        cfg.background = rules;
        cfg
    }

    /// The global options that show the configuration.
    pub fn sync_toggles_from_cfg(&mut self) -> (r: Toggles)
        ensures
            r == toggles_for(old(self)@),
            final(self)@ == (UiView { cpu_level: r.cpu_level, ..old(self)@ }),
    {
        let ghost all = self@.cfg.background;
        let mut i: usize = 0;
        let mut found: Option<usize> = None;
        assert(all.skip(0) =~= all);
        while i < self.cfg.background.len() && found.is_none()
            invariant
                i <= self.cfg.background@.len(),
                self@ == old(self)@,
                all == background_views(self.cfg.background@),
                all == self@.cfg.background,
                found is None ==> representative(all, self@.overrides) == representative(
                    all.skip(i as int),
                    self@.overrides,
                ),
                found is Some ==> found->0 < all.len() && representative(all, self@.overrides)
                    == all[found->0 as int],
            decreases self.cfg.background@.len() - i,
        {
            assert(all.skip(i as int)[0] == self.cfg.background@[i as int]@);
            if find_override(&self.overrides, self.cfg.background[i].name.as_str()).is_none() {
                found = Some(i);
            }
            assert(all.skip(i as int).skip(1) =~= all.skip(i + 1));
            i = i + 1;
        }
        let toggles = match found {
            Some(k) => rule_toggles(&self.cfg.background[k]),
            None => {
                let plain = BackgroundRule::default();
                rule_toggles(&plain)
            },
        };
        self.cpu_level = toggles.cpu_level;
        toggles
    }

    /// A click on "save": the configuration to send to the service, if any.
    pub fn do_save(&mut self, games: &Vec<bool>, rows: &Vec<bool>, toggles: &Toggles) -> (r: Option<
        Config,
    >)
        ensures
            r is Some <==> save_clicked(old(self)@, games@, rows@, *toggles).0 is Some,
            r is Some ==> Some(r->0@) == save_clicked(old(self)@, games@, rows@, *toggles).0,
            final(self)@ == save_clicked(old(self)@, games@, rows@, *toggles).1,
    {
        if self.save_in_flight {
            self.result = copy_text(tr(self.lang, "save_in_progress"));
            return None;
        }
        if self.init_error.is_some() || !self.config_loaded {
            self.result = copy_text(tr(self.lang, "save_blocked"));
            return None;
        }
        let cfg = self.build_config_from_ui(games, rows, toggles);
        match cfg.validate() {
            Err(e) => {
                self.result = line_text(self.lang, "cfg_invalid", e.message().as_str());
                None
            },
            Ok(()) => {
                self.overrides = keep_surviving(&self.overrides, &cfg.background);
                self.cfg = cfg.clone();
                self.save_in_flight = true;
                let _ = self.sync_toggles_from_cfg();
                Some(cfg)
            },
        }
    }

    /// The fields of the advanced editor for the selected row.
    pub fn load_selected_row(&self, selected: Option<usize>, rows: usize) -> (r: Option<RowFields>)
        ensures
            r is Some <==> fields_for(self@, selected, rows) is Some,
            r is Some ==> Some(r->0@) == fields_for(self@, selected, rows),
    {
        if rows == 0 {
            return None;
        }
        let row: usize = match selected {
            Some(row) => row,
            None => 0,
        };
        if row >= self.cfg.background.len() {
            return None;
        }
        let base = &self.cfg.background[row];
        assert(self@.cfg.background[row as int] == base@);
        match find_override(&self.overrides, base.name.as_str()) {
            Some(rule) => Some(rule_fields(rule)),
            None => Some(rule_fields(base)),
        }
    }

    /// A click on "apply": the fields become the rule of the row. Returns whether
    /// the row was renamed.
    pub fn apply_advanced(&mut self, selected: Option<usize>, rows: usize, fields: &RowFields) -> (r:
        bool)
        ensures
            r == apply_clicked(old(self)@, selected, rows, fields@).0,
            final(self)@ == apply_clicked(old(self)@, selected, rows, fields@).1,
    {
        let row: usize = match selected {
            Some(row) => row,
            None => {
                if rows == 0 {
                    self.result = copy_text(tr(self.lang, "adv_no_selection"));
                    return false;
                }
                0
            },
        };
        if row >= self.cfg.background.len() {
            return false;
        }
        let name = trim(fields.name.as_str());
        if name.as_str().is_empty() {
            self.result = copy_text(tr(self.lang, "adv_no_name"));
            return false;
        }
        let affinity = match parse_affinity(fields.affinity.as_str()) {
            Ok(a) => a,
            Err(e) => {
                self.result = line_text(self.lang, "adv_invalid_affinity", e.as_str());
                return false;
            },
        };
        let qos = match parse_qos(fields.qos.as_str()) {
            Ok(q) => q,
            Err(e) => {
                self.result = line_text(self.lang, "adv_invalid_qos", e.as_str());
                return false;
            },
        };
        let rule = BackgroundRule {
            name: name.clone(),
            suspend: fields.suspend,
            priority: idx_to_priority(fields.priority_idx),
            affinity,
            qos_cpu_quota: qos,
            trim_memory: fields.trim_memory,
        };
        assert(rule@ == rule_of(fields@));
        let old_name = self.cfg.background[row].name.clone();
        let ghost v = self@;
        assert(v.cfg.background[row as int].name == old_name@);
        let renamed: bool = !same_text(name.as_str(), old_name.as_str());
        if renamed {
            let ghost before = self.cfg.background@;
            let mut edited = self.cfg.background[row].clone();
            edited.name = name;
            self.cfg.background.set(row, edited);
            assert(background_views(self.cfg.background@) =~= v.cfg.background.update(
                row as int,
                (BackgroundView { name: rule@.name, ..v.cfg.background[row as int] }),
            ));
            self.overrides = drop_override(&self.overrides, old_name.as_str());
        }
        let ghost base = background_views(self.overrides@);
        self.overrides = drop_override(&self.overrides, rule.name.as_str());
        let ghost before = self.overrides@;
        self.overrides.push(rule);
        assert(background_views(self.overrides@) =~= background_views(before).push(rule@));
        assert(background_views(self.overrides@) == with_override(base, rule@));
        self.result = copy_text(tr(self.lang, "adv_applied"));
        renamed
    }

    /// The answer to a question for the state.
    pub fn on_get_state_result(&mut self, answer: Result<Response, String>)
        ensures
            final(self)@ == state_answered(old(self)@, answer),
    {
        self.status_probe_in_flight = false;
        let quiet: bool = self.init_error.is_some();
        match answer {
            Ok(Response::State(s)) => {
                self.mode = s.mode;
                self.tray_running = true;
                if !quiet {
                    self.result = copy_text(tr(self.lang, "status_refreshed"));
                }
            },
            Ok(_) => {
                self.mode = String::new();
                assert(self.mode@ =~= Seq::<char>::empty());
                self.tray_running = false;
                if !quiet {
                    self.result = copy_text(tr(self.lang, "unexpected_response"));
                }
            },
            Err(e) => {
                self.mode = String::new();
                assert(self.mode@ =~= Seq::<char>::empty());
                self.tray_running = false;
                if !quiet {
                    self.result = line_text(self.lang, "status_failed", e.as_str());
                }
            },
        }
    }

    /// The answer to a question for the configuration.
    pub fn on_get_config_result(&mut self, answer: Result<Response, String>)
        ensures
            final(self)@ == config_answered(old(self)@, answer),
    {
        match answer {
            Ok(Response::Config(c)) => {
                self.config_loaded = true;
                self.cfg = c;
                self.init_error = None;
                self.overrides = Vec::new();
                assert(background_views(self.overrides@) =~= Seq::<BackgroundView>::empty());
                self.result = copy_text(tr(self.lang, "cfg_loaded"));
                let _ = self.sync_toggles_from_cfg();
            },
            Ok(_) => {
                let msg = copy_text(tr(self.lang, "unexpected_response"));
                self.fail_init(msg);
            },
            Err(e) => {
                let msg = line_text(self.lang, "cfg_load_failed", e.as_str());
                self.fail_init(msg);
            },
        }
    }

    fn fail_init(&mut self, msg: String)
        ensures
            final(self)@ == config_failed(old(self)@, msg@),
    {
        self.result = msg.clone();
        self.init_error = Some(msg);
    }

    /// The answer to a save. Returns the refusal where the service refused for lack
    /// of elevation and the editor has none: then a start with more rights is to be
    /// offered, and what came of that is for [`UiState::on_save_elevation`].
    pub fn on_save_result(&mut self, answer: Result<Response, String>, elevated: bool) -> (r: Option<
        String,
    >)
        ensures
            text_in(r) == relaunch_reason(answer, elevated),
            final(self)@ == save_answered(old(self)@, answer, elevated),
    {
        self.save_in_flight = false;
        match answer {
            Ok(Response::SaveConfig(Ok(m))) => {
                self.result = line_text(self.lang, "save_ok", m.as_str());
                None
            },
            Ok(Response::SaveConfig(Err(e))) => {
                if !elevated && needs_elevation(e.as_str()) {
                    return Some(e);
                }
                self.result = line_text(self.lang, "save_failed", e.as_str());
                None
            },
            Ok(_) => {
                self.result = copy_text(tr(self.lang, "unexpected_response"));
                None
            },
            Err(e) => {
                self.result = line_text(self.lang, "save_failed", e.as_str());
                None
            },
        }
    }

    /// A start with more rights was offered after a refusal; `launched` tells whether
    /// it was taken and worked.
    pub fn on_save_elevation(&mut self, reason: &str, launched: bool)
        ensures
            final(self)@ == relaunch_answered(old(self)@, reason@, launched),
    {
        if !launched {
            self.result = line_text(self.lang, "save_failed", reason);
        }
    }

    /// Opens or closes the advanced editor; the fields to show when it was
    /// opened on a row.
    pub fn toggle_advanced(&mut self, selected: Option<usize>, rows: usize) -> (r: Option<RowFields>)
        ensures
            final(self)@.advanced_expanded == !old(self)@.advanced_expanded,
            r is Some <==> !old(self)@.advanced_expanded && fields_for(
                old(self)@,
                selected,
                rows,
            ) is Some,
            r is Some ==> Some(r->0@) == fields_for(old(self)@, selected, rows),
            final(self)@ == (UiView {
                advanced_expanded: !old(self)@.advanced_expanded,
                result: if !old(self)@.advanced_expanded && r is None {
                    text_for(old(self)@.lang, "adv_no_selection"@)
                } else {
                    old(self)@.result
                },
                ..old(self)@
            }),
    {
        self.advanced_expanded = !self.advanced_expanded;
        if !self.advanced_expanded {
            return None;
        }
        let fields = self.load_selected_row(selected, rows);
        if fields.is_none() {
            self.result = copy_text(tr(self.lang, "adv_no_selection"));
        }
        fields
    }

    /// Switches to the other language.
    pub fn toggle_language(&mut self) -> (r: Lang)
        ensures
            r == (if old(self)@.lang == Lang::Zh {
                Lang::En
            } else {
                Lang::Zh
            }),
            final(self)@ == (UiView { lang: r, ..old(self)@ }),
    {
        self.lang = match self.lang {
            Lang::Zh => Lang::En,
            Lang::En => Lang::Zh,
        };
        self.lang
    }

    /// Sets the result line.
    pub fn set_result(&mut self, msg: &str)
        ensures
            final(self)@ == (UiView { result: msg@, ..old(self)@ }),
    {
        self.result = copy_text(msg);
    }
}

fn text_listed(list: &Vec<String>, text: &str) -> (r: bool)
    ensures
        r == texts(list@).contains(text@),
{
    let mut i: usize = 0;
    while i < list.len()
        invariant
            i <= list@.len(),
            forall|k: int| 0 <= k < i ==> (#[trigger] texts(list@)[k]) != text@,
        decreases list@.len() - i,
    {
        if same_text(list[i].as_str(), text) {
            assert(texts(list@)[i as int] == text@);
            return true;
        }
        i = i + 1;
    }
    false
}

fn rule_toggles(b: &BackgroundRule) -> (r: Toggles)
    ensures
        r == toggles_of(b@),
{
    Toggles {
        suspend: b.suspend,
        low_priority: b.priority.is_some(),
        cpu_limit: b.qos_cpu_quota.is_some(),
        cpu_level: match b.qos_cpu_quota {
            Some(q) => pct_to_cpu_level(q),
            None => 1,
        },
        trim_memory: b.trim_memory,
    }
}

fn rule_fields(rule: &BackgroundRule) -> (r: RowFields)
    ensures
        r@ == fields_of(rule@),
{
    let affinity = match &rule.affinity {
        Some(a) => affinity_text(&a.cores),
        None => {
            let e = String::new();
            assert(e@ =~= Seq::<char>::empty());
            e
        },
    };
    let qos = match rule.qos_cpu_quota {
        Some(q) => decimal_text(q as u64),
        None => {
            let e = String::new();
            assert(e@ =~= Seq::<char>::empty());
            e
        },
    };
    RowFields {
        name: rule.name.clone(),
        priority_idx: match rule.priority {
            Some(p) => priority_to_idx(p),
            None => 2,
        },
        affinity,
        qos,
        suspend: rule.suspend,
        trim_memory: rule.trim_memory,
    }
}

/// An editor that is refused for lack of elevation and not started again tells the
/// same in the end as one to which no offer is made.
pub proof fn declined_relaunch_tells_the_refusal(v: UiView, r: Result<Response, String>)
    requires
        relaunch_reason(r, false) is Some,
    ensures
        relaunch_answered(save_answered(v, r, false), relaunch_reason(r, false)->0, false)
            == save_answered(v, r, true),
{
}

// ---------------------------------------------------------------------------
// What holds of the editor
// ---------------------------------------------------------------------------
/// A click on "save" sends nothing, and leaves the configuration alone, while a
/// save is under way or as long as the configuration was not loaded; and what it
/// sends breaks no rule.
pub proof fn only_loaded_and_valid_is_sent(
    v: UiView,
    games: Seq<bool>,
    rows: Seq<bool>,
    t: Toggles,
)
    ensures
        v.save_in_flight || v.init_error is Some || !v.config_loaded ==> save_clicked(
            v,
            games,
            rows,
            t,
        ).0 is None && save_clicked(v, games, rows, t).1.cfg == v.cfg,
        save_clicked(v, games, rows, t).0 is Some ==> crate::config::valid_config(
            save_clicked(v, games, rows, t).0->0,
        ) && save_clicked(v, games, rows, t).1.save_in_flight,
{
    crate::config::no_problem_means_valid(built_config(v, games, rows, t));
}

proof fn nothing_found_without(overrides: Seq<BackgroundView>, name: Seq<char>)
    ensures
        forall|i: int|
            0 <= i < without_override(overrides, name).len() ==> (#[trigger] without_override(
                overrides,
                name,
            )[i]).name != name,
    decreases overrides.len(),
{
    if overrides.len() > 0 {
        nothing_found_without(overrides.drop_last(), name);
    }
}

proof fn found_at_end(list: Seq<BackgroundView>, rule: BackgroundView)
    requires
        forall|i: int| 0 <= i < list.len() ==> (#[trigger] list[i]).name != rule.name,
    ensures
        override_of(list.push(rule), rule.name) == Some(rule),
    decreases list.len(),
{
    let all = list.push(rule);
    if list.len() > 0 {
        assert(all[0] == list[0]);
        let rest = list.skip(1);
        assert forall|i: int| 0 <= i < rest.len() implies (#[trigger] rest[i]).name
            != rule.name by {
            assert(rest[i] == list[i + 1]);
        }
        found_at_end(rest, rule);
        assert(all.skip(1) =~= rest.push(rule));
    }
}

proof fn push_leaves_others(list: Seq<BackgroundView>, rule: BackgroundView, name: Seq<char>)
    requires
        rule.name != name,
    ensures
        override_of(list.push(rule), name) == override_of(list, name),
    decreases list.len(),
{
    let all = list.push(rule);
    if list.len() > 0 {
        assert(all[0] == list[0]);
        assert(all.skip(1) =~= list.skip(1).push(rule));
        push_leaves_others(list.skip(1), rule, name);
    } else {
        assert(all.skip(1) =~= Seq::<BackgroundView>::empty());
        assert(override_of(all.skip(1), name) is None);
    }
}

proof fn found_before_end(list: Seq<BackgroundView>, rule: BackgroundView, name: Seq<char>)
    ensures
        override_of(list, name) is Some ==> override_of(list.push(rule), name) == override_of(
            list,
            name,
        ),
        override_of(list, name) is None && rule.name == name ==> override_of(list.push(rule), name)
            == Some(rule),
    decreases list.len(),
{
    let all = list.push(rule);
    if list.len() > 0 {
        assert(all[0] == list[0]);
        assert(all.skip(1) =~= list.skip(1).push(rule));
        found_before_end(list.skip(1), rule, name);
    }
}

/// Taking the override of one name away leaves those of the others.
pub proof fn removal_leaves_others(
    overrides: Seq<BackgroundView>,
    gone: Seq<char>,
    name: Seq<char>,
)
    requires
        gone != name,
    ensures
        override_of(without_override(overrides, gone), name) == override_of(overrides, name),
    decreases overrides.len(),
{
    if overrides.len() > 0 {
        let head = overrides.drop_last();
        let last = overrides.last();
        removal_leaves_others(head, gone, name);
        assert(overrides =~= head.push(last));
        let kept = without_override(head, gone);
        if last.name == gone {
            push_leaves_others(head, last, name);
        } else if last.name == name {
            found_before_end(head, last, name);
            found_before_end(kept, last, name);
        } else {
            push_leaves_others(head, last, name);
            push_leaves_others(kept, last, name);
        }
    }
}

/// A row that was edited on its own is found as it was edited, and no other row
/// is touched by that.
pub proof fn edited_row_is_found(
    overrides: Seq<BackgroundView>,
    rule: BackgroundView,
    name: Seq<char>,
)
    ensures
        override_of(with_override(overrides, rule), rule.name) == Some(rule),
        name != rule.name ==> override_of(with_override(overrides, rule), name) == override_of(
            overrides,
            name,
        ),
{
    let list = without_override(overrides, rule.name);
    nothing_found_without(overrides, rule.name);
    found_at_end(list, rule);
    if name != rule.name {
        push_leaves_others(list, rule, name);
        removal_leaves_others(overrides, rule.name, name);
    }
}

/// A row that was edited on its own is saved exactly as it was edited, whatever
/// the global options say.
pub proof fn edited_row_is_saved(
    overrides: Seq<BackgroundView>,
    rule: BackgroundView,
    t: Toggles,
)
    ensures
        saved_rule(rule.name, with_override(overrides, rule), t) == rule,
{
    edited_row_is_found(overrides, rule, rule.name);
}

/// Showing a rule in the advanced editor and applying the fields as they stand
/// gives the rule back. (A rule without a priority is shown as normal, and a
/// name is applied without white space around it.)
pub proof fn fields_round_trip(rule: BackgroundView)
    requires
        rule.priority is Some,
        rule.qos_cpu_quota is Some ==> 1 <= rule.qos_cpu_quota->0 <= 100,
        rule.affinity is Some ==> rule.affinity->0.len() > 0 && crate::actions::all_below_64(
            rule.affinity->0,
        ),
        trimmed(rule.name) == rule.name,
    ensures
        affinity_in(fields_of(rule).affinity) is Ok,
        quota_in(fields_of(rule).qos) is Ok,
        rule_of(fields_of(rule)) == rule,
{
    crate::ui::priority_index_round_trip(rule.priority->0, 0);
    match rule.affinity {
        Some(cores) => {
            crate::ui::affinity_text_round_trip(cores);
        },
        None => {
            crate::text::trimmed_already(Seq::empty());
        },
    }
    match rule.qos_cpu_quota {
        Some(q) => {
            crate::ui::quota_text_round_trip(q);
        },
        None => {
            crate::text::trimmed_already(Seq::empty());
        },
    }
}

proof fn all_checked<T>(list: Seq<T>, checked: Seq<bool>, n: int)
    requires
        0 <= n <= list.len(),
        forall|i: int| 0 <= i < n ==> is_checked(checked, i),
    ensures
        checked_of(list, checked, n) == list.take(n),
    decreases n,
{
    if n > 0 {
        all_checked(list, checked, n - 1);
        assert(is_checked(checked, n - 1));
        assert(list.take(n - 1).push(list[n - 1]) =~= list.take(n));
    } else {
        assert(list.take(0) =~= Seq::<T>::empty());
    }
}

/// Saving without touching anything keeps a configuration whose background rules
/// are what the global options show.
pub proof fn untouched_save_keeps_config(v: UiView, games: Seq<bool>, rows: Seq<bool>)
    requires
        v.overrides.len() == 0,
        forall|i: int| 0 <= i < v.cfg.game.processes.len() ==> is_checked(games, i),
        forall|i: int| 0 <= i < v.cfg.background.len() ==> is_checked(rows, i),
        forall|i: int|
            0 <= i < v.cfg.background.len() ==> (#[trigger] v.cfg.background[i]) == saved_rule(
                v.cfg.background[i].name,
                v.overrides,
                toggles_for(v),
            ),
    ensures
        built_config(v, games, rows, toggles_for(v)) == v.cfg,
{
    let t = toggles_for(v);
    let n = v.cfg.background.len() as int;
    all_checked(v.cfg.game.processes, games, v.cfg.game.processes.len() as int);
    all_checked(v.cfg.background, rows, n);
    assert(v.cfg.game.processes.take(v.cfg.game.processes.len() as int)
        =~= v.cfg.game.processes);
    assert(v.cfg.background.take(n) =~= v.cfg.background);
    assert(v.cfg.background.map_values(
        |b: BackgroundView| saved_rule(b.name, v.overrides, t),
    ) =~= v.cfg.background);
}

/// Only checked rows are saved, each under its own name and in order.
pub proof fn saved_rows_are_checked_rows(
    v: UiView,
    games: Seq<bool>,
    rows: Seq<bool>,
    t: Toggles,
)
    ensures
        built_config(v, games, rows, t).background.len() == checked_of(
            v.cfg.background,
            rows,
            v.cfg.background.len() as int,
        ).len(),
        forall|i: int|
            0 <= i < built_config(v, games, rows, t).background.len() ==> (
            #[trigger] built_config(v, games, rows, t).background[i]).name == checked_of(
                v.cfg.background,
                rows,
                v.cfg.background.len() as int,
            )[i].name,
{
    let list = checked_of(v.cfg.background, rows, v.cfg.background.len() as int);
    assert forall|i: int| 0 <= i < list.len() implies (#[trigger] built_config(
        v,
        games,
        rows,
        t,
    ).background[i]).name == list[i].name by {
        override_has_name(v.overrides, list[i].name);
    }
}

proof fn override_has_name(overrides: Seq<BackgroundView>, name: Seq<char>)
    ensures
        override_of(overrides, name) is Some ==> override_of(overrides, name)->0.name == name,
    decreases overrides.len(),
{
    if overrides.len() > 0 {
        override_has_name(overrides.skip(1), name);
    }
}

} // verus!
