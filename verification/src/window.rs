//! The editor's window: what its messages ask for, how the service is started
//! from it, and how results from background calls are kept track of.

use vstd::prelude::*;

use crate::editor::ListKind;
use crate::order::{ascending, insert_sorted};
use crate::text::texts;

verus! {

// ---------------------------------------------------------------------------
// Controls
// ---------------------------------------------------------------------------
pub const IDC_BTN_START: u32 = 101;

pub const IDC_BTN_STOP: u32 = 102;

pub const IDC_BTN_LANG: u32 = 103;

pub const IDC_LIST_GAME: u32 = 110;

pub const IDC_LIST_BG: u32 = 111;

pub const IDC_LABEL_GAME: u32 = 112;

pub const IDC_LABEL_BG: u32 = 113;

pub const IDC_BTN_PICK_GAME: u32 = 120;

pub const IDC_BTN_ADD_GAME: u32 = 121;

pub const IDC_BTN_PICK_BG: u32 = 122;

pub const IDC_BTN_ADD_BG: u32 = 123;

pub const IDC_LABEL_OPT: u32 = 130;

pub const IDC_OPT_SUSPEND: u32 = 131;

pub const IDC_OPT_LOW_PRIO: u32 = 132;

pub const IDC_OPT_CPU: u32 = 133;

pub const IDC_COMBO_CPU: u32 = 134;

pub const IDC_OPT_MEM: u32 = 135;

pub const IDC_BTN_SAVE: u32 = 141;

pub const IDC_BTN_ADVANCED: u32 = 142;

pub const IDC_ADV_TITLE: u32 = 150;

pub const IDC_ADV_LBL_NAME: u32 = 151;

pub const IDC_ADV_LBL_PRIO: u32 = 153;

pub const IDC_ADV_LBL_AFFINITY: u32 = 155;

pub const IDC_ADV_LBL_QOS: u32 = 157;

pub const IDC_ADV_SUSPEND: u32 = 159;

pub const IDC_ADV_TRIM: u32 = 160;

pub const IDC_ADV_RELOAD: u32 = 161;

pub const IDC_ADV_APPLY: u32 = 162;

/// The mouse messages of the tray icon.
pub const WM_LBUTTONUP: u32 = 0x202;

pub const WM_RBUTTONUP: u32 = 0x205;

/// The notification that a list row changed.
pub const LVN_ITEMCHANGED: u32 = 0xffff_ff9b;

/// The bit of a row's state that says that it is selected.
pub const LVIS_SELECTED: u32 = 2;

pub const IDM_START_SERVICE: u32 = 1000;

pub const IDM_STOP_SERVICE: u32 = 1001;

pub const IDM_TOGGLE_OVERLAY: u32 = 1002;

pub const IDM_OPEN_UI: u32 = 1003;

pub const IDM_EXIT: u32 = 1004;

/// What a control asks for.
#[derive(Debug, Clone, Copy, PartialEq, Eq, Structural)]
pub enum UiCommand {
    StartService,
    StopService,
    Save,
    ToggleAdvanced,
    ToggleLanguage,
    ApplyAdvanced,
    ReloadAdvanced,
    Pick(ListKind),
    Prompt(ListKind),
}

/// What a click on a control asks for.
pub open spec fn command_of_control(id: u32) -> Option<UiCommand> {
    if id == IDC_BTN_START {
        Some(UiCommand::StartService)
    } else if id == IDC_BTN_STOP {
        Some(UiCommand::StopService)
    } else if id == IDC_BTN_SAVE {
        Some(UiCommand::Save)
    } else if id == IDC_BTN_ADVANCED {
        Some(UiCommand::ToggleAdvanced)
    } else if id == IDC_BTN_LANG {
        Some(UiCommand::ToggleLanguage)
    } else if id == IDC_ADV_APPLY {
        Some(UiCommand::ApplyAdvanced)
    } else if id == IDC_ADV_RELOAD {
        Some(UiCommand::ReloadAdvanced)
    } else if id == IDC_BTN_PICK_GAME {
        Some(UiCommand::Pick(ListKind::Game))
    } else if id == IDC_BTN_ADD_GAME {
        Some(UiCommand::Prompt(ListKind::Game))
    } else if id == IDC_BTN_PICK_BG {
        Some(UiCommand::Pick(ListKind::Background))
    } else if id == IDC_BTN_ADD_BG {
        Some(UiCommand::Prompt(ListKind::Background))
    } else {
        None
    }
}

/// What a command message asks for. `param` holds the control in its low 16 bits
/// and the notification above it, which is 0 for a click. While the window is
/// being changed by the program itself, nothing is asked for.
pub fn command_for(param: u32, busy: bool) -> (r: Option<UiCommand>)
    ensures
        r == if busy || param >= 0x1_0000 {
            None
        } else {
            command_of_control(param)
        },
{
    assert(param & 0xffff == param % 0x1_0000) by (bit_vector);
    assert((param >> 16) & 0xffff == 0 <==> param < 0x1_0000) by (bit_vector);
    let id: u32 = param & 0xffff;
    let code: u32 = (param >> 16) & 0xffff;
    if busy || code != 0 {
        return None;
    }
    if id == IDC_BTN_START {
        Some(UiCommand::StartService)
    } else if id == IDC_BTN_STOP {
        Some(UiCommand::StopService)
    } else if id == IDC_BTN_SAVE {
        Some(UiCommand::Save)
    } else if id == IDC_BTN_ADVANCED {
        Some(UiCommand::ToggleAdvanced)
    } else if id == IDC_BTN_LANG {
        Some(UiCommand::ToggleLanguage)
    } else if id == IDC_ADV_APPLY {
        Some(UiCommand::ApplyAdvanced)
    } else if id == IDC_ADV_RELOAD {
        Some(UiCommand::ReloadAdvanced)
    } else if id == IDC_BTN_PICK_GAME {
        Some(UiCommand::Pick(ListKind::Game))
    } else if id == IDC_BTN_ADD_GAME {
        Some(UiCommand::Prompt(ListKind::Game))
    } else if id == IDC_BTN_PICK_BG {
        Some(UiCommand::Pick(ListKind::Background))
    } else if id == IDC_BTN_ADD_BG {
        Some(UiCommand::Prompt(ListKind::Background))
    } else {
        None
    }
}

/// What the tray icon asks for.
#[derive(Debug, Clone, Copy, PartialEq, Eq, Structural)]
pub enum TrayCommand {
    Open,
    Menu,
    StartService,
    StopService,
    ToggleOverlay,
    Exit,
}

/// What a mouse message on the tray icon asks for.
pub fn tray_click(message: u32) -> (r: Option<TrayCommand>)
    ensures
        r == if message == WM_LBUTTONUP {
            Some(TrayCommand::Open)
        } else if message == WM_RBUTTONUP {
            Some(TrayCommand::Menu)
        } else {
            None
        },
{
    if message == WM_LBUTTONUP {
        Some(TrayCommand::Open)
    } else if message == WM_RBUTTONUP {
        Some(TrayCommand::Menu)
    } else {
        None
    }
}

/// What an item of the tray menu asks for.
pub open spec fn tray_item(item: u32) -> Option<TrayCommand> {
    if item == IDM_START_SERVICE {
        Some(TrayCommand::StartService)
    } else if item == IDM_STOP_SERVICE {
        Some(TrayCommand::StopService)
    } else if item == IDM_TOGGLE_OVERLAY {
        Some(TrayCommand::ToggleOverlay)
    } else if item == IDM_OPEN_UI {
        Some(TrayCommand::Open)
    } else if item == IDM_EXIT {
        Some(TrayCommand::Exit)
    } else {
        None
    }
}

pub fn tray_menu(item: u32) -> (r: Option<TrayCommand>)
    ensures
        r == tray_item(item),
{
    if item == IDM_START_SERVICE {
        Some(TrayCommand::StartService)
    } else if item == IDM_STOP_SERVICE {
        Some(TrayCommand::StopService)
    } else if item == IDM_TOGGLE_OVERLAY {
        Some(TrayCommand::ToggleOverlay)
    } else if item == IDM_OPEN_UI {
        Some(TrayCommand::Open)
    } else if item == IDM_EXIT {
        Some(TrayCommand::Exit)
    } else {
        None
    }
}

/// Whether a notification makes the advanced editor load a row: a row of the
/// background list was selected or lost its selection, the editor is open, and
/// the program is not changing the list itself. A checkbox leaves it alone.
pub fn reloads_editor(
    code: u32,
    list: u32,
    old_state: u32,
    new_state: u32,
    busy: bool,
    expanded: bool,
) -> (r: bool)
    ensures
        r == (code == LVN_ITEMCHANGED && list == IDC_LIST_BG && !busy && expanded && (old_state
            & LVIS_SELECTED) != (new_state & LVIS_SELECTED)),
{
    assert(((new_state ^ old_state) & 2) != 0 <==> (old_state & 2) != (new_state & 2))
        by (bit_vector);
    code == LVN_ITEMCHANGED && list == IDC_LIST_BG && !busy && expanded && ((new_state
        ^ old_state) & LVIS_SELECTED) != 0
}

/// The key of the text that a control shows.
pub open spec fn label_of(id: u32) -> Option<Seq<char>> {
    if id == IDC_BTN_START {
        Some("btn_start"@)
    } else if id == IDC_BTN_STOP {
        Some("btn_stop"@)
    } else if id == IDC_BTN_LANG {
        Some("lang"@)
    } else if id == IDC_BTN_SAVE {
        Some("btn_save"@)
    } else if id == IDC_BTN_PICK_GAME || id == IDC_BTN_PICK_BG {
        Some("btn_pick_running"@)
    } else if id == IDC_BTN_ADD_GAME || id == IDC_BTN_ADD_BG {
        Some("btn_add"@)
    } else if id == IDC_LABEL_GAME {
        Some("list_games"@)
    } else if id == IDC_LABEL_BG {
        Some("list_background"@)
    } else if id == IDC_LABEL_OPT {
        Some("opt_group"@)
    } else if id == IDC_OPT_SUSPEND {
        Some("opt_suspend"@)
    } else if id == IDC_OPT_LOW_PRIO {
        Some("opt_low_priority"@)
    } else if id == IDC_OPT_CPU {
        Some("opt_cpu"@)
    } else if id == IDC_OPT_MEM {
        Some("opt_mem"@)
    } else if id == IDC_LIST_GAME || id == IDC_LIST_BG {
        Some("list_process_name"@)
    } else if id == IDC_ADV_TITLE {
        Some("advanced_title"@)
    } else if id == IDC_ADV_LBL_NAME {
        Some("field_name"@)
    } else if id == IDC_ADV_LBL_PRIO {
        Some("field_priority"@)
    } else if id == IDC_ADV_LBL_AFFINITY {
        Some("field_affinity"@)
    } else if id == IDC_ADV_LBL_QOS {
        Some("field_qos"@)
    } else if id == IDC_ADV_SUSPEND {
        Some("field_suspend"@)
    } else if id == IDC_ADV_TRIM {
        Some("field_trim"@)
    } else if id == IDC_ADV_RELOAD {
        Some("btn_reload"@)
    } else if id == IDC_ADV_APPLY {
        Some("btn_apply"@)
    } else {
        None
    }
}

/// The key of the text that a control shows (for a list: its column).
pub fn label_key(id: u32) -> (r: Option<&'static str>)
    ensures
        r is Some <==> label_of(id) is Some,
        r is Some ==> Some(r->0@) == label_of(id),
{
    if id == IDC_BTN_START {
        Some("btn_start")
    } else if id == IDC_BTN_STOP {
        Some("btn_stop")
    } else if id == IDC_BTN_LANG {
        Some("lang")
    } else if id == IDC_BTN_SAVE {
        Some("btn_save")
    } else if id == IDC_BTN_PICK_GAME || id == IDC_BTN_PICK_BG {
        Some("btn_pick_running")
    } else if id == IDC_BTN_ADD_GAME || id == IDC_BTN_ADD_BG {
        Some("btn_add")
    } else if id == IDC_LABEL_GAME {
        Some("list_games")
    } else if id == IDC_LABEL_BG {
        Some("list_background")
    } else if id == IDC_LABEL_OPT {
        Some("opt_group")
    } else if id == IDC_OPT_SUSPEND {
        Some("opt_suspend")
    } else if id == IDC_OPT_LOW_PRIO {
        Some("opt_low_priority")
    } else if id == IDC_OPT_CPU {
        Some("opt_cpu")
    } else if id == IDC_OPT_MEM {
        Some("opt_mem")
    } else if id == IDC_LIST_GAME || id == IDC_LIST_BG {
        Some("list_process_name")
    } else if id == IDC_ADV_TITLE {
        Some("advanced_title")
    } else if id == IDC_ADV_LBL_NAME {
        Some("field_name")
    } else if id == IDC_ADV_LBL_PRIO {
        Some("field_priority")
    } else if id == IDC_ADV_LBL_AFFINITY {
        Some("field_affinity")
    } else if id == IDC_ADV_LBL_QOS {
        Some("field_qos")
    } else if id == IDC_ADV_SUSPEND {
        Some("field_suspend")
    } else if id == IDC_ADV_TRIM {
        Some("field_trim")
    } else if id == IDC_ADV_RELOAD {
        Some("btn_reload")
    } else if id == IDC_ADV_APPLY {
        Some("btn_apply")
    } else {
        None
    }
}

// ---------------------------------------------------------------------------
// Starting the service
// ---------------------------------------------------------------------------
/// How often the service is asked again after it was launched.
pub const LAUNCH_PROBES: u32 = 5;

/// Where the start of the service stands.
#[derive(Debug, Clone, Copy, PartialEq, Eq, Structural)]
pub enum ProbePhase {
    /// Nothing is known of the service.
    Unknown,
    /// It was down and is being launched.
    Launching,
    /// It is being launched because the user asked for it.
    LaunchingOnRequest,
    /// It was launched, and was asked this often since.
    Waiting(u32),
    /// The matter is settled.
    Settled,
}

/// What came of a step.
#[derive(Debug, Clone, Copy, PartialEq, Eq, Structural)]
pub enum ProbeEvent {
    /// The user asks to start the service.
    Requested,
    /// The service answered or did not.
    Asked { up: bool },
    /// The launch was accepted or refused.
    Launched { ok: bool },
}

/// What to do next.
#[derive(Debug, Clone, Copy, PartialEq, Eq, Structural)]
pub enum ProbeStep {
    /// Nothing.
    Finish,
    /// Launch the service.
    Launch,
    /// Say that the service is starting, and ask it after a pause.
    AnnounceStart,
    /// Ask again after a pause.
    Wait,
    /// Say that the service is up.
    AnnounceUp,
    /// Say that the service could not be started.
    GiveUp,
}

/// The step after an event. `taken` says whether some launch is under way; only
/// one may be at a time.
pub open spec fn probe_step(phase: ProbePhase, taken: bool, event: ProbeEvent) -> (
    ProbePhase,
    bool,
    ProbeStep,
) {
    match (phase, event) {
        (ProbePhase::Unknown, ProbeEvent::Asked { up }) => if up || taken {
            (ProbePhase::Settled, taken, ProbeStep::Finish)
        } else {
            (ProbePhase::Launching, true, ProbeStep::Launch)
        },
        (ProbePhase::Unknown, ProbeEvent::Requested) => if taken {
            (ProbePhase::Settled, taken, ProbeStep::Finish)
        } else {
            (ProbePhase::LaunchingOnRequest, true, ProbeStep::Launch)
        },
        (ProbePhase::LaunchingOnRequest, ProbeEvent::Launched { ok: _ }) => (
            ProbePhase::Settled,
            false,
            ProbeStep::Finish,
        ),
        (ProbePhase::Launching, ProbeEvent::Launched { ok }) => if ok {
            (ProbePhase::Waiting(0), taken, ProbeStep::AnnounceStart)
        } else {
            (ProbePhase::Settled, false, ProbeStep::Finish)
        },
        (ProbePhase::Waiting(n), ProbeEvent::Asked { up }) => if up {
            (ProbePhase::Settled, false, ProbeStep::AnnounceUp)
        } else if n + 1 < LAUNCH_PROBES {
            (ProbePhase::Waiting((n + 1) as u32), taken, ProbeStep::Wait)
        } else {
            (ProbePhase::Settled, false, ProbeStep::GiveUp)
        },
        _ => (phase, taken, ProbeStep::Finish),
    }
}

/// Takes an event in.
pub fn next_probe_step(phase: ProbePhase, taken: bool, event: ProbeEvent) -> (r: (
    ProbePhase,
    bool,
    ProbeStep,
))
    ensures
        r == probe_step(phase, taken, event),
{
    match (phase, event) {
        (ProbePhase::Unknown, ProbeEvent::Asked { up }) => if up || taken {
            (ProbePhase::Settled, taken, ProbeStep::Finish)
        } else {
            (ProbePhase::Launching, true, ProbeStep::Launch)
        },
        (ProbePhase::Unknown, ProbeEvent::Requested) => if taken {
            (ProbePhase::Settled, taken, ProbeStep::Finish)
        } else {
            (ProbePhase::LaunchingOnRequest, true, ProbeStep::Launch)
        },
        (ProbePhase::LaunchingOnRequest, ProbeEvent::Launched { ok: _ }) => (
            ProbePhase::Settled,
            false,
            ProbeStep::Finish,
        ),
        (ProbePhase::Launching, ProbeEvent::Launched { ok }) => if ok {
            (ProbePhase::Waiting(0), taken, ProbeStep::AnnounceStart)
        } else {
            (ProbePhase::Settled, false, ProbeStep::Finish)
        },
        (ProbePhase::Waiting(n), ProbeEvent::Asked { up }) => if up {
            (ProbePhase::Settled, false, ProbeStep::AnnounceUp)
        } else if n < LAUNCH_PROBES - 1 {
            (ProbePhase::Waiting(n + 1), taken, ProbeStep::Wait)
        } else {
            (ProbePhase::Settled, false, ProbeStep::GiveUp)
        },
        _ => (phase, taken, ProbeStep::Finish),
    }
}

/// The phase is one in which a launch is under way.
pub open spec fn holds_launch(phase: ProbePhase) -> bool {
    phase == ProbePhase::Launching || phase == ProbePhase::LaunchingOnRequest || phase is Waiting
}

/// Only one launch is under way at a time: a launch is begun only where none is,
/// and from then on one is, until the matter is settled; when a probe that
/// launched the service is settled, none is.
pub proof fn one_launch_at_a_time(phase: ProbePhase, taken: bool, event: ProbeEvent)
    ensures
        probe_step(phase, taken, event).2 == ProbeStep::Launch ==> !taken && probe_step(
            phase,
            taken,
            event,
        ).1 && holds_launch(probe_step(phase, taken, event).0),
        holds_launch(phase) && probe_step(phase, taken, event).0 == ProbePhase::Settled
            ==> !probe_step(phase, taken, event).1,
        holds_launch(phase) && taken && probe_step(phase, taken, event).0 != ProbePhase::Settled
            ==> probe_step(phase, taken, event).1,
{
}

// ---------------------------------------------------------------------------
// Results of background calls
// ---------------------------------------------------------------------------
/// The results that were handed over and not taken yet, by address. Once the
/// window is gone nothing is handed over any more.
pub struct PendingIpc {
    destroyed: bool,
    boxes: Vec<usize>,
}

/// The results as a value.
pub struct PendingView {
    pub destroyed: bool,
    pub boxes: Set<usize>,
}

impl View for PendingIpc {
    type V = PendingView;

    closed spec fn view(&self) -> PendingView {
        PendingView { destroyed: self.destroyed, boxes: self.boxes@.to_set() }
    }
}

proof fn push_holds(s: Seq<usize>, a: usize)
    ensures
        forall|x: usize| #[trigger] s.push(a).contains(x) <==> s.contains(x) || x == a,
        s.no_duplicates() && !s.contains(a) ==> s.push(a).no_duplicates(),
{
    assert forall|x: usize| #[trigger] s.push(a).contains(x) <==> s.contains(x) || x == a by {
        assert(s.push(a)[s.len() as int] == a);
        if s.contains(x) {
            let i = choose|i: int| 0 <= i < s.len() && s[i] == x;
            assert(s.push(a)[i] == x);
        }
    }
}

impl PendingIpc {
    /// No result is handed over twice.
    pub closed spec fn wf(&self) -> bool {
        self.boxes@.no_duplicates()
    }

    pub fn new() -> (r: Self)
        ensures
            r.wf(),
            r@ == (PendingView { destroyed: false, boxes: Set::empty() }),
    {
        let r = PendingIpc { destroyed: false, boxes: Vec::new() };
        assert(r@.boxes =~= Set::<usize>::empty());
        r
    }

    fn holds(&self, raw: usize) -> (r: bool)
        ensures
            r == self.boxes@.contains(raw),
    {
        let mut i: usize = 0;
        while i < self.boxes.len()
            invariant
                i <= self.boxes@.len(),
                forall|k: int| 0 <= k < i ==> self.boxes@[k] != raw,
            decreases self.boxes@.len() - i,
        {
            if self.boxes[i] == raw {
                return true;
            }
            i = i + 1;
        }
        false
    }

    /// Hands a result over; `false` when the window is gone and the result stays
    /// with the caller.
    pub fn register(&mut self, raw: usize) -> (r: bool)
        requires
            old(self).wf(),
        ensures
            final(self).wf(),
            r == !old(self)@.destroyed,
            final(self)@.destroyed == old(self)@.destroyed,
            r ==> final(self)@.boxes == old(self)@.boxes.insert(raw),
            !r ==> final(self)@.boxes == old(self)@.boxes,
    {
        if self.destroyed {
            return false;
        }
        let ghost before = self.boxes@;
        if !self.holds(raw) {
            self.boxes.push(raw);
        }
        proof {
            push_holds(before, raw);
            assert(self.boxes@.to_set() =~= before.to_set().insert(raw));
        }
        true
    }

    /// Takes a result back; `false` when it was taken already and must not be
    /// touched again.
    pub fn reclaim(&mut self, raw: usize) -> (r: bool)
        requires
            old(self).wf(),
        ensures
            final(self).wf(),
            r == old(self)@.boxes.contains(raw),
            final(self)@.destroyed == old(self)@.destroyed,
            final(self)@.boxes == old(self)@.boxes.remove(raw),
    {
        let ghost before = self.boxes@;
        let mut kept: Vec<usize> = Vec::new();
        let mut found: bool = false;
        let mut i: usize = 0;
        while i < self.boxes.len()
            invariant
                i <= self.boxes@.len(),
                self.boxes@ == before,
                before.no_duplicates(),
                kept@.no_duplicates(),
                self.destroyed == old(self)@.destroyed,
                found <==> before.take(i as int).contains(raw),
                forall|x: usize| #[trigger]
                    kept@.contains(x) <==> before.take(i as int).contains(x) && x != raw,
            decreases self.boxes@.len() - i,
        {
            let b: usize = self.boxes[i];
            let ghost upto = before.take(i as int);
            proof {
                assert(before.take(i + 1) =~= upto.push(b));
                assert(!upto.contains(b));
                push_holds(upto, b);
                push_holds(kept@, b);
                assert(!kept@.contains(b));
            }
            if b == raw {
                found = true;
            } else {
                kept.push(b);
            }
            i = i + 1;
        }
        assert(before.take(i as int) =~= before);
        self.boxes = kept;
        assert(self.boxes@.to_set() =~= before.to_set().remove(raw));
        found
    }

    /// The window is gone: everything that was not taken, each once, to be freed.
    pub fn teardown(&mut self) -> (r: Vec<usize>)
        requires
            old(self).wf(),
        ensures
            final(self).wf(),
            r@.no_duplicates(),
            r@.to_set() == old(self)@.boxes,
            final(self)@ == (PendingView { destroyed: true, boxes: Set::empty() }),
    {
        self.destroyed = true;
        let mut taken: Vec<usize> = Vec::new();
        std::mem::swap(&mut self.boxes, &mut taken);
        assert(self@.boxes =~= Set::<usize>::empty());
        taken
    }
}

// ---------------------------------------------------------------------------
// The list of running processes
// ---------------------------------------------------------------------------
/// The names that are not empty, each once and in order.
pub fn sorted_names(names: &Vec<String>) -> (r: Vec<String>)
    ensures
        ascending(texts(r@)),
        forall|t: Seq<char>| #[trigger]
            texts(r@).contains(t) <==> texts(names@).contains(t) && t.len() > 0,
{
    let ghost all = texts(names@);
    let mut r: Vec<String> = Vec::new();
    let mut i: usize = 0;
    while i < names.len()
        invariant
            i <= names@.len(),
            all == texts(names@),
            ascending(texts(r@)),
            forall|t: Seq<char>| #[trigger]
                texts(r@).contains(t) <==> all.take(i as int).contains(t) && t.len() > 0,
        decreases names@.len() - i,
    {
        let ghost upto = all.take(i as int);
        let ghost t0 = names@[i as int]@;
        assert(all.take(i + 1) =~= upto.push(t0));
        assert forall|t: Seq<char>| upto.push(t0).contains(t) <==> upto.contains(t) || t == t0 by {
            assert(upto.push(t0)[i as int] == t0);
            if upto.contains(t) {
                let k = choose|k: int| 0 <= k < upto.len() && upto[k] == t;
                assert(upto.push(t0)[k] == t);
            }
        }
        if !names[i].as_str().is_empty() {
            insert_sorted(&mut r, names[i].clone());
        }
        i = i + 1;
    }
    assert(all.take(i as int) =~= all);
    r
}

/// No two controls ask for the same, and no two items of the tray menu do; what asks for
/// something in the window is one of its controls.
pub proof fn controls_ask_for_different_things(a: u32, b: u32)
    ensures
        command_of_control(a) is Some && command_of_control(a) == command_of_control(b) ==> a == b,
        tray_item(a) is Some && tray_item(a) == tray_item(b) ==> a == b,
        command_of_control(a) is Some ==> 100 <= a < 200,
{
}

} // verus!
