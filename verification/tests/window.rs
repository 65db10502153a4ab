//! The editor's window.

use aetheris::editor::ListKind;
use aetheris::i18n::Lang;
use aetheris::strings::tr;
use aetheris::window::{
    command_for, label_key, next_probe_step, reloads_editor, sorted_names, tray_click, tray_menu,
    PendingIpc, ProbeEvent, ProbePhase, ProbeStep, TrayCommand, UiCommand, IDC_BTN_ADD_BG,
    IDC_BTN_SAVE, IDC_COMBO_CPU, IDC_LIST_BG, IDC_LIST_GAME, IDM_EXIT, LVN_ITEMCHANGED,
    WM_LBUTTONUP, WM_RBUTTONUP,
};

#[test]
fn commands() {
    assert_eq!(command_for(IDC_BTN_SAVE, false), Some(UiCommand::Save));
    assert_eq!(command_for(IDC_BTN_SAVE, true), None);
    assert_eq!(command_for(IDC_BTN_SAVE | 0x1_0000, false), None, "no click");
    assert_eq!(
        command_for(IDC_BTN_ADD_BG, false),
        Some(UiCommand::Prompt(ListKind::Background))
    );
    assert_eq!(command_for(IDC_COMBO_CPU, false), None);
}

#[test]
fn tray() {
    assert_eq!(tray_click(WM_LBUTTONUP), Some(TrayCommand::Open));
    assert_eq!(tray_click(WM_RBUTTONUP), Some(TrayCommand::Menu));
    assert_eq!(tray_click(0x200), None);
    assert_eq!(tray_menu(IDM_EXIT), Some(TrayCommand::Exit));
    assert_eq!(tray_menu(0), None);
}

#[test]
fn only_a_changed_selection_loads_the_editor() {
    let ask = |list, old, new, busy, open| {
        reloads_editor(LVN_ITEMCHANGED, list, old, new, busy, open)
    };
    assert!(ask(IDC_LIST_BG, 0, 3, false, true));
    assert!(ask(IDC_LIST_BG, 2, 0, false, true));
    assert!(!ask(IDC_LIST_BG, 0x1000, 0x2000, false, true), "a checkbox");
    assert!(!ask(IDC_LIST_GAME, 0, 2, false, true));
    assert!(!ask(IDC_LIST_BG, 0, 2, true, true));
    assert!(!ask(IDC_LIST_BG, 0, 2, false, false));
    assert!(!reloads_editor(1, IDC_LIST_BG, 0, 2, false, true));
}

#[test]
fn every_label_has_a_text() {
    let mut n = 0;
    for id in 0..2000 {
        if let Some(key) = label_key(id) {
            n += 1;
            assert!(!tr(Lang::En, key).is_empty(), "{key}");
            assert!(!tr(Lang::Zh, key).is_empty(), "{key}");
        }
    }
    assert_eq!(n, 26);
}

#[test]
fn service_is_launched_once_and_asked_five_times() {
    let up = |up| ProbeEvent::Asked { up };
    assert_eq!(
        next_probe_step(ProbePhase::Unknown, false, up(true)),
        (ProbePhase::Settled, false, ProbeStep::Finish)
    );
    assert_eq!(
        next_probe_step(ProbePhase::Unknown, true, up(false)),
        (ProbePhase::Settled, true, ProbeStep::Finish),
        "another launch is under way"
    );
    let (mut phase, mut taken, step) = next_probe_step(ProbePhase::Unknown, false, up(false));
    assert_eq!((taken, step), (true, ProbeStep::Launch));
    assert_eq!(
        next_probe_step(phase, taken, ProbeEvent::Launched { ok: false }),
        (ProbePhase::Settled, false, ProbeStep::Finish)
    );
    let (p, t, step) = next_probe_step(phase, taken, ProbeEvent::Launched { ok: true });
    assert_eq!(step, ProbeStep::AnnounceStart);
    (phase, taken) = (p, t);
    let mut asked = 0;
    let last = loop {
        let (p, t, step) = next_probe_step(phase, taken, up(false));
        asked += 1;
        (phase, taken) = (p, t);
        if step != ProbeStep::Wait {
            break step;
        }
    };
    assert_eq!((asked, last, taken), (5, ProbeStep::GiveUp, false));
    assert_eq!(
        next_probe_step(ProbePhase::Waiting(3), true, up(true)),
        (ProbePhase::Settled, false, ProbeStep::AnnounceUp)
    );
}

#[test]
fn service_is_launched_on_request() {
    let (phase, taken, step) = next_probe_step(ProbePhase::Unknown, false, ProbeEvent::Requested);
    assert_eq!((taken, step), (true, ProbeStep::Launch));
    for ok in [false, true] {
        assert_eq!(
            next_probe_step(phase, taken, ProbeEvent::Launched { ok }),
            (ProbePhase::Settled, false, ProbeStep::Finish)
        );
    }
    assert_eq!(
        next_probe_step(ProbePhase::Unknown, true, ProbeEvent::Requested),
        (ProbePhase::Settled, true, ProbeStep::Finish)
    );
}

#[test]
fn results_are_taken_once() {
    let mut p = PendingIpc::new();
    assert!(p.register(10));
    assert!(p.register(20));
    assert!(p.register(20));
    assert!(p.reclaim(10));
    assert!(!p.reclaim(10));
    assert!(p.register(30));
    let mut left = p.teardown();
    left.sort();
    assert_eq!(left, vec![20, 30]);
    assert!(!p.reclaim(20));
    assert!(!p.register(40));
    assert!(p.teardown().is_empty());
}

#[test]
fn names_are_sorted_and_distinct() {
    let list: Vec<String> =
        ["b.exe", "", "a.exe", "b.exe", "B.exe", "ä", "a"].iter().map(|s| s.to_string()).collect();
    let mut expected: Vec<String> = list.iter().filter(|s| !s.is_empty()).cloned().collect();
    expected.sort();
    expected.dedup();
    assert_eq!(sorted_names(&list), expected);
}
