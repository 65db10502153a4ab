//! Messages, frames and answers.

use aetheris::config::{Config, GameConfig};
use aetheris::ipc::{
    answer, asks_elevation, find_process, frame, message_length, open_step, save_response, unframe,
    Answer, IpcServer, OpenOutcome, OpenStep, ProcessInfo, Relay, Request, Response,
    StateSnapshot, DEFAULT_PIPE, DEFAULT_PIPE_DACL, ERROR_NO_PROCESS, ERROR_PIPE_BUSY, MAX_MSG,
};

#[test]
fn dacl_least_privilege_for_interactive_users() {
    let d = DEFAULT_PIPE_DACL;
    assert!(d.contains("(A;;GA;;;SY)"), "SYSTEM must retain full access");
    assert!(d.contains("(A;;GR;;;IU)"), "IU must get read");
    assert!(d.contains("(A;;GW;;;IU)"), "IU must get write");
    assert!(!d.contains("(A;;GA;;;IU)"), "IU must NOT get generic-all (WRITE_DAC/WRITE_OWNER)");
}

fn snapshot() -> StateSnapshot {
    StateSnapshot {
        mode: "Normal".into(),
        boosted: vec![],
        processes: vec![
            ProcessInfo { pid: 1, name: "other.exe".into(), is_game: false },
            ProcessInfo { pid: 42, name: "Browser.EXE".into(), is_game: false },
            ProcessInfo { pid: 43, name: "browser.exe".into(), is_game: false },
        ],
        config: Config {
            game: GameConfig { processes: vec!["game.exe".into()], ..Default::default() },
            ..Default::default()
        },
        ..StateSnapshot::default()
    }
}

#[test]
fn roundtrip_get_state_and_query() {
    let s = snapshot();
    match answer(&s, &Request::GetState, false) {
        Answer::Reply(Response::State(got)) => assert_eq!(got.mode, "Normal"),
        other => panic!("unexpected response: {other:?}"),
    }
    match answer(&s, &Request::QueryProcess("browser.exe".into()), false) {
        Answer::Reply(Response::Process(p)) => assert_eq!(p.unwrap().pid, 42),
        other => panic!("unexpected response: {other:?}"),
    }
    match answer(&s, &Request::ReloadConfig, false) {
        Answer::Relay(Relay::Reload, Response::Reload(m)) => assert_eq!(m, "queued"),
        other => panic!("unexpected response: {other:?}"),
    }
    let cfg = match answer(&s, &Request::GetConfig, false) {
        Answer::Reply(Response::Config(c)) => c,
        other => panic!("unexpected response: {other:?}"),
    };
    assert_eq!(cfg.game.processes, vec!["game.exe".to_string()]);
    assert!(matches!(answer(&s, &Request::SaveConfig(cfg), true), Answer::Save(_)));
    assert!(matches!(
        save_response(Some(Ok("saved".into()))),
        Response::SaveConfig(Ok(_))
    ));
}

#[test]
fn roundtrip_stop_service() {
    match answer(&snapshot(), &Request::StopService, false) {
        Answer::Relay(Relay::Stop, Response::Reload(m)) => assert_eq!(m, "stopping"),
        other => panic!("StopService roundtrip: got {other:?}"),
    }
}

#[test]
fn roundtrip_toggle_overlay() {
    match answer(&snapshot(), &Request::ToggleOverlay, false) {
        Answer::Relay(Relay::ToggleOverlay, Response::Reload(m)) => assert_eq!(m, "toggled"),
        other => panic!("ToggleOverlay roundtrip: got {other:?}"),
    }
}

#[test]
fn saving_is_refused_without_elevation() {
    let req = Request::SaveConfig(Config::default());
    assert!(asks_elevation(&req));
    assert!(!asks_elevation(&Request::GetState));
    match answer(&snapshot(), &req, false) {
        Answer::Reply(Response::SaveConfig(Err(e))) => assert_eq!(e, "requires elevation"),
        other => panic!("unexpected answer: {other:?}"),
    }
    match save_response(None) {
        Response::SaveConfig(Err(e)) => assert_eq!(e, "service unavailable"),
        other => panic!("unexpected response: {other:?}"),
    }
}

#[test]
fn query_is_a_substring_search() {
    let s = snapshot();
    assert_eq!(find_process(&s.processes, "OTHER").unwrap().pid, 1);
    assert_eq!(find_process(&s.processes, "").unwrap().pid, 1);
    assert!(find_process(&s.processes, "missing").is_none());
}

#[test]
fn frames() {
    let payload = vec![1u8, 2, 3];
    let f = frame(&payload);
    assert_eq!(f, vec![3, 0, 0, 0, 1, 2, 3]);
    assert_eq!(unframe(&f), Some(payload.clone()));
    let mut longer = f.clone();
    longer.push(9);
    assert_eq!(unframe(&longer), Some(payload));
    assert_eq!(unframe(&f[..6]), None);
    assert_eq!(unframe(&[1, 0, 0]), None);
    assert_eq!(unframe(&frame(&vec![])), None);
    let big = vec![7u8; MAX_MSG];
    assert_eq!(unframe(&frame(&big)).map(|b| b.len()), Some(1 << 20));
    assert_eq!(unframe(&frame(&vec![7u8; MAX_MSG + 1])), None);
}

#[test]
fn lengths_out_of_range_are_named() {
    assert_eq!(message_length(&[0, 0, 0x10, 0]), Ok(1 << 20));
    assert_eq!(
        message_length(&[1, 0, 0x10, 0]),
        Err("response length 1048577 out of range".to_string())
    );
    assert_eq!(
        message_length(&[0, 0, 0, 0]),
        Err("response length 0 out of range".to_string())
    );
    assert_eq!(
        message_length(&[0xff, 0xff, 0xff, 0xff]),
        Err("response length 4294967295 out of range".to_string())
    );
}

#[test]
fn opening_is_tried_five_times() {
    for attempt in 1..5 {
        assert!(matches!(open_step(attempt, &OpenOutcome::NotReady), OpenStep::Retry));
    }
    match open_step(5, &OpenOutcome::NotReady) {
        OpenStep::GiveUp(m) => assert_eq!(m, "CreateFileW: pipe unavailable after retries"),
        other => panic!("unexpected step: {other:?}"),
    }
    for code in [ERROR_PIPE_BUSY, ERROR_NO_PROCESS] {
        let busy = OpenOutcome::Failed { code, message: "x".into() };
        assert!(matches!(open_step(1, &busy), OpenStep::Retry));
    }
    let denied = OpenOutcome::Failed { code: 5, message: "access denied".into() };
    match open_step(1, &denied) {
        OpenStep::GiveUp(m) => assert_eq!(m, "CreateFileW: access denied"),
        other => panic!("unexpected step: {other:?}"),
    }
    assert!(matches!(open_step(5, &OpenOutcome::Opened), OpenStep::Proceed));
}

#[test]
fn servers() {
    let plain = IpcServer::new(DEFAULT_PIPE);
    assert_eq!(plain.pipe_name(), r"\\.\pipe\aetheris");
    assert_eq!(plain.dacl(), None);
    let open = IpcServer::new_with_dacl("p", DEFAULT_PIPE_DACL);
    assert_eq!(open.pipe_name(), "p");
    assert_eq!(open.dacl(), Some(DEFAULT_PIPE_DACL));
}
