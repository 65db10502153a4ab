//! Command lines.

use aetheris::cli::{
    cli_output, cli_request, parse_cli, parse_service, parse_window, subcommand, CliCommand,
    Subcommand,
};
use aetheris::config::Config;
use aetheris::ipc::{ProcessInfo, Request, Response, StateSnapshot, DEFAULT_PIPE};

fn words(s: &str) -> Vec<String> {
    s.split_whitespace().map(str::to_string).collect()
}

#[test]
fn modes() {
    assert_eq!(subcommand(&words("")), Subcommand::Ui);
    assert_eq!(subcommand(&words("ui --pipe x")), Subcommand::Ui);
    assert_eq!(subcommand(&words("service")), Subcommand::Service);
    assert_eq!(subcommand(&words("overlay")), Subcommand::Overlay);
    assert_eq!(subcommand(&words("cli get-state")), Subcommand::Cli);
    assert_eq!(subcommand(&words("-V")), Subcommand::Version);
    assert_eq!(subcommand(&words("--version")), Subcommand::Version);
    assert_eq!(subcommand(&words("Service")), Subcommand::Unknown);
}

#[test]
fn client_arguments() {
    let a = parse_cli(&words("get-state"));
    assert_eq!(a.pipe, DEFAULT_PIPE);
    assert!(matches!(cli_request(&a), Some(Request::GetState)));
    let a = parse_cli(&words("--pipe p1 reload"));
    assert_eq!(a.pipe, "p1");
    assert!(matches!(cli_request(&a), Some(Request::ReloadConfig)));
    let a = parse_cli(&words("query chrome --pipe p2 noise"));
    assert_eq!(a.pipe, "p2");
    match cli_request(&a) {
        Some(Request::QueryProcess(n)) => assert_eq!(n, "chrome"),
        other => panic!("unexpected request {other:?}"),
    }
    match cli_request(&parse_cli(&words("query"))) {
        Some(Request::QueryProcess(n)) => assert_eq!(n, ""),
        other => panic!("unexpected request {other:?}"),
    }
    let a = parse_cli(&words("query reload"));
    assert_eq!(a.command, Some(CliCommand::Reload));
    assert_eq!(a.name.as_deref(), Some("reload"));
    assert!(cli_request(&parse_cli(&words("--pipe"))).is_none());
    assert!(cli_request(&parse_cli(&words("--pipe get-state"))).is_none());
}

#[test]
fn service_arguments() {
    assert_eq!(parse_service(&words("")), None);
    assert_eq!(parse_service(&words("--config a.toml")).as_deref(), Some("a.toml"));
    assert_eq!(
        parse_service(&words("x --config a --config b --config")).as_deref(),
        Some("b")
    );
}

#[test]
fn window_arguments() {
    assert_eq!(parse_window(&words("")), Ok(DEFAULT_PIPE.to_string()));
    assert_eq!(parse_window(&words("--pipe p --pipe q")), Ok("q".to_string()));
    assert_eq!(parse_window(&words("--pipe")), Err("--pipe requires a value".to_string()));
    assert_eq!(parse_window(&words("--pipe p z")), Err("unknown argument: z".to_string()));
}

#[test]
fn output() {
    let none = StateSnapshot { mode: "Normal".into(), ..Default::default() };
    assert_eq!(
        cli_output(&Response::State(none)),
        vec!["mode: Normal", "boosted:", "  (none)"]
    );
    let some = StateSnapshot {
        mode: "GameBoost".into(),
        boosted: vec![ProcessInfo { pid: 12, name: "b.exe".into(), is_game: false }],
        ..Default::default()
    };
    assert_eq!(
        cli_output(&Response::State(some)),
        vec!["mode: GameBoost", "boosted:", "  b.exe (pid 12)"]
    );
    assert_eq!(cli_output(&Response::Reload("queued".into())), vec!["reload: queued"]);
    assert_eq!(
        cli_output(&Response::Config(Config::default())),
        vec!["processes: 0; background rules: 0; always rules: 0"]
    );
    assert_eq!(cli_output(&Response::SaveConfig(Ok("saved".into()))), vec!["saved: saved"]);
    assert_eq!(cli_output(&Response::SaveConfig(Err("no".into()))), vec!["save failed: no"]);
    let p = ProcessInfo { pid: 3, name: "g.exe".into(), is_game: true };
    assert_eq!(cli_output(&Response::Process(Some(p))), vec!["g.exe (pid 3, game=true)"]);
    assert_eq!(cli_output(&Response::Process(None)), vec!["not found"]);
}
