//! Command lines: which mode runs, with which arguments, and what the
//! command-line client prints.

use vstd::prelude::*;

use crate::ipc::{
    info_views, saved_view, InfoView, ProcessInfo, Request, Response, ResponseView, DEFAULT_PIPE,
};
use crate::text::{copy_text, decimal, decimal_text, join2, same_text, text_in, texts};

verus! {

// ---------------------------------------------------------------------------
// Modes
// ---------------------------------------------------------------------------
/// What the program is asked to be.
#[derive(Debug, Clone, Copy, PartialEq, Eq, Structural)]
pub enum Subcommand {
    Service,
    Ui,
    Overlay,
    Cli,
    Version,
    Unknown,
}

/// The mode that a word asks for.
pub open spec fn subcommand_of(word: Seq<char>) -> Subcommand {
    if word == "service"@ {
        Subcommand::Service
    } else if word == "ui"@ {
        Subcommand::Ui
    } else if word == "overlay"@ {
        Subcommand::Overlay
    } else if word == "cli"@ {
        Subcommand::Cli
    } else if word == "--version"@ || word == "-V"@ {
        Subcommand::Version
    } else {
        Subcommand::Unknown
    }
}

/// The mode of a command line: its first word, or the user interface.
pub fn subcommand(args: &Vec<String>) -> (r: Subcommand)
    ensures
        r == if args@.len() == 0 {
            Subcommand::Ui
        } else {
            subcommand_of(args@[0]@)
        },
{
    if args.len() == 0 {
        return Subcommand::Ui;
    }
    let word = args[0].as_str();
    if same_text(word, "service") {
        Subcommand::Service
    } else if same_text(word, "ui") {
        Subcommand::Ui
    } else if same_text(word, "overlay") {
        Subcommand::Overlay
    } else if same_text(word, "cli") {
        Subcommand::Cli
    } else if same_text(word, "--version") || same_text(word, "-V") {
        Subcommand::Version
    } else {
        Subcommand::Unknown
    }
}

// ---------------------------------------------------------------------------
// Arguments
// ---------------------------------------------------------------------------
/// The commands of the client.
#[derive(Debug, Clone, Copy, PartialEq, Eq, Structural)]
pub enum CliCommand {
    GetState,
    Reload,
    Query,
}

/// What the arguments of the client say.
#[derive(Debug)]
pub struct CliArgs {
    pub pipe: String,
    pub command: Option<CliCommand>,
    pub name: Option<String>,
}

/// The arguments as values.
pub struct CliView {
    pub pipe: Seq<char>,
    pub command: Option<CliCommand>,
    pub name: Option<Seq<char>>,
}

impl View for CliArgs {
    type V = CliView;

    open spec fn view(&self) -> CliView {
        CliView { pipe: self.pipe@, command: self.command, name: text_in(self.name) }
    }
}

/// The command that a word is.
pub open spec fn command_of(word: Seq<char>) -> Option<CliCommand> {
    if word == "get-state"@ {
        Some(CliCommand::GetState)
    } else if word == "reload"@ {
        Some(CliCommand::Reload)
    } else if word == "query"@ {
        Some(CliCommand::Query)
    } else {
        None
    }
}

/// The arguments from position `at` on, read into what was read before. `--pipe`
/// takes the next word as its value; a later command replaces an earlier one,
/// and the word behind `query` is the name to look for. Other words are passed
/// over.
pub open spec fn cli_from(args: Seq<Seq<char>>, at: int, v: CliView) -> CliView
    decreases args.len() - at,
{
    if at < 0 || at >= args.len() {
        v
    } else if args[at] == "--pipe"@ {
        if at + 1 < args.len() {
            cli_from(args, at + 2, (CliView { pipe: args[at + 1], ..v }))
        } else {
            v
        }
    } else {
        match command_of(args[at]) {
            Some(c) => cli_from(
                args,
                at + 1,
                (CliView {
                    command: Some(c),
                    name: if c == CliCommand::Query && at + 1 < args.len() {
                        Some(args[at + 1])
                    } else {
                        v.name
                    },
                    ..v
                }),
            ),
            None => cli_from(args, at + 1, v),
        }
    }
}

/// What the arguments of the client say.
pub open spec fn cli_args(args: Seq<Seq<char>>) -> CliView {
    cli_from(args, 0, (CliView { pipe: DEFAULT_PIPE@, command: None, name: None }))
}

fn command_word(word: &str) -> (r: Option<CliCommand>)
    ensures
        r == command_of(word@),
{
    if same_text(word, "get-state") {
        Some(CliCommand::GetState)
    } else if same_text(word, "reload") {
        Some(CliCommand::Reload)
    } else if same_text(word, "query") {
        Some(CliCommand::Query)
    } else {
        None
    }
}

/// Reads the arguments of the client.
pub fn parse_cli(args: &Vec<String>) -> (r: CliArgs)
    ensures
        r@ == cli_args(texts(args@)),
{
    let ghost all = texts(args@);
    let mut pipe = copy_text(DEFAULT_PIPE);
    let mut command: Option<CliCommand> = None;
    let mut name: Option<String> = None;
    let mut i: usize = 0;
    while i < args.len()
        invariant
            i <= args@.len(),
            all == texts(args@),
            cli_args(all) == cli_from(
                all,
                i as int,
                (CliView { pipe: pipe@, command, name: text_in(name) }),
            ),
        decreases args@.len() - i,
    {
        assert(all[i as int] == args@[i as int]@);
        let word = args[i].as_str();
        if same_text(word, "--pipe") {
            i = i + 1;
            if i < args.len() {
                assert(all[i as int] == args@[i as int]@);
                pipe = args[i].clone();
                i = i + 1;
            }
        } else {
            if let Some(c) = command_word(word) {
                command = Some(c);
                if c == CliCommand::Query && i + 1 < args.len() {
                    assert(all[i + 1] == args@[i + 1]@);
                    name = Some(args[i + 1].clone());
                }
            }
            i = i + 1;
        }
    }
    CliArgs { pipe, command, name }
}

/// The request of a command line; none where it holds no command.
pub fn cli_request(args: &CliArgs) -> (r: Option<Request>)
    ensures
        r is Some <==> args@.command is Some,
        args@.command == Some(CliCommand::GetState) ==> r->0 is GetState,
        args@.command == Some(CliCommand::Reload) ==> r->0 is ReloadConfig,
        args@.command == Some(CliCommand::Query) ==> r->0 is QueryProcess && r->0->QueryProcess_0@
            == match args@.name {
            Some(n) => n,
            None => Seq::empty(),
        },
{
    match args.command {
        Some(CliCommand::GetState) => Some(Request::GetState),
        Some(CliCommand::Reload) => Some(Request::ReloadConfig),
        Some(CliCommand::Query) => Some(
            Request::QueryProcess(
                match &args.name {
                    Some(n) => n.clone(),
                    None => {
                        let e = String::new();
                        assert(e@ =~= Seq::<char>::empty());
                        e
                    },
                },
            ),
        ),
        None => None,
    }
}

/// The configuration path in the arguments of the service from position `at` on:
/// the value of the last `--config` that has one.
pub open spec fn config_from(
    args: Seq<Seq<char>>,
    at: int,
    found: Option<Seq<char>>,
) -> Option<Seq<char>>
    decreases args.len() - at,
{
    if at < 0 || at >= args.len() {
        found
    } else if args[at] == "--config"@ {
        if at + 1 < args.len() {
            config_from(args, at + 2, Some(args[at + 1]))
        } else {
            found
        }
    } else {
        config_from(args, at + 1, found)
    }
}

/// Reads the configuration path from the arguments of the service.
pub fn parse_service(args: &Vec<String>) -> (r: Option<String>)
    ensures
        text_in(r) == config_from(texts(args@), 0, None),
{
    let ghost all = texts(args@);
    let mut found: Option<String> = None;
    let mut i: usize = 0;
    while i < args.len()
        invariant
            i <= args@.len(),
            all == texts(args@),
            config_from(all, 0, None) == config_from(all, i as int, text_in(found)),
        decreases args@.len() - i,
    {
        assert(all[i as int] == args@[i as int]@);
        if same_text(args[i].as_str(), "--config") {
            i = i + 1;
            if i < args.len() {
                assert(all[i as int] == args@[i as int]@);
                found = Some(args[i].clone());
                i = i + 1;
            }
        } else {
            i = i + 1;
        }
    }
    found
}

/// The pipe in the arguments of a window from position `at` on; nothing else may
/// stand there.
pub open spec fn pipe_from(args: Seq<Seq<char>>, at: int, pipe: Seq<char>) -> Result<
    Seq<char>,
    Seq<char>,
>
    decreases args.len() - at,
{
    if at < 0 || at >= args.len() {
        Ok(pipe)
    } else if args[at] == "--pipe"@ {
        if at + 1 < args.len() {
            pipe_from(args, at + 2, args[at + 1])
        } else {
            Err("--pipe requires a value"@)
        }
    } else {
        Err("unknown argument: "@ + args[at])
    }
}

/// Reads the pipe from the arguments of a window.
pub fn parse_window(args: &Vec<String>) -> (r: Result<String, String>)
    ensures
        saved_view(r) == pipe_from(texts(args@), 0, DEFAULT_PIPE@),
{
    let ghost all = texts(args@);
    let mut pipe = copy_text(DEFAULT_PIPE);
    let mut i: usize = 0;
    while i < args.len()
        invariant
            i <= args@.len(),
            all == texts(args@),
            pipe_from(all, 0, DEFAULT_PIPE@) == pipe_from(all, i as int, pipe@),
        decreases args@.len() - i,
    {
        assert(all[i as int] == args@[i as int]@);
        if same_text(args[i].as_str(), "--pipe") {
            if i + 1 < args.len() {
                assert(all[i + 1] == args@[i + 1]@);
                pipe = args[i + 1].clone();
                i = i + 2;
            } else {
                return Err(copy_text("--pipe requires a value"));
            }
        } else {
            return Err(join2("unknown argument: ", args[i].as_str()));
        }
    }
    Ok(pipe)
}

// ---------------------------------------------------------------------------
// Output of the client
// ---------------------------------------------------------------------------
/// A boosted process as the client prints it.
pub open spec fn boosted_line(p: InfoView) -> Seq<char> {
    "  "@ + p.name + " (pid "@ + decimal(p.pid as nat) + ")"@
}

/// Whether a process is a game, in words.
pub open spec fn bool_text(b: bool) -> Seq<char> {
    if b {
        "true"@
    } else {
        "false"@
    }
}

/// What the client prints for a response.
pub open spec fn output_for(resp: ResponseView) -> Seq<Seq<char>> {
    match resp {
        ResponseView::State(s) => {
            let head = seq!["mode: "@ + s.mode, "boosted:"@];
            if s.boosted.len() == 0 {
                head.push("  (none)"@)
            } else {
                head + s.boosted.map_values(|p: InfoView| boosted_line(p))
            }
        },
        ResponseView::Reload(m) => seq!["reload: "@ + m],
        ResponseView::Config(c) => seq![
            "processes: "@ + decimal(c.game.processes.len()) + "; background rules: "@ + decimal(
                c.background.len(),
            ) + "; always rules: "@ + decimal(c.rule.len()),
        ],
        ResponseView::SaveConfig(r) => match r {
            Ok(m) => seq!["saved: "@ + m],
            Err(e) => seq!["save failed: "@ + e],
        },
        ResponseView::Process(p) => match p {
            Some(p) => seq![
                p.name + " (pid "@ + decimal(p.pid as nat) + ", game="@ + bool_text(p.is_game)
                    + ")"@,
            ],
            None => seq!["not found"@],
        },
    }
}

fn one_line(line: String) -> (r: Vec<String>)
    ensures
        texts(r@) == seq![line@],
{
    let mut r: Vec<String> = Vec::new();
    r.push(line);
    assert(texts(r@) =~= seq![line@]);
    r
}

fn boosted_line_text(p: &ProcessInfo) -> (r: String)
    ensures
        r@ == boosted_line(p@),
{
    let mut line = join2("  ", p.name.as_str());
    line.append(" (pid ");
    line.append(decimal_text(p.pid as u64).as_str());
    line.append(")");
    line
}

/// The lines that the client prints for a response.
pub fn cli_output(resp: &Response) -> (r: Vec<String>)
    ensures
        texts(r@) == output_for(resp@),
{
    match resp {
        Response::State(s) => {
            let mut r: Vec<String> = Vec::new();
            r.push(join2("mode: ", s.mode.as_str()));
            r.push(copy_text("boosted:"));
            let ghost head = seq!["mode: "@ + s.mode@, "boosted:"@];
            let ghost all = info_views(s.boosted@).map_values(|p: InfoView| boosted_line(p));
            assert(texts(r@) =~= head + all.take(0));
            let mut i: usize = 0;
            while i < s.boosted.len()
                invariant
                    i <= s.boosted@.len(),
                    all == info_views(s.boosted@).map_values(|p: InfoView| boosted_line(p)),
                    texts(r@) == head + all.take(i as int),
                decreases s.boosted@.len() - i,
            {
                let ghost before = r@;
                r.push(boosted_line_text(&s.boosted[i]));
                assert(texts(r@) =~= texts(before).push(all[i as int]));
                i = i + 1;
                assert(texts(r@) =~= head + all.take(i as int));
            }
            assert(all.take(i as int) =~= all);
            if s.boosted.len() == 0 {
                let ghost before = r@;
                r.push(copy_text("  (none)"));
                assert(texts(r@) =~= texts(before).push("  (none)"@));
                assert(head + all.take(0) =~= head);
            }
            r
        },
        Response::Reload(m) => one_line(join2("reload: ", m.as_str())),
        Response::Config(c) => {
            let mut line = join2(
                "processes: ",
                decimal_text(c.game.processes.len() as u64).as_str(),
            );
            line.append("; background rules: ");
            line.append(decimal_text(c.background.len() as u64).as_str());
            line.append("; always rules: ");
            line.append(decimal_text(c.rule.len() as u64).as_str());
            one_line(line)
        },
        Response::SaveConfig(Ok(m)) => one_line(join2("saved: ", m.as_str())),
        Response::SaveConfig(Err(e)) => one_line(join2("save failed: ", e.as_str())),
        Response::Process(Some(p)) => {
            let mut line = join2(p.name.as_str(), " (pid ");
            line.append(decimal_text(p.pid as u64).as_str());
            line.append(", game=");
            line.append(
                if p.is_game {
                    "true"
                } else {
                    "false"
                },
            );
            line.append(")");
            one_line(line)
        },
        Response::Process(None) => one_line(copy_text("not found")),
    }
}

// ---------------------------------------------------------------------------
// What command lines say
// ---------------------------------------------------------------------------
/// No word is this one.
pub open spec fn lacks_word(args: Seq<Seq<char>>, word: Seq<char>) -> bool {
    forall|i: int| 0 <= i < args.len() ==> #[trigger] args[i] != word
}

proof fn no_config_from(args: Seq<Seq<char>>, at: int, found: Option<Seq<char>>)
    requires
        0 <= at <= args.len(),
        forall|i: int| at <= i < args.len() ==> #[trigger] args[i] != "--config"@,
    ensures
        config_from(args, at, found) == found,
    decreases args.len() - at,
{
    if at < args.len() {
        no_config_from(args, at + 1, found);
    }
}

proof fn config_at(args: Seq<Seq<char>>, at: int, k: int)
    requires
        0 <= at <= k < args.len(),
        forall|i: int| at <= i < k ==> #[trigger] args[i] != "--config"@,
    ensures
        config_from(args, at, None) == config_from(args, k, None),
    decreases k - at,
{
    if at < k {
        config_at(args, at + 1, k);
    }
}

/// The service takes its configuration from the word behind `--config`, wherever that
/// stands among other words; without it there is none.
pub proof fn service_takes_its_configuration(
    before: Seq<Seq<char>>,
    path: Seq<char>,
    after: Seq<Seq<char>>,
)
    requires
        lacks_word(before, "--config"@),
        lacks_word(after, "--config"@),
    ensures
        config_from(before + seq!["--config"@, path] + after, 0, None) == Some(path),
        config_from(before, 0, None) is None,
{
    no_config_from(before, 0, None);
    let args = before + seq!["--config"@, path] + after;
    let k = before.len() as int;
    assert forall|i: int| 0 <= i < k implies #[trigger] args[i] != "--config"@ by {
        assert(args[i] == before[i]);
    }
    config_at(args, 0, k);
    assert(args[k] == "--config"@ && args[k + 1] == path);
    assert forall|i: int| k + 2 <= i < args.len() implies #[trigger] args[i] != "--config"@ by {
        assert(args[i] == after[i - k - 2]);
    }
    no_config_from(args, k + 2, Some(path));
}

/// A word that the client passes over.
pub open spec fn is_noise(word: Seq<char>) -> bool {
    word != "--pipe"@ && word != "get-state"@ && word != "reload"@ && word != "query"@
}

proof fn noise_is_passed_over(args: Seq<Seq<char>>, at: int, to: int, v: CliView)
    requires
        0 <= at <= to <= args.len(),
        forall|i: int| at <= i < to ==> is_noise(#[trigger] args[i]),
    ensures
        cli_from(args, at, v) == cli_from(args, to, v),
    decreases to - at,
{
    if at < to {
        assert(is_noise(args[at]));
        noise_is_passed_over(args, at + 1, to, v);
    }
}

/// The client takes its pipe from the word behind `--pipe` and otherwise the default one,
/// and its command from the one command among its words, wherever other words stand.
#[verifier::rlimit(40)]
pub proof fn client_takes_pipe_and_command(
    a: Seq<Seq<char>>,
    pipe: Seq<char>,
    b: Seq<Seq<char>>,
    command: CliCommand,
    c: Seq<Seq<char>>,
)
    requires
        forall|i: int| 0 <= i < a.len() ==> is_noise(#[trigger] a[i]),
        forall|i: int| 0 <= i < b.len() ==> is_noise(#[trigger] b[i]),
        forall|i: int| 0 <= i < c.len() ==> is_noise(#[trigger] c[i]),
    ensures
        ({
            let word = match command {
                CliCommand::GetState => "get-state"@,
                CliCommand::Reload => "reload"@,
                CliCommand::Query => "query"@,
            };
            let r = cli_args(a + seq!["--pipe"@, pipe] + b + seq![word] + c);
            &&& r.pipe == pipe
            &&& r.command == Some(command)
            &&& r.name == if command == CliCommand::Query && c.len() > 0 {
                Some(c[0])
            } else {
                None
            }
        }),
        cli_args(a).pipe == DEFAULT_PIPE@ && cli_args(a).command is None,
{
    let start = CliView { pipe: DEFAULT_PIPE@, command: None, name: None };
    noise_is_passed_over(a, 0, a.len() as int, start);
    let word = match command {
        CliCommand::GetState => "get-state"@,
        CliCommand::Reload => "reload"@,
        CliCommand::Query => "query"@,
    };
    let args = a + seq!["--pipe"@, pipe] + b + seq![word] + c;
    let n = a.len() as int;
    let m = n + 2 + b.len();
    assert forall|i: int| 0 <= i < n implies is_noise(#[trigger] args[i]) by {
        assert(args[i] == a[i]);
    }
    noise_is_passed_over(args, 0, n, start);
    assert(args[n] == "--pipe"@ && args[n + 1] == pipe);
    let piped = CliView { pipe, ..start };
    assert(cli_from(args, n, start) == cli_from(args, n + 2, piped));
    assert forall|i: int| n + 2 <= i < m implies is_noise(#[trigger] args[i]) by {
        assert(args[i] == b[i - n - 2]);
    }
    noise_is_passed_over(args, n + 2, m, piped);
    assert(args[m] == word);
    reveal_strlit("--pipe");
    reveal_strlit("get-state");
    reveal_strlit("reload");
    reveal_strlit("query");
    assert("--pipe"@.len() == 6 && "get-state"@.len() == 9 && "reload"@.len() == 6
        && "query"@.len() == 5);
    assert("--pipe"@[0] != "reload"@[0]);
    assert(word != "--pipe"@);
    assert(command_of(word) == Some(command));
    if c.len() > 0 {
        assert(args[m + 1] == c[0]);
    }
    let read = CliView {
        command: Some(command),
        name: if command == CliCommand::Query && c.len() > 0 {
            Some(c[0])
        } else {
            None
        },
        ..piped
    };
    assert(cli_from(args, m, piped) == cli_from(args, m + 1, read));
    assert forall|i: int| m + 1 <= i < args.len() implies is_noise(#[trigger] args[i]) by {
        assert(args[i] == c[i - m - 1]);
    }
    noise_is_passed_over(args, m + 1, args.len() as int, read);
}

} // verus!
