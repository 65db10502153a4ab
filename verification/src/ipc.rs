//! The control protocol: requests, responses, frames and the answers of the
//! service.
//!
//! A frame is a four-byte little-endian length and then that many bytes. A
//! message has at least one byte and at most 1 MiB.

use vstd::prelude::*;

use crate::bytes::{byte_ranges, le_bytes, le_round_trip, le_u32, le_value, le_value_fits, read_le};
use crate::config::{empty_config, Config, ConfigView};
use crate::rule_laws::named_in;
use crate::text::{
    contains, contains_text, copy_text, decimal, decimal_text, fold, join2, text_in,
    to_ascii_lowercase,
};

verus! {

/// The pipe of the service.
pub const DEFAULT_PIPE: &'static str = r"\\.\pipe\aetheris";

/// Who may open the pipe: the system in full, interactive users for reading and
/// writing only, and nobody else.
pub const DEFAULT_PIPE_DACL: &'static str = "D:P(A;;GA;;;SY)(A;;GR;;;IU)(A;;GW;;;IU)";

/// The largest message.
pub const MAX_MSG: usize = 0x10_0000;

/// Windows' code for a pipe all of whose instances are taken.
pub const ERROR_PIPE_BUSY: u32 = 231;

/// Windows' code for a pipe that is just being closed and made again.
pub const ERROR_NO_PROCESS: u32 = 123;

/// How often a client tries to open the pipe.
pub const OPEN_ATTEMPTS: u32 = 5;

// ---------------------------------------------------------------------------
// Messages
// ---------------------------------------------------------------------------
/// What a client asks.
#[derive(Debug)]
pub enum Request {
    GetState,
    GetConfig,
    ReloadConfig,
    SaveConfig(Config),
    QueryProcess(String),
    /// Leave game mode and end the service.
    StopService,
    /// Open the overlay, or close it if it is open.
    ToggleOverlay,
}

/// What the service answers.
#[derive(Debug)]
pub enum Response {
    State(StateSnapshot),
    Config(Config),
    Reload(String),
    SaveConfig(Result<String, String>),
    Process(Option<ProcessInfo>),
}

/// The state of the service at some moment.
#[derive(Debug)]
pub struct StateSnapshot {
    pub mode: String,
    pub boosted: Vec<ProcessInfo>,
    pub processes: Vec<ProcessInfo>,
    /// Why the last reload failed, if it did.
    pub last_reload: Option<String>,
    pub config: Config,
}

/// A process as clients see it.
#[derive(Debug)]
pub struct ProcessInfo {
    pub pid: u32,
    pub name: String,
    pub is_game: bool,
}

/// A process as a value.
pub struct InfoView {
    pub pid: u32,
    pub name: Seq<char>,
    pub is_game: bool,
}

impl View for ProcessInfo {
    type V = InfoView;

    open spec fn view(&self) -> InfoView {
        InfoView { pid: self.pid, name: self.name@, is_game: self.is_game }
    }
}

/// Processes as values.
pub open spec fn info_views(v: Seq<ProcessInfo>) -> Seq<InfoView> {
    v.map_values(|p: ProcessInfo| p@)
}

/// An optional process as a value.
pub open spec fn info_in(p: Option<ProcessInfo>) -> Option<InfoView> {
    match p {
        Some(p) => Some(p@),
        None => None,
    }
}

/// A state as a value.
pub struct StateView {
    pub mode: Seq<char>,
    pub boosted: Seq<InfoView>,
    pub processes: Seq<InfoView>,
    pub last_reload: Option<Seq<char>>,
    pub config: ConfigView,
}

impl View for StateSnapshot {
    type V = StateView;

    open spec fn view(&self) -> StateView {
        StateView {
            mode: self.mode@,
            boosted: info_views(self.boosted@),
            processes: info_views(self.processes@),
            last_reload: text_in(self.last_reload),
            config: self.config@,
        }
    }
}

/// The outcome of a save as a value.
pub open spec fn saved_view(r: Result<String, String>) -> Result<Seq<char>, Seq<char>> {
    match r {
        Ok(m) => Ok(m@),
        Err(m) => Err(m@),
    }
}

/// A response as a value.
pub enum ResponseView {
    State(StateView),
    Config(ConfigView),
    Reload(Seq<char>),
    SaveConfig(Result<Seq<char>, Seq<char>>),
    Process(Option<InfoView>),
}

impl View for Response {
    type V = ResponseView;

    open spec fn view(&self) -> ResponseView {
        match *self {
            Response::State(s) => ResponseView::State(s@),
            Response::Config(c) => ResponseView::Config(c@),
            Response::Reload(m) => ResponseView::Reload(m@),
            Response::SaveConfig(r) => ResponseView::SaveConfig(saved_view(r)),
            Response::Process(p) => ResponseView::Process(info_in(p)),
        }
    }
}

impl Clone for ProcessInfo {
    fn clone(&self) -> (r: Self)
        ensures
            r@ == self@,
    {
        ProcessInfo { pid: self.pid, name: self.name.clone(), is_game: self.is_game }
    }
}

fn clone_infos(v: &Vec<ProcessInfo>) -> (r: Vec<ProcessInfo>)
    ensures
        info_views(r@) == info_views(v@),
{
    let mut r: Vec<ProcessInfo> = Vec::new();
    let mut i: usize = 0;
    while i < v.len()
        invariant
            i <= v@.len(),
            r@.len() == i,
            forall|k: int| 0 <= k < i ==> (#[trigger] r@[k])@ == v@[k]@,
        decreases v@.len() - i,
    {
        r.push(v[i].clone());
        i = i + 1;
    }
    assert(info_views(r@) =~= info_views(v@));
    r
}

/// A copy of an optional text.
pub fn clone_text_in(s: &Option<String>) -> (r: Option<String>)
    ensures
        text_in(r) == text_in(*s),
{
    match s {
        Some(s) => Some(s.clone()),
        None => None,
    }
}

impl Clone for StateSnapshot {
    fn clone(&self) -> (r: Self)
        ensures
            r@ == self@,
    {
        StateSnapshot {
            mode: self.mode.clone(),
            boosted: clone_infos(&self.boosted),
            processes: clone_infos(&self.processes),
            last_reload: clone_text_in(&self.last_reload),
            config: self.config.clone(),
        }
    }
}

/// A state with nothing in it.
pub open spec fn empty_state() -> StateView {
    StateView {
        mode: Seq::empty(),
        boosted: Seq::empty(),
        processes: Seq::empty(),
        last_reload: None,
        config: empty_config(),
    }
}

impl Default for StateSnapshot {
    fn default() -> (r: Self)
        ensures
            r@ == empty_state(),
    {
        let r = StateSnapshot {
            mode: String::new(),
            boosted: Vec::new(),
            processes: Vec::new(),
            last_reload: None,
            config: Config::default(),
        };
        assert(r@.mode =~= Seq::<char>::empty());
        assert(r@.boosted =~= Seq::<InfoView>::empty());
        assert(r@.processes =~= Seq::<InfoView>::empty());
        r
    }
}

// ---------------------------------------------------------------------------
// Frames
// ---------------------------------------------------------------------------
/// A length that a message may have.
pub open spec fn acceptable(len: nat) -> bool {
    0 < len <= MAX_MSG
}

/// A message with its length in front.
pub open spec fn framed(payload: Seq<u8>) -> Seq<u8> {
    le_bytes(payload.len(), 4) + payload
}

/// The message in a frame: what follows the length, if the length is acceptable
/// and that many bytes are there.
pub open spec fn unframed(bytes: Seq<u8>) -> Option<Seq<u8>> {
    let len = le_value(bytes.take(4));
    if bytes.len() < 4 || !acceptable(len) || bytes.len() < 4 + len {
        None
    } else {
        Some(bytes.subrange(4, 4 + len as int))
    }
}

/// Puts a message into a frame.
pub fn frame(payload: &Vec<u8>) -> (r: Vec<u8>)
    requires
        payload@.len() <= u32::MAX,
    ensures
        r@ == framed(payload@),
{
    let mut r = le_u32(payload.len() as u32);
    r.extend_from_slice(payload.as_slice());
    r
}

/// Reads the length of a message from the four bytes in front of it.
pub fn message_length(prefix: &[u8]) -> (r: Result<usize, String>)
    requires
        prefix@.len() == 4,
    ensures
        r is Ok <==> acceptable(le_value(prefix@)),
        r is Ok ==> r->Ok_0 == le_value(prefix@),
        r is Err ==> r->Err_0@ == "response length "@ + decimal(le_value(prefix@))
            + " out of range"@,
{
    assert(prefix@.subrange(0, 4) =~= prefix@);
    proof {
        byte_ranges();
        le_value_fits(prefix@);
    }
    let len: u64 = read_le(prefix, 0, 4);
    if len == 0 || len > MAX_MSG as u64 {
        let mut m = join2("response length ", decimal_text(len).as_str());
        m.append(" out of range");
        Err(m)
    } else {
        Ok(len as usize)
    }
}

/// Takes the message out of a frame.
pub fn unframe(bytes: &[u8]) -> (r: Option<Vec<u8>>)
    ensures
        r is Some <==> unframed(bytes@) is Some,
        r is Some ==> r->0@ == unframed(bytes@)->0,
{
    if bytes.len() < 4 {
        return None;
    }
    let prefix = vstd::slice::slice_subrange(bytes, 0, 4);
    assert(prefix@ =~= bytes@.take(4));
    match message_length(prefix) {
        Err(_) => None,
        Ok(len) => {
            if bytes.len() - 4 < len {
                None
            } else {
                let body = vstd::slice::slice_subrange(bytes, 4, 4 + len);
                let mut r: Vec<u8> = Vec::new();
                r.extend_from_slice(body);
                assert(r@ =~= bytes@.subrange(4, 4 + len as int));
                Some(r)
            }
        },
    }
}

/// A message of acceptable length comes out of its frame as it went in, whatever
/// follows the frame.
pub proof fn frame_round_trip(payload: Seq<u8>, more: Seq<u8>)
    requires
        acceptable(payload.len()),
    ensures
        unframed(framed(payload) + more) == Some(payload),
{
    byte_ranges();
    le_round_trip(payload.len(), 4);
    let bytes = framed(payload) + more;
    assert(bytes.take(4) =~= le_bytes(payload.len(), 4));
    assert(bytes.subrange(4, 4 + payload.len() as int) =~= payload);
}

/// A message that is empty or too long never comes out of a frame.
pub proof fn frame_refuses(payload: Seq<u8>)
    requires
        !acceptable(payload.len()),
        payload.len() <= u32::MAX,
    ensures
        unframed(framed(payload)) is None,
{
    byte_ranges();
    le_round_trip(payload.len(), 4);
    assert(framed(payload).take(4) =~= le_bytes(payload.len(), 4));
}

/// How messages of one kind are turned into bytes and back.
#[verifier::reject_recursive_types(T)]
pub struct Coding<T> {
    pub encode: spec_fn(T) -> Seq<u8>,
    pub decode: spec_fn(Seq<u8>) -> Option<T>,
}

/// What is read from a frame: the message in it, if it can be decoded.
pub open spec fn received<T>(coding: Coding<T>, bytes: Seq<u8>) -> Option<T> {
    match unframed(bytes) {
        Some(payload) => (coding.decode)(payload),
        None => None,
    }
}

/// What is sent for a message.
pub open spec fn sent<T>(coding: Coding<T>, message: T) -> Seq<u8> {
    framed((coding.encode)(message))
}

/// What a client gets for a request from a server that answers requests by
/// `handler`; nothing where either side cannot read what the other sent.
pub open spec fn called<Q, R>(
    requests: Coding<Q>,
    responses: Coding<R>,
    handler: spec_fn(Q) -> R,
    request: Q,
) -> Option<R> {
    match received(requests, sent(requests, request)) {
        Some(q) => received(responses, sent(responses, handler(q))),
        None => None,
    }
}

/// A client gets the response that the handler gave for its request, in any coding
/// that reads back what it wrote, as long as request and response are of acceptable
/// length. A response that is empty or too long is refused.
pub proof fn call_gets_the_response<Q, R>(
    requests: Coding<Q>,
    responses: Coding<R>,
    handler: spec_fn(Q) -> R,
    request: Q,
)
    requires
        (requests.decode)((requests.encode)(request)) == Some(request),
        (responses.decode)((responses.encode)(handler(request))) == Some(handler(request)),
        acceptable((requests.encode)(request).len()),
        (responses.encode)(handler(request)).len() <= u32::MAX,
    ensures
        acceptable((responses.encode)(handler(request)).len()) ==> called(
            requests,
            responses,
            handler,
            request,
        ) == Some(handler(request)),
        !acceptable((responses.encode)(handler(request)).len()) ==> called(
            requests,
            responses,
            handler,
            request,
        ) is None,
{
    let q = (requests.encode)(request);
    let r = (responses.encode)(handler(request));
    frame_round_trip(q, Seq::empty());
    assert(framed(q) + Seq::<u8>::empty() =~= framed(q));
    if acceptable(r.len()) {
        frame_round_trip(r, Seq::empty());
        assert(framed(r) + Seq::<u8>::empty() =~= framed(r));
    } else {
        frame_refuses(r);
    }
}

// ---------------------------------------------------------------------------
// The server and its clients
// ---------------------------------------------------------------------------
/// Where a server listens and who may talk to it.
pub struct IpcServer {
    pipe_name: String,
    dacl_sddl: Option<String>,
}

impl IpcServer {
    pub closed spec fn pipe_name_spec(&self) -> Seq<char> {
        self.pipe_name@
    }

    pub closed spec fn dacl_spec(&self) -> Option<Seq<char>> {
        text_in(self.dacl_sddl)
    }

    /// A server whose pipe has the default access rights.
    pub fn new(pipe_name: &str) -> (r: Self)
        ensures
            r.pipe_name_spec() == pipe_name@,
            r.dacl_spec() is None,
    {
        IpcServer { pipe_name: copy_text(pipe_name), dacl_sddl: None }
    }

    /// A server whose pipe has the given access rights.
    pub fn new_with_dacl(pipe_name: &str, sddl: &str) -> (r: Self)
        ensures
            r.pipe_name_spec() == pipe_name@,
            r.dacl_spec() == Some(sddl@),
    {
        IpcServer { pipe_name: copy_text(pipe_name), dacl_sddl: Some(copy_text(sddl)) }
    }

    pub fn pipe_name(&self) -> (r: &str)
        ensures
            r@ == self.pipe_name_spec(),
    {
        self.pipe_name.as_str()
    }

    pub fn dacl(&self) -> (r: Option<&str>)
        ensures
            r is Some <==> self.dacl_spec() is Some,
            r is Some ==> Some(r->0@) == self.dacl_spec(),
    {
        match &self.dacl_sddl {
            Some(s) => Some(s.as_str()),
            None => None,
        }
    }
}

/// What came of an attempt to open the pipe.
#[derive(Debug)]
pub enum OpenOutcome {
    /// No instance of the pipe became free in time.
    NotReady,
    Opened,
    /// Opening failed with this code and message.
    Failed { code: u32, message: String },
}

/// What a client does next.
#[derive(Debug)]
pub enum OpenStep {
    Proceed,
    Retry,
    GiveUp(String),
}

/// A step as a value.
pub enum OpenStepView {
    Proceed,
    Retry,
    GiveUp(Seq<char>),
}

impl View for OpenStep {
    type V = OpenStepView;

    open spec fn view(&self) -> OpenStepView {
        match *self {
            OpenStep::Proceed => OpenStepView::Proceed,
            OpenStep::Retry => OpenStepView::Retry,
            OpenStep::GiveUp(m) => OpenStepView::GiveUp(m@),
        }
    }
}

/// What follows the attempt with the given number (the first is 1). A pipe that
/// is not ready, all taken or just being made again is tried again as long as
/// attempts are left; any other failure is final.
pub open spec fn after_open(attempt: u32, outcome: OpenOutcome) -> OpenStepView {
    let again = if attempt < OPEN_ATTEMPTS {
        OpenStepView::Retry
    } else {
        OpenStepView::GiveUp("CreateFileW: pipe unavailable after retries"@)
    };
    match outcome {
        OpenOutcome::Opened => OpenStepView::Proceed,
        OpenOutcome::NotReady => again,
        OpenOutcome::Failed { code, message } => if code == ERROR_PIPE_BUSY || code
            == ERROR_NO_PROCESS {
            again
        } else {
            OpenStepView::GiveUp("CreateFileW: "@ + message@)
        },
    }
}

pub fn open_step(attempt: u32, outcome: &OpenOutcome) -> (r: OpenStep)
    ensures
        r@ == after_open(attempt, *outcome),
{
    match outcome {
        OpenOutcome::Opened => OpenStep::Proceed,
        OpenOutcome::NotReady => retry_or_give_up(attempt),
        OpenOutcome::Failed { code, message } => if *code == ERROR_PIPE_BUSY || *code
            == ERROR_NO_PROCESS {
            retry_or_give_up(attempt)
        } else {
            OpenStep::GiveUp(join2("CreateFileW: ", message.as_str()))
        },
    }
}

fn retry_or_give_up(attempt: u32) -> (r: OpenStep)
    ensures
        r@ == after_open(attempt, OpenOutcome::NotReady),
{
    if attempt < OPEN_ATTEMPTS {
        OpenStep::Retry
    } else {
        OpenStep::GiveUp(copy_text("CreateFileW: pipe unavailable after retries"))
    }
}

// ---------------------------------------------------------------------------
// Answers
// ---------------------------------------------------------------------------
/// What a request asks of the main loop of the service.
#[derive(Debug, Clone, Copy, PartialEq, Eq, Structural)]
pub enum Relay {
    Reload,
    Stop,
    ToggleOverlay,
}

/// How a request is answered.
#[derive(Debug)]
pub enum Answer {
    /// With this response.
    Reply(Response),
    /// With this response, once the main loop was told.
    Relay(Relay, Response),
    /// With what the main loop says of saving this configuration.
    Save(Config),
}

/// An answer as a value.
pub enum AnswerView {
    Reply(ResponseView),
    Relay(Relay, ResponseView),
    Save(ConfigView),
}

impl View for Answer {
    type V = AnswerView;

    open spec fn view(&self) -> AnswerView {
        match *self {
            Answer::Reply(r) => AnswerView::Reply(r@),
            Answer::Relay(m, r) => AnswerView::Relay(m, r@),
            Answer::Save(c) => AnswerView::Save(c@),
        }
    }
}

/// A process whose name holds the text, up to ASCII case.
pub open spec fn name_holds(p: InfoView, text: Seq<char>) -> bool {
    contains(fold(p.name), fold(text))
}

/// The first process whose name holds the text.
pub open spec fn first_named(processes: Seq<InfoView>, text: Seq<char>) -> Option<InfoView>
    decreases processes.len(),
{
    if processes.len() == 0 {
        None
    } else if name_holds(processes[0], text) {
        Some(processes[0])
    } else {
        first_named(processes.skip(1), text)
    }
}

/// How a request is answered from a state. Saving rewrites a file that belongs
/// to the administrator, so a client that is not elevated is refused.
pub open spec fn answer_to(state: StateView, req: Request, elevated: bool) -> AnswerView {
    match req {
        Request::GetState => AnswerView::Reply(ResponseView::State(state)),
        Request::GetConfig => AnswerView::Reply(ResponseView::Config(state.config)),
        Request::QueryProcess(name) => AnswerView::Reply(
            ResponseView::Process(first_named(state.processes, name@)),
        ),
        Request::ReloadConfig => AnswerView::Relay(
            Relay::Reload,
            ResponseView::Reload("queued"@),
        ),
        Request::StopService => AnswerView::Relay(
            Relay::Stop,
            ResponseView::Reload("stopping"@),
        ),
        Request::ToggleOverlay => AnswerView::Relay(
            Relay::ToggleOverlay,
            ResponseView::Reload("toggled"@),
        ),
        Request::SaveConfig(cfg) => if elevated {
            AnswerView::Save(cfg@)
        } else {
            AnswerView::Reply(ResponseView::SaveConfig(Err("requires elevation"@)))
        },
    }
}

/// The first process whose name holds the text, up to ASCII case.
pub fn find_process(processes: &Vec<ProcessInfo>, text: &str) -> (r: Option<ProcessInfo>)
    ensures
        info_in(r) == first_named(info_views(processes@), text@),
{
    let low = to_ascii_lowercase(text);
    let ghost all = info_views(processes@);
    let mut i: usize = 0;
    assert(all.skip(0) =~= all);
    while i < processes.len()
        invariant
            i <= processes@.len(),
            low@ == fold(text@),
            all == info_views(processes@),
            first_named(all, text@) == first_named(all.skip(i as int), text@),
        decreases processes@.len() - i,
    {
        let p = &processes[i];
        assert(all.skip(i as int)[0] == p@);
        let name = to_ascii_lowercase(p.name.as_str());
        if contains_text(name.as_str(), low.as_str()) {
            return Some(p.clone());
        }
        assert(all.skip(i as int).skip(1) =~= all.skip(i + 1));
        i = i + 1;
    }
    None
}

/// Whether a request needs to know if the client is elevated.
pub fn asks_elevation(req: &Request) -> (r: bool)
    ensures
        r == (req is SaveConfig),
{
    match req {
        Request::SaveConfig(_) => true,
        _ => false,
    }
}

/// Answers a request. `elevated` says whether the client was found to be
/// elevated; a check that failed counts as a no.
pub fn answer(state: &StateSnapshot, req: &Request, elevated: bool) -> (r: Answer)
    ensures
        r@ == answer_to(state@, *req, elevated),
{
    match req {
        Request::GetState => Answer::Reply(Response::State(state.clone())),
        Request::GetConfig => Answer::Reply(Response::Config(state.config.clone())),
        Request::QueryProcess(name) => Answer::Reply(
            Response::Process(find_process(&state.processes, name.as_str())),
        ),
        Request::ReloadConfig => Answer::Relay(
            Relay::Reload,
            Response::Reload(copy_text("queued")),
        ),
        Request::StopService => Answer::Relay(
            Relay::Stop,
            Response::Reload(copy_text("stopping")),
        ),
        Request::ToggleOverlay => Answer::Relay(
            Relay::ToggleOverlay,
            Response::Reload(copy_text("toggled")),
        ),
        Request::SaveConfig(cfg) => if elevated {
            Answer::Save(cfg.clone())
        } else {
            Answer::Reply(Response::SaveConfig(Err(copy_text("requires elevation"))))
        },
    }
}

/// The response to a save, given what the main loop said of it; a main loop that
/// said nothing is gone.
pub fn save_response(outcome: Option<Result<String, String>>) -> (r: Response)
    ensures
        r@ == ResponseView::SaveConfig(
            match outcome {
                Some(o) => saved_view(o),
                None => Err("service unavailable"@),
            },
        ),
{
    match outcome {
        Some(o) => Response::SaveConfig(o),
        None => Response::SaveConfig(Err(copy_text("service unavailable"))),
    }
}

/// A client that is not elevated can save nothing: whatever it asks, it is
/// answered without a save, and a request to save is refused.
pub proof fn saving_needs_elevation(state: StateView, req: Request)
    ensures
        !(answer_to(state, req, false) is Save),
        req is SaveConfig ==> answer_to(state, req, false) == AnswerView::Reply(
            ResponseView::SaveConfig(Err("requires elevation"@)),
        ),
{
}

/// A process is found exactly when some name holds the text, and then it is one
/// whose name does.
pub proof fn query_finds_holder(processes: Seq<InfoView>, text: Seq<char>)
    ensures
        first_named(processes, text) is Some <==> exists|i: int|
            0 <= i < processes.len() && name_holds(#[trigger] processes[i], text),
        first_named(processes, text) is Some ==> name_holds(first_named(processes, text)->0, text)
            && processes.contains(first_named(processes, text)->0),
    decreases processes.len(),
{
    if processes.len() > 0 {
        let rest = processes.skip(1);
        query_finds_holder(rest, text);
        if name_holds(processes[0], text) {
            assert(processes.contains(processes[0]));
        } else {
            if exists|i: int| 0 <= i < processes.len() && name_holds(#[trigger] processes[i], text) {
                let i = choose|i: int|
                    0 <= i < processes.len() && name_holds(#[trigger] processes[i], text);
                assert(rest[i - 1] == processes[i]);
            }
            if first_named(processes, text) is Some {
                let i = choose|i: int|
                    0 <= i < rest.len() && name_holds(#[trigger] rest[i], text);
                assert(processes[i + 1] == rest[i]);
                let k = choose|k: int| 0 <= k < rest.len() && rest[k] == first_named(rest, text)->0;
                assert(processes[k + 1] == rest[k]);
            }
        }
    }
}

/// A query finds the first listed process in whose name the text stands, in any ASCII case,
/// and nothing exactly where no name holds it.
pub proof fn query_finds_the_first_holder(
    state: StateView,
    text: String,
    elevated: bool,
    k: int,
)
    ensures
        ({
            let reply = answer_to(state, Request::QueryProcess(text), elevated);
            &&& (0 <= k < state.processes.len() && named_in(text@, state.processes[k].name) && (
            forall|j: int|
                0 <= j < k ==> !named_in(text@, (#[trigger] state.processes[j]).name))) ==> reply
                == AnswerView::Reply(ResponseView::Process(Some(state.processes[k])))
            &&& (forall|j: int|
                0 <= j < state.processes.len() ==> !named_in(
                    text@,
                    (#[trigger] state.processes[j]).name,
                )) ==> reply == AnswerView::Reply(ResponseView::Process(None))
        }),
{
    first_holder(state.processes, text@);
}

proof fn first_holder(processes: Seq<InfoView>, text: Seq<char>)
    ensures
        forall|k: int|
            0 <= k < processes.len() && named_in(text, (#[trigger] processes[k]).name) && (forall|
                j: int,
            | 0 <= j < k ==> !named_in(text, (#[trigger] processes[j]).name)) ==> first_named(
                processes,
                text,
            ) == Some(processes[k]),
        (forall|j: int|
            0 <= j < processes.len() ==> !named_in(text, (#[trigger] processes[j]).name))
            ==> first_named(processes, text) is None,
    decreases processes.len(),
{
    if processes.len() > 0 {
        let rest = processes.skip(1);
        first_holder(rest, text);
        crate::rule_laws::named_means(text, processes[0].name);
        assert forall|k: int|
            0 <= k < processes.len() && named_in(text, (#[trigger] processes[k]).name) && (forall|
                j: int,
            | 0 <= j < k ==> !named_in(text, (#[trigger] processes[j]).name)) implies first_named(
            processes,
            text,
        ) == Some(processes[k]) by {
            if k > 0 {
                assert(!named_in(text, processes[0].name));
                assert(rest[k - 1] == processes[k]);
                assert forall|j: int| 0 <= j < k - 1 implies !named_in(
                    text,
                    (#[trigger] rest[j]).name,
                ) by {
                    assert(rest[j] == processes[j + 1]);
                }
            }
        }
        if forall|j: int|
            0 <= j < processes.len() ==> !named_in(text, (#[trigger] processes[j]).name) {
            assert(!named_in(text, processes[0].name));
            assert forall|j: int| 0 <= j < rest.len() implies !named_in(
                text,
                (#[trigger] rest[j]).name,
            ) by {
                assert(rest[j] == processes[j + 1]);
            }
        }
    }
}

/// Every other request gets the answer that is its own: the state and the configuration as
/// they are, a word for what is passed on to the main loop, and a save for an elevated
/// client exactly what it sent.
pub proof fn requests_get_their_answers(state: StateView, cfg: Config, elevated: bool)
    ensures
        answer_to(state, Request::GetState, elevated) == AnswerView::Reply(
            ResponseView::State(state),
        ),
        answer_to(state, Request::GetConfig, elevated) == AnswerView::Reply(
            ResponseView::Config(state.config),
        ),
        answer_to(state, Request::ReloadConfig, elevated) is Relay && answer_to(
            state,
            Request::ReloadConfig,
            elevated,
        )->Relay_0 == Relay::Reload,
        answer_to(state, Request::StopService, elevated) is Relay && answer_to(
            state,
            Request::StopService,
            elevated,
        )->Relay_0 == Relay::Stop,
        answer_to(state, Request::ToggleOverlay, elevated) is Relay && answer_to(
            state,
            Request::ToggleOverlay,
            elevated,
        )->Relay_0 == Relay::ToggleOverlay,
        answer_to(state, Request::SaveConfig(cfg), true) == AnswerView::Save(cfg@),
{
}

/// A pipe that is opened is used at once. One that is busy, has no process behind it or is
/// not ready is tried five times in all, and then given up; any other failure is given up at
/// once, with its own message.
pub proof fn opening_is_tried_again(attempt: u32, code: u32, message: String)
    ensures
        after_open(attempt, OpenOutcome::Opened) is Proceed,
        attempt < 5 ==> after_open(attempt, OpenOutcome::NotReady) is Retry,
        attempt >= 5 ==> after_open(attempt, OpenOutcome::NotReady) is GiveUp,
        code == 231 || code == 123 ==> after_open(attempt, OpenOutcome::Failed { code, message })
            == after_open(attempt, OpenOutcome::NotReady),
        code != 231 && code != 123 ==> after_open(attempt, OpenOutcome::Failed { code, message })
            == OpenStepView::GiveUp("CreateFileW: "@ + message@),
{
}

/// A message may have from 1 to 1048576 bytes.
pub proof fn frame_limits(len: nat)
    ensures
        acceptable(len) <==> 1 <= len <= 1048576,
{
}

} // verus!
