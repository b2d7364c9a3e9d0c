//! The decisions of the connection server.
//!
//! The server itself binds a socket, accepts connections and reads and
//! writes on them; none of that is done here. Here stand the rules by which
//! it does so: the states of the listening side and what each event leads
//! to, what to answer to the bytes that a connection sent, and what the
//! handle of a running server still has to do.

use crate::plugin::{bytes_view, first_claim, text_view, Plugin, PluginManager};
use crate::request::{parse, Request, RequestError, RequestErrorView, RequestView};
use crate::response::{error_response, wire, Response};
use crate::status::StatusCode;
use vstd::prelude::*;
use vstd::string::StringExecFns;

verus! {

/// The number of bytes that are read from a connection, in one read. A
/// request that is longer is parsed as far as it was read.
pub const READ_BUFFER_SIZE: usize = 1024;

/// Where the listening side of the server stands.
#[derive(Clone, Copy, Debug, PartialEq, Eq, Structural)]
pub enum ServerState {
    /// The socket is not bound yet.
    Starting,
    /// The socket is bound; the readiness signal is due.
    Ready,
    /// Connections are accepted.
    Running,
    /// The shutdown signal came; no connection is accepted any more.
    ShuttingDown,
    /// The server has ended.
    Stopped,
}

/// What the outside reports to the server.
#[derive(Clone, Copy, Debug, PartialEq, Eq, Structural)]
pub enum ServerEvent {
    /// The listening socket was bound.
    Bound,
    /// The listening socket could not be bound.
    BindFailed,
    /// The readiness signal was fired.
    ReadySignalled,
    /// A connection was accepted.
    Accepted,
    /// Accepting a connection failed.
    AcceptFailed,
    /// The shutdown signal was taken while the server waited. A signal that
    /// is sent earlier is not lost: it is taken once the server waits.
    ShutdownRequested,
    /// The accept loop was left.
    LoopLeft,
}

/// What the server does next.
#[derive(Clone, Copy, Debug, PartialEq, Eq, Structural)]
pub enum ServerAction {
    /// Fire the readiness signal.
    SignalReady,
    /// Wait for a connection and for the shutdown signal at once, and take
    /// whichever comes first.
    Wait,
    /// Hand the accepted connection to a task of its own, then wait again.
    Handle,
    /// Report the failed accept, then wait again.
    Report,
    /// Leave the accept loop.
    StopAccepting,
    /// Give up: the server cannot start.
    Abort,
    /// Nothing is left to do.
    Rest,
    /// The event does not belong to the state: do nothing.
    Ignore,
}

/// The state and the action that `event` leads to in `state`.
pub open spec fn transition(state: ServerState, event: ServerEvent) -> (ServerState, ServerAction) {
    match (state, event) {
        (ServerState::Starting, ServerEvent::Bound) => (
            ServerState::Ready,
            ServerAction::SignalReady,
        ),
        (ServerState::Starting, ServerEvent::BindFailed) => (
            ServerState::Stopped,
            ServerAction::Abort,
        ),
        (ServerState::Ready, ServerEvent::ReadySignalled) => (
            ServerState::Running,
            ServerAction::Wait,
        ),
        (ServerState::Running, ServerEvent::Accepted) => (
            ServerState::Running,
            ServerAction::Handle,
        ),
        (ServerState::Running, ServerEvent::AcceptFailed) => (
            ServerState::Running,
            ServerAction::Report,
        ),
        (ServerState::Running, ServerEvent::ShutdownRequested) => (
            ServerState::ShuttingDown,
            ServerAction::StopAccepting,
        ),
        (ServerState::ShuttingDown, ServerEvent::LoopLeft) => (
            ServerState::Stopped,
            ServerAction::Rest,
        ),
        _ => (state, ServerAction::Ignore),
    }
}

/// Takes one event: the next state and what to do now.
pub fn advance(state: ServerState, event: ServerEvent) -> (next: (ServerState, ServerAction))
    ensures
        next == transition(state, event),
{
    match state {
        ServerState::Starting => match event {
            ServerEvent::Bound => (ServerState::Ready, ServerAction::SignalReady),
            ServerEvent::BindFailed => (ServerState::Stopped, ServerAction::Abort),
            _ => (state, ServerAction::Ignore),
        },
        ServerState::Ready => match event {
            ServerEvent::ReadySignalled => (ServerState::Running, ServerAction::Wait),
            _ => (state, ServerAction::Ignore),
        },
        ServerState::Running => match event {
            ServerEvent::Accepted => (ServerState::Running, ServerAction::Handle),
            ServerEvent::AcceptFailed => (ServerState::Running, ServerAction::Report),
            ServerEvent::ShutdownRequested => (
                ServerState::ShuttingDown,
                ServerAction::StopAccepting,
            ),
            _ => (state, ServerAction::Ignore),
        },
        ServerState::ShuttingDown => match event {
            ServerEvent::LoopLeft => (ServerState::Stopped, ServerAction::Rest),
            _ => (state, ServerAction::Ignore),
        },
        ServerState::Stopped => (state, ServerAction::Ignore),
    }
}

/// The state that the events `events` lead to from `state`.
pub open spec fn state_after(state: ServerState, events: Seq<ServerEvent>) -> ServerState
    decreases events.len(),
{
    if events.len() == 0 {
        state
    } else {
        transition(state_after(state, events.drop_last()), events.last()).0
    }
}

/// The number of times that `action` is taken while the events `events`
/// come in, from `state` on.
pub open spec fn times_taken(state: ServerState, events: Seq<ServerEvent>, action: ServerAction) -> nat
    decreases events.len(),
{
    if events.len() == 0 {
        0
    } else {
        let before = times_taken(state, events.drop_last(), action);
        if transition(state_after(state, events.drop_last()), events.last()).1 == action {
            before + 1
        } else {
            before
        }
    }
}

/// How far a state is on the way from `Starting` to `Stopped`.
pub open spec fn rank(state: ServerState) -> nat {
    match state {
        ServerState::Starting => 0,
        ServerState::Ready => 1,
        ServerState::Running => 2,
        ServerState::ShuttingDown => 3,
        ServerState::Stopped => 4,
    }
}

/// No event takes the server back to an earlier state.
pub proof fn lemma_never_back(state: ServerState, events: Seq<ServerEvent>)
    ensures
        rank(state) <= rank(state_after(state, events)),
    decreases events.len(),
{
    if events.len() > 0 {
        lemma_never_back(state, events.drop_last());
    }
}

/// Whatever the events are, the readiness signal is fired once at most:
/// not at all while the server is starting, and once by the time that it is
/// ready, accepts connections or shuts down.
pub proof fn lemma_ready_once(events: Seq<ServerEvent>)
    ensures
        times_taken(ServerState::Starting, events, ServerAction::SignalReady) <= 1,
        state_after(ServerState::Starting, events) == ServerState::Starting ==> times_taken(
            ServerState::Starting,
            events,
            ServerAction::SignalReady,
        ) == 0,
        ({
            let state = state_after(ServerState::Starting, events);
            state == ServerState::Ready || state == ServerState::Running || state
                == ServerState::ShuttingDown
        }) ==> times_taken(ServerState::Starting, events, ServerAction::SignalReady) == 1,
    decreases events.len(),
{
    if events.len() > 0 {
        lemma_ready_once(events.drop_last());
    }
}

/// A failed accept, like an accepted connection, leaves the server
/// accepting: neither what a client sends nor an error on one connection
/// stops it.
pub proof fn lemma_keeps_accepting(event: ServerEvent)
    requires
        event == ServerEvent::Accepted || event == ServerEvent::AcceptFailed,
    ensures
        transition(ServerState::Running, event).0 == ServerState::Running,
{
}

/// Once the shutdown signal was taken, no connection is handled any more.
pub proof fn lemma_no_handling_after_shutdown(state: ServerState, events: Seq<ServerEvent>)
    requires
        rank(state) >= rank(ServerState::ShuttingDown),
    ensures
        times_taken(state, events, ServerAction::Handle) == 0,
    decreases events.len(),
{
    if events.len() > 0 {
        lemma_no_handling_after_shutdown(state, events.drop_last());
        lemma_never_back(state, events.drop_last());
    }
}

/// What to do with a connection after its one read.
pub enum Dispatch<'a, P: Plugin> {
    /// Nothing was read: the connection is closed without a response.
    Silent,
    /// A plugin claims the request. It serves it once the file named by
    /// `source`, if any, was read.
    Serve { plugin: &'a P, request: Request, source: Option<String> },
    /// No plugin claims the request: these bytes, a `404` response, are sent.
    NotFound(Vec<u8>),
    /// The request could not be parsed, for the reason given: these bytes,
    /// a `400` response, are sent.
    BadRequest(Vec<u8>, RequestError),
}

/// The bytes that are sent where no plugin claims a request.
pub open spec fn not_found_bytes() -> Seq<u8> {
    wire(error_response("No Content"@, StatusCode::NotFound))
}

/// The bytes that are sent where a request cannot be parsed.
pub open spec fn bad_request_bytes() -> Seq<u8> {
    wire(error_response("Bad Request"@, StatusCode::BadRequest))
}

/// The bytes that go back to a client that sent `received`, given the
/// bytes `content` of the file that the plugin in charge wanted read;
/// `None` where nothing goes back.
pub open spec fn reply<P: Plugin>(
    plugins: Seq<P>,
    received: Seq<u8>,
    content: Option<Seq<u8>>,
) -> Option<Seq<u8>> {
    if received.len() == 0 {
        None
    } else {
        match parse(received) {
            Err(_) => Some(bad_request_bytes()),
            Ok(request) => {
                let at = first_claim(plugins, request, 0);
                if at < plugins.len() {
                    Some(wire(plugins[at].response(request, content)))
                } else {
                    Some(not_found_bytes())
                }
            },
        }
    }
}

/// Decides what to do with a connection that sent `received`.
///
/// Nothing read means no response. A request that does not parse gets a
/// `400`. A request that parses goes to the first registered plugin that
/// claims it, and gets a `404` where none does.
pub fn dispatch<'a, P: Plugin>(manager: &'a PluginManager<P>, received: &[u8]) -> (decision:
    Dispatch<'a, P>)
    ensures
        match decision {
            Dispatch::Silent => received@.len() == 0,
            Dispatch::Serve { plugin, request, source } => {
                let at = first_claim(manager.plugins(), request@, 0);
                &&& received@.len() > 0
                &&& parse(received@) == Ok::<RequestView, RequestErrorView>(request@)
                &&& at < manager.plugins().len()
                &&& *plugin == manager.plugins()[at]
                &&& text_view(source) == plugin.wanted(request@)
            },
            Dispatch::NotFound(bytes) => {
                &&& received@.len() > 0
                &&& parse(received@) is Ok
                &&& first_claim(manager.plugins(), parse(received@)->Ok_0, 0)
                    == manager.plugins().len()
                &&& bytes@ == not_found_bytes()
            },
            Dispatch::BadRequest(bytes, error) => {
                &&& received@.len() > 0
                &&& parse(received@) == Err::<RequestView, RequestErrorView>(error@)
                &&& bytes@ == bad_request_bytes()
            },
        },
        forall|content: Option<Seq<u8>>| #[trigger]
            reply(manager.plugins(), received@, content) == match decision {
                Dispatch::Silent => None,
                Dispatch::Serve { plugin, request, source } => Some(
                    wire(plugin.response(request@, content)),
                ),
                Dispatch::NotFound(bytes) => Some(bytes@),
                Dispatch::BadRequest(bytes, error) => Some(bytes@),
            },
{
    if received.len() == 0 {
        return Dispatch::Silent;
    }
    match Request::from_bytes(received) {
        Ok(request) => match manager.find_plugin(&request) {
            Some(plugin) => {
                let source = plugin.source(&request);
                Dispatch::Serve { plugin, request, source }
            },
            None => {
                let response = Response::response_error(
                    String::from_str("No Content"),
                    StatusCode::NotFound,
                );
                Dispatch::NotFound(response.to_bytes())
            },
        },
        Err(error) => {
            let response = Response::response_error(
                String::from_str("Bad Request"),
                StatusCode::BadRequest,
            );
            Dispatch::BadRequest(response.to_bytes(), error)
        },
    }
}

/// The bytes with which `plugin` answers `request`, given the bytes
/// `content` of the file that it wanted read.
pub fn answer<P: Plugin>(plugin: &P, request: &Request, content: Option<Vec<u8>>) -> (bytes: Vec<
    u8,
>)
    ensures
        bytes@ == wire(plugin.response(request@, bytes_view(content))),
{
    plugin.serve(request, content).to_bytes()
}

/// What the handle of a started server still has to do: send the shutdown
/// signal, and wait for the server to end. Each is done once, by the first
/// call that asks for it.
#[derive(Debug)]
pub struct Server {
    shutdown_pending: bool,
    join_pending: bool,
    ready_seen: bool,
}

/// A handle as a contract sees it.
pub struct ServerView {
    /// Whether the shutdown signal is still to be sent.
    pub shutdown_pending: bool,
    /// Whether the server's end is still to be waited for.
    pub join_pending: bool,
    /// Whether the readiness signal was seen.
    pub ready_seen: bool,
}

/// A call on a handle.
pub enum HandleCall {
    /// `shutdown`.
    Shutdown,
    /// `await_shutdown`.
    AwaitShutdown,
    /// `await_ready`, with what the wait ended in.
    AwaitReady(bool),
}

/// What a call of `shutdown` has to do.
#[derive(Clone, Copy, Debug, PartialEq, Eq, Structural)]
pub enum ShutdownStep {
    /// Send the shutdown signal.
    SendSignal,
    /// The signal was sent before: do nothing but say so.
    AlreadyTriggered,
}

/// What a call of `await_shutdown` has to do.
#[derive(Clone, Copy, Debug, PartialEq, Eq, Structural)]
pub enum JoinStep {
    /// Wait for the server to end.
    Join,
    /// That was done before: do nothing but say so.
    AlreadyJoined,
}

/// The handle of a server that was just started.
pub open spec fn fresh_handle() -> ServerView {
    ServerView { shutdown_pending: true, join_pending: true, ready_seen: false }
}

/// The handle after `call`.
pub open spec fn after_call(handle: ServerView, call: HandleCall) -> ServerView {
    match call {
        HandleCall::Shutdown => ServerView { shutdown_pending: false, ..handle },
        HandleCall::AwaitShutdown => ServerView { join_pending: false, ..handle },
        HandleCall::AwaitReady(fired) => ServerView {
            ready_seen: handle.ready_seen || fired,
            ..handle
        },
    }
}

/// The handle after `calls`, one after the other.
pub open spec fn after_calls(handle: ServerView, calls: Seq<HandleCall>) -> ServerView
    decreases calls.len(),
{
    if calls.len() == 0 {
        handle
    } else {
        after_call(after_calls(handle, calls.drop_last()), calls.last())
    }
}

/// What a call of `shutdown` on `handle` has to do.
pub open spec fn shutdown_step(handle: ServerView) -> ShutdownStep {
    if handle.shutdown_pending {
        ShutdownStep::SendSignal
    } else {
        ShutdownStep::AlreadyTriggered
    }
}

/// What a call of `await_shutdown` on `handle` has to do.
pub open spec fn join_step(handle: ServerView) -> JoinStep {
    if handle.join_pending {
        JoinStep::Join
    } else {
        JoinStep::AlreadyJoined
    }
}

/// The number of times that the shutdown signal is sent in the course of
/// `calls` on `handle`.
pub open spec fn signals_sent(handle: ServerView, calls: Seq<HandleCall>) -> nat
    decreases calls.len(),
{
    if calls.len() == 0 {
        0
    } else {
        let before = after_calls(handle, calls.drop_last());
        let sent = signals_sent(handle, calls.drop_last());
        if calls.last() is Shutdown && shutdown_step(before) == ShutdownStep::SendSignal {
            sent + 1
        } else {
            sent
        }
    }
}

/// The number of times that the server's end is waited for in the course
/// of `calls` on `handle`.
pub open spec fn joins_made(handle: ServerView, calls: Seq<HandleCall>) -> nat
    decreases calls.len(),
{
    if calls.len() == 0 {
        0
    } else {
        let before = after_calls(handle, calls.drop_last());
        let made = joins_made(handle, calls.drop_last());
        if calls.last() is AwaitShutdown && join_step(before) == JoinStep::Join {
            made + 1
        } else {
            made
        }
    }
}

impl View for Server {
    type V = ServerView;

    closed spec fn view(&self) -> ServerView {
        ServerView {
            shutdown_pending: self.shutdown_pending,
            join_pending: self.join_pending,
            ready_seen: self.ready_seen,
        }
    }
}

impl Server {
    /// The handle of a server that was just started.
    pub fn new() -> (server: Server)
        ensures
            server@ == fresh_handle(),
    {
        Server { shutdown_pending: true, join_pending: true, ready_seen: false }
    }

    /// Asks the server to stop accepting. The first call has the signal
    /// sent; a later call sends nothing and changes nothing.
    pub fn shutdown(&mut self) -> (step: ShutdownStep)
        ensures
            step == shutdown_step(old(self)@),
            final(self)@ == after_call(old(self)@, HandleCall::Shutdown),
    {
        if self.shutdown_pending {
            self.shutdown_pending = false;
            ShutdownStep::SendSignal
        } else {
            ShutdownStep::AlreadyTriggered
        }
    }

    /// Waits for the server to end. The first call has the caller wait; a
    /// later call waits for nothing and changes nothing.
    pub fn await_shutdown(&mut self) -> (step: JoinStep)
        ensures
            step == join_step(old(self)@),
            final(self)@ == after_call(old(self)@, HandleCall::AwaitShutdown),
    {
        if self.join_pending {
            self.join_pending = false;
            JoinStep::Join
        } else {
            JoinStep::AlreadyJoined
        }
    }

    /// Takes note of the end of a wait for the readiness signal, where
    /// `fired` tells whether the signal came, and tells whether the server
    /// is known to be ready. Once seen, the signal stays seen.
    pub fn await_ready(&mut self, fired: bool) -> (ready: bool)
        ensures
            ready == (old(self)@.ready_seen || fired),
            final(self)@ == after_call(old(self)@, HandleCall::AwaitReady(fired)),
    {
        if fired {
            self.ready_seen = true;
        }
        self.ready_seen
    }

    /// Whether the shutdown signal is still to be sent.
    pub fn shutdown_pending(&self) -> (pending: bool)
        ensures
            pending == self@.shutdown_pending,
    {
        self.shutdown_pending
    }

    /// Whether the server's end is still to be waited for.
    pub fn join_pending(&self) -> (pending: bool)
        ensures
            pending == self@.join_pending,
    {
        self.join_pending
    }

    /// Whether the readiness signal was seen.
    pub fn ready_seen(&self) -> (seen: bool)
        ensures
            seen == self@.ready_seen,
    {
        self.ready_seen
    }
}

/// A second call of `shutdown` sends nothing and changes nothing, whatever
/// the handle was like before the first.
pub proof fn lemma_shutdown_twice(handle: ServerView)
    ensures
        shutdown_step(after_call(handle, HandleCall::Shutdown)) == ShutdownStep::AlreadyTriggered,
        after_call(after_call(handle, HandleCall::Shutdown), HandleCall::Shutdown) == after_call(
            handle,
            HandleCall::Shutdown,
        ),
{
}

/// Whatever is called on the handle of a started server, and however often:
/// the shutdown signal is sent once at most, and it is sent once where
/// `shutdown` was called at all.
pub proof fn lemma_signal_sent_once(calls: Seq<HandleCall>)
    ensures
        signals_sent(fresh_handle(), calls) <= 1,
        signals_sent(fresh_handle(), calls) == 1 <==> !after_calls(
            fresh_handle(),
            calls,
        ).shutdown_pending,
        signals_sent(fresh_handle(), calls) == 1 <==> exists|i: int|
            0 <= i < calls.len() && #[trigger] calls[i] is Shutdown,
    decreases calls.len(),
{
    if calls.len() > 0 {
        let earlier = calls.drop_last();
        lemma_signal_sent_once(earlier);
        if exists|i: int| 0 <= i < earlier.len() && #[trigger] earlier[i] is Shutdown {
            let i = choose|i: int| 0 <= i < earlier.len() && #[trigger] earlier[i] is Shutdown;
            assert(calls[i] is Shutdown);
        }
        if calls.last() is Shutdown {
            assert(calls[calls.len() - 1] is Shutdown);
        }
        if exists|i: int| 0 <= i < calls.len() && #[trigger] calls[i] is Shutdown {
            let i = choose|i: int| 0 <= i < calls.len() && #[trigger] calls[i] is Shutdown;
            if i < earlier.len() {
                assert(earlier[i] is Shutdown);
            }
        }
    }
}

/// Whatever is called on the handle of a started server, and however often:
/// the server's end is waited for once at most.
pub proof fn lemma_joined_once(calls: Seq<HandleCall>)
    ensures
        joins_made(fresh_handle(), calls) <= 1,
        joins_made(fresh_handle(), calls) == 1 <==> !after_calls(fresh_handle(), calls).join_pending,
    decreases calls.len(),
{
    if calls.len() > 0 {
        lemma_joined_once(calls.drop_last());
    }
}

} // verus!
