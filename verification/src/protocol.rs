//! Data model of the control link: the remote engine's scan lifecycle value,
//! the command request shape sent to it, the error taxonomy of a call, and
//! the notifications fanned out to the presentation layer.

use vstd::prelude::*;

verus! {

/// The remote engine's scan lifecycle, read over the protocol.
///
/// The engine holds exactly one such value at a time; this side never
/// mutates it directly, it only reads it or drives transitions through
/// start/cancel commands.
#[derive(Debug, Clone, PartialEq, Eq)]
pub enum ScanState {
    /// No scan is active.
    Idle,
    /// A scan is in flight; the payload is an opaque, engine-defined
    /// progress snapshot.
    Scanning(String),
    /// The scan completed; the payload holds zero or more malicious-file
    /// findings.
    Finished(Vec<String>),
    /// The scan terminated abnormally; the payload is a human-readable
    /// description.
    FinishedWithError(String),
}

/// Mathematical model of a `ScanState`: the same sum type over character
/// sequences.
pub enum StateView {
    Idle,
    Scanning(Seq<char>),
    Finished(Seq<Seq<char>>),
    FinishedWithError(Seq<char>),
}

impl View for ScanState {
    type V = StateView;

    open spec fn view(&self) -> StateView {
        match self {
            ScanState::Idle => StateView::Idle,
            ScanState::Scanning(p) => StateView::Scanning(p@),
            ScanState::Finished(fs) => StateView::Finished(fs.deep_view()),
            ScanState::FinishedWithError(e) => StateView::FinishedWithError(e@),
        }
    }
}

/// Argument payload of a command request.
///
/// The remote contract accepts either no argument at all (encoded as an
/// explicit absent-value marker, so the engine can tell "no arguments" from
/// "one null argument") or a list of filesystem paths.
#[derive(Debug, Clone, PartialEq, Eq)]
pub enum CommandArgs {
    Null,
    Paths(Vec<String>),
}

/// Mathematical model of a `CommandArgs`.
pub enum ArgsView {
    Null,
    Paths(Seq<Seq<char>>),
}

impl View for CommandArgs {
    type V = ArgsView;

    open spec fn view(&self) -> ArgsView {
        match self {
            CommandArgs::Null => ArgsView::Null,
            CommandArgs::Paths(ps) => ArgsView::Paths(ps.deep_view()),
        }
    }
}

/// A request to the remote engine: a non-empty command name naming a remote
/// operation, and its argument payload.
#[derive(Debug, Clone, PartialEq, Eq)]
pub struct CommandRequest {
    pub command: String,
    pub args: CommandArgs,
}

/// Mathematical model of a `CommandRequest`.
pub struct RequestView {
    pub command: Seq<char>,
    pub args: ArgsView,
}

impl View for CommandRequest {
    type V = RequestView;

    open spec fn view(&self) -> RequestView {
        RequestView { command: self.command@, args: self.args@ }
    }
}

/// The distinct, inspectable error classes of a call, never collapsed into
/// one opaque error.
#[derive(Debug, Clone, PartialEq, Eq)]
pub enum RpcError {
    /// The endpoint could not be opened: the engine is not listening.
    Connection(String),
    /// A write or read on the open channel failed, or the remote closed the
    /// channel mid-call. Retrying the same call may help.
    Transport(String),
    /// The bytes received do not decode as the expected result shape: a
    /// framing or version mismatch. Retrying the same call will not help.
    Protocol(String),
}

/// What the transport observed while reading one response frame. The
/// unverified I/O layer reports its outcome as one of these values.
#[derive(Debug, Clone, PartialEq, Eq)]
pub enum ReadOutcome {
    /// A frame was read; the payload is its text.
    Data(String),
    /// Zero bytes were read: the remote closed the channel.
    Closed,
    /// The read itself failed; the payload describes the I/O fault.
    Fault(String),
}

/// A named event handed to the presentation layer when a scan reaches a
/// terminal or conflicting outcome.
#[derive(Debug, Clone, PartialEq, Eq)]
pub enum Notification {
    /// The scan finished and found nothing; carries a human-readable note.
    NoResults(String),
    /// The scan finished with findings; carries every finding, none dropped.
    MalwareFound(Vec<String>),
    /// The scan failed, or the call driving it failed; carries the
    /// description.
    ScanError(String),
    /// A start was requested while a scan was already in flight.
    AlreadyRunning(String),
}

/// Event name of the "no results" notification.
pub open spec fn event_no_results() -> Seq<char> {
    "folder_scan_no_results"@
}

/// Event name of the "malware found" notification.
pub open spec fn event_malware_found() -> Seq<char> {
    "folder_scan_malware_found"@
}

/// Event name of the "scan error" notification.
pub open spec fn event_scan_error() -> Seq<char> {
    "folder_scan_error"@
}

/// Event name of the "already running" notification.
pub open spec fn event_already_running() -> Seq<char> {
    "folder_scan_already_running"@
}

/// The event name a notification is emitted under.
pub open spec fn spec_event_name(n: Notification) -> Seq<char> {
    match n {
        Notification::NoResults(_) => event_no_results(),
        Notification::MalwareFound(_) => event_malware_found(),
        Notification::ScanError(_) => event_scan_error(),
        Notification::AlreadyRunning(_) => event_already_running(),
    }
}

impl Notification {
    /// The name under which this notification is emitted. Each variant has
    /// its own name, so the four outcomes are distinguishable at the sink.
    pub fn event_name(&self) -> (r: &'static str)
        ensures
            r@ == spec_event_name(*self),
    {
        match self {
            Notification::NoResults(_) => "folder_scan_no_results",
            Notification::MalwareFound(_) => "folder_scan_malware_found",
            Notification::ScanError(_) => "folder_scan_error",
            Notification::AlreadyRunning(_) => "folder_scan_already_running",
        }
    }
}

/// How the completion of a background start task is resolved: either one
/// notification for the sink, or the mark of an engine answer that violates
/// the remote contract (reported distinctly, never as a sink event).
#[derive(Debug, Clone, PartialEq, Eq)]
pub enum StartOutcome {
    Notify(Notification),
    EngineContractViolation,
}

} // verus!
