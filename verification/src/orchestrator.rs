//! Scan-lifecycle orchestration as driven from the calling side: the
//! frequent state poll, the cancel request, the validated start request
//! whose actual call runs on a background task, and the reconciliation of
//! that task's outcome into exactly one outbound notification.
//!
//! Only the decisions live here; the unverified outer layer writes the
//! frames to the channel, reads the answers, runs the background task and
//! hands each notification to the presentation layer under its event name.

use vstd::prelude::*;
use vstd::string::StrSliceExecFns;
use vstd::string::StringExecFns;

use crate::codec;
use crate::protocol::CommandArgs;
use crate::protocol::Notification;
use crate::protocol::RequestView;
use crate::protocol::ArgsView;
use crate::protocol::RpcError;
use crate::protocol::ScanState;
use crate::protocol::StartOutcome;
use crate::protocol::StateView;
use crate::rpc::IpcClient;
use crate::rpc::ResponseShape;

verus! {

/// The request the state poll sends: `scanner_get_state`, no arguments.
pub open spec fn get_state_request() -> RequestView {
    RequestView { command: "scanner_get_state"@, args: ArgsView::Null }
}

/// The request a cancel sends: `scanner_cancel_scan`, no arguments.
pub open spec fn cancel_scan_request() -> RequestView {
    RequestView { command: "scanner_cancel_scan"@, args: ArgsView::Null }
}

/// The request a start sends: `scanner_start_folder_scan` with the one
/// path to scan.
pub open spec fn start_scan_request(path: Seq<char>) -> RequestView {
    RequestView {
        command: "scanner_start_folder_scan"@,
        args: ArgsView::Paths(seq![path]),
    }
}

/// Renders the engine state for the page: the same frame the protocol
/// itself uses, fit for frequent polling with no side effect on the
/// engine. Rendering the same state twice yields the same text.
pub fn check_page_state(state: &ScanState) -> (r: String)
    ensures
        r@ == codec::enc_state(state@),
{
    codec::encode_state(state)
}

/// Builds the state-poll request frame and leaves the session awaiting a
/// scan state answer.
pub fn poll_state(client: &mut IpcClient) -> (frame: String)
    requires
        old(client).ready(),
    ensures
        final(client).awaiting(ResponseShape::State),
        frame@ == codec::enc_request(get_state_request()),
{
    proof {
        reveal_strlit("scanner_get_state");
    }
    client.send_ipc("scanner_get_state", CommandArgs::Null, ResponseShape::State)
}

/// Builds the cancel request frame and leaves the session awaiting the
/// unit answer. The engine answers the unit frame to every cancel, also
/// when no scan is active, and the unit frame resolves to success — so a
/// cancel with no scan active is a no-op, never an error.
pub fn stop_scan(client: &mut IpcClient) -> (frame: String)
    requires
        old(client).ready(),
    ensures
        final(client).awaiting(ResponseShape::Unit),
        frame@ == codec::enc_request(cancel_scan_request()),
{
    proof {
        reveal_strlit("scanner_cancel_scan");
    }
    client.send_ipc("scanner_cancel_scan", CommandArgs::Null, ResponseShape::Unit)
}

/// Validates the path and builds the start request frame, together with
/// the immediate acknowledgement the caller gets while the actual call
/// runs on a background task. An implausible (empty) path is rejected at
/// once, and the session stays free.
pub fn start_folder_scan(client: &mut IpcClient, file_path: &str) -> (r: Result<
    (String, String),
    String,
>)
    requires
        old(client).ready(),
    ensures
        (match r {
            Ok(af) => file_path@.len() > 0 && final(client).awaiting(ResponseShape::State)
                && af.0@ == "Scan started..."@ && af.1@ == codec::enc_request(
                start_scan_request(file_path@),
            ),
            Err(e) => file_path@.len() == 0 && *final(client) == *old(client) && e@
                == "scan path must not be empty"@,
        }),
{
    if file_path.unicode_len() == 0 {
        return Err(String::from_str("scan path must not be empty"));
    }
    proof {
        reveal_strlit("scanner_start_folder_scan");
    }
    let mut paths: Vec<String> = Vec::new();
    paths.push(String::from_str(file_path));
    assert(paths.deep_view() =~= seq![file_path@]);
    let frame = client.send_ipc(
        "scanner_start_folder_scan",
        CommandArgs::Paths(paths),
        ResponseShape::State,
    );
    Ok((String::from_str("Scan started..."), frame))
}

/// Reconciles the outcome of the background start task into exactly one
/// resolution:
///
/// - a finished scan with no findings is the "no results" notification and
///   never the "malware found" one;
/// - a finished scan with findings is the "malware found" notification
///   carrying every finding, none dropped, and never the "no results" one;
/// - an abnormal end is the "scan error" notification with its description;
/// - `Scanning` answered to a start means a scan was already in flight: the
///   "already running" notification, never a terminal one — a policy
///   branch, not an error;
/// - a failed call has no caller to propagate to, so it too becomes a
///   "scan error" notification rather than being dropped;
/// - any other answer violates the remote contract and is reported
///   distinctly, never as a sink event.
pub fn resolve_start_scan(outcome: Result<ScanState, RpcError>) -> (r: StartOutcome)
    ensures
        (match outcome {
            Ok(st) => (match st@ {
                StateView::Finished(fs) => {
                    if fs.len() == 0 {
                        r matches StartOutcome::Notify(Notification::NoResults(m)) && m@
                            == "No malicious files found."@
                    } else {
                        r matches StartOutcome::Notify(Notification::MalwareFound(v))
                            && v.deep_view() == fs
                    }
                },
                StateView::FinishedWithError(e) => r matches StartOutcome::Notify(
                    Notification::ScanError(m),
                ) && m@ == e,
                StateView::Scanning(_) => r matches StartOutcome::Notify(
                    Notification::AlreadyRunning(m),
                ) && m@ == "A scan is already in progress."@,
                StateView::Idle => r == StartOutcome::EngineContractViolation,
            }),
            Err(e) => (match e {
                RpcError::Connection(d) => r matches StartOutcome::Notify(
                    Notification::ScanError(m),
                ) && m@ == "connection failure: "@ + d@,
                RpcError::Transport(d) => r matches StartOutcome::Notify(
                    Notification::ScanError(m),
                ) && m@ == "transport failure: "@ + d@,
                RpcError::Protocol(d) => r matches StartOutcome::Notify(
                    Notification::ScanError(m),
                ) && m@ == "protocol failure: "@ + d@,
            }),
        }),
{
    match outcome {
        Ok(st) => {
            match st {
                ScanState::Finished(fs) => {
                    if fs.len() == 0 {
                        StartOutcome::Notify(
                            Notification::NoResults(String::from_str("No malicious files found.")),
                        )
                    } else {
                        StartOutcome::Notify(Notification::MalwareFound(fs))
                    }
                },
                ScanState::FinishedWithError(e) => StartOutcome::Notify(
                    Notification::ScanError(e),
                ),
                ScanState::Scanning(_) => StartOutcome::Notify(
                    Notification::AlreadyRunning(
                        String::from_str("A scan is already in progress."),
                    ),
                ),
                ScanState::Idle => StartOutcome::EngineContractViolation,
            }
        },
        Err(e) => {
            match e {
                RpcError::Connection(d) => StartOutcome::Notify(
                    Notification::ScanError(
                        String::from_str("connection failure: ").concat(d.as_str()),
                    ),
                ),
                RpcError::Transport(d) => StartOutcome::Notify(
                    Notification::ScanError(
                        String::from_str("transport failure: ").concat(d.as_str()),
                    ),
                ),
                RpcError::Protocol(d) => StartOutcome::Notify(
                    Notification::ScanError(
                        String::from_str("protocol failure: ").concat(d.as_str()),
                    ),
                ),
            }
        },
    }
}

} // verus!
