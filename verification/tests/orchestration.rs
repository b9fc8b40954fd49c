use scan_bridge::codec::decode_request;
use scan_bridge::codec::encode_state;
use scan_bridge::codec::encode_unit;
use scan_bridge::orchestrator::check_page_state;
use scan_bridge::orchestrator::poll_state;
use scan_bridge::orchestrator::resolve_start_scan;
use scan_bridge::orchestrator::start_folder_scan;
use scan_bridge::orchestrator::stop_scan;
use scan_bridge::protocol::CommandArgs;
use scan_bridge::protocol::Notification;
use scan_bridge::protocol::ReadOutcome;
use scan_bridge::protocol::RpcError;
use scan_bridge::protocol::ScanState;
use scan_bridge::protocol::StartOutcome;
use scan_bridge::rpc::IpcClient;
use scan_bridge::rpc::Response;

/// A stand-in for the remote engine: holds one scan lifecycle value and
/// answers request frames the way the engine-side contract describes.
struct EngineSim {
    state: ScanState,
}

impl EngineSim {
    fn new() -> Self {
        EngineSim { state: ScanState::Idle }
    }

    /// Answers one request frame. A start against an idle engine moves it
    /// to `Scanning`; its final answer is delivered later through
    /// `finish_scan`. A start against a scanning engine answers
    /// `Scanning` at once.
    fn handle(&mut self, frame: &str) -> Option<String> {
        let req = decode_request(frame)?;
        match req.command.as_str() {
            "scanner_get_state" => Some(encode_state(&self.state)),
            "scanner_cancel_scan" => {
                self.state = ScanState::Idle;
                Some(encode_unit())
            }
            "scanner_start_folder_scan" => match (&self.state, &req.args) {
                (ScanState::Scanning(_), _) => Some(encode_state(&self.state)),
                (_, CommandArgs::Paths(ps)) if ps.len() == 1 => {
                    self.state = ScanState::Scanning("0 files".to_string());
                    None
                }
                _ => None,
            },
            _ => None,
        }
    }

    /// The scan reaches its terminal state; the answer to the pending
    /// start call is the frame of that state.
    fn finish_scan(&mut self, terminal: ScanState) -> String {
        self.state = terminal.clone();
        encode_state(&terminal)
    }
}

fn data(frame: String) -> ReadOutcome {
    ReadOutcome::Data(frame)
}

#[test]
fn polling_without_mutation_is_stable() {
    let mut engine = EngineSim::new();
    engine.state = ScanState::Scanning("12 files".to_string());
    let mut client = IpcClient::new();
    let mut seen = Vec::new();
    for _ in 0..3 {
        let frame = poll_state(&mut client);
        let answer = engine.handle(&frame).unwrap();
        match client.recv_ipc(data(answer)).unwrap() {
            Response::State(st) => seen.push(st),
            other => panic!("unexpected answer shape: {:?}", other),
        }
    }
    assert_eq!(seen[0], seen[1]);
    assert_eq!(seen[1], seen[2]);
    assert_eq!(seen[0], engine.state);
}

#[test]
fn page_state_renders_the_same_state_the_same_way() {
    let st = ScanState::Finished(vec!["a".to_string()]);
    assert_eq!(check_page_state(&st), check_page_state(&st));
    assert_eq!(check_page_state(&st), "{\"Finished\":[\"a\"]}");
}

#[test]
fn cancel_with_no_scan_active_is_not_an_error() {
    let mut engine = EngineSim::new();
    assert_eq!(engine.state, ScanState::Idle);
    let mut client = IpcClient::new();
    let frame = stop_scan(&mut client);
    let answer = engine.handle(&frame).unwrap();
    let res = client.recv_ipc(data(answer));
    assert_eq!(res, Ok(Response::Unit));
    assert!(client.is_ready());
}

#[test]
fn closed_connection_is_a_transport_error_never_a_value() {
    let mut client = IpcClient::new();
    let _frame = poll_state(&mut client);
    let res = client.recv_ipc(ReadOutcome::Closed);
    assert!(matches!(res, Err(RpcError::Transport(_))));
    assert!(client.is_ready());
}

#[test]
fn read_fault_is_a_transport_error() {
    let mut client = IpcClient::new();
    let _frame = stop_scan(&mut client);
    let res = client.recv_ipc(ReadOutcome::Fault("pipe burst".to_string()));
    assert_eq!(res, Err(RpcError::Transport("pipe burst".to_string())));
}

#[test]
fn malformed_answer_is_a_protocol_error_distinct_from_transport() {
    let mut client = IpcClient::new();
    let _frame = poll_state(&mut client);
    let res = client.recv_ipc(ReadOutcome::Data("{\"Fini".to_string()));
    assert!(matches!(res, Err(RpcError::Protocol(_))));

    let mut client = IpcClient::new();
    let _frame = stop_scan(&mut client);
    let res = client.recv_ipc(ReadOutcome::Data("\"Idle\"".to_string()));
    assert!(matches!(res, Err(RpcError::Protocol(_))));
}

#[test]
fn empty_path_is_rejected_before_any_call() {
    let mut client = IpcClient::new();
    let res = start_folder_scan(&mut client, "");
    assert_eq!(res, Err("scan path must not be empty".to_string()));
    assert!(client.is_ready());
}

#[test]
fn finished_empty_resolves_to_exactly_no_results() {
    let r = resolve_start_scan(Ok(ScanState::Finished(vec![])));
    match r {
        StartOutcome::Notify(n) => {
            assert_eq!(n.event_name(), "folder_scan_no_results");
            assert_eq!(n, Notification::NoResults("No malicious files found.".to_string()));
        }
        other => panic!("unexpected resolution: {:?}", other),
    }
}

#[test]
fn finished_with_findings_carries_them_all() {
    let findings = vec!["a.exe".to_string(), "b.dll".to_string(), "c.sys".to_string()];
    let r = resolve_start_scan(Ok(ScanState::Finished(findings.clone())));
    match r {
        StartOutcome::Notify(n) => {
            assert_eq!(n.event_name(), "folder_scan_malware_found");
            assert_eq!(n, Notification::MalwareFound(findings));
        }
        other => panic!("unexpected resolution: {:?}", other),
    }
}

#[test]
fn abnormal_end_resolves_to_scan_error() {
    let r = resolve_start_scan(Ok(ScanState::FinishedWithError("signature load failed".to_string())));
    match r {
        StartOutcome::Notify(n) => {
            assert_eq!(n.event_name(), "folder_scan_error");
            assert_eq!(n, Notification::ScanError("signature load failed".to_string()));
        }
        other => panic!("unexpected resolution: {:?}", other),
    }
}

#[test]
fn scanning_resolves_to_already_running_never_terminal() {
    let r = resolve_start_scan(Ok(ScanState::Scanning("5 files".to_string())));
    match r {
        StartOutcome::Notify(n) => {
            assert_eq!(n.event_name(), "folder_scan_already_running");
            assert!(!matches!(n, Notification::MalwareFound(_)));
            assert!(!matches!(n, Notification::NoResults(_)));
            assert_eq!(n, Notification::AlreadyRunning("A scan is already in progress.".to_string()));
        }
        other => panic!("unexpected resolution: {:?}", other),
    }
}

#[test]
fn idle_answer_to_a_start_is_a_contract_violation_not_an_event() {
    let r = resolve_start_scan(Ok(ScanState::Idle));
    assert_eq!(r, StartOutcome::EngineContractViolation);
}

#[test]
fn failed_background_call_becomes_an_error_event_not_silence() {
    let r = resolve_start_scan(Err(RpcError::Transport("read timed out".to_string())));
    match r {
        StartOutcome::Notify(n) => {
            assert_eq!(n.event_name(), "folder_scan_error");
            assert_eq!(n, Notification::ScanError("transport failure: read timed out".to_string()));
        }
        other => panic!("unexpected resolution: {:?}", other),
    }
}

#[test]
fn start_scan_with_no_findings_emits_exactly_one_no_results_event() {
    let mut engine = EngineSim::new();
    let mut client = IpcClient::new();
    let mut events: Vec<Notification> = Vec::new();

    let (ack, frame) = start_folder_scan(&mut client, "/data/samples").unwrap();
    assert_eq!(ack, "Scan started...");

    // The background task: the engine accepts the start, scans, and the
    // pending answer resolves to a finished state with no findings.
    assert_eq!(engine.handle(&frame), None);
    let answer = engine.finish_scan(ScanState::Finished(vec![]));
    let outcome = match client.recv_ipc(data(answer)).unwrap() {
        Response::State(st) => Ok(st),
        other => panic!("unexpected answer shape: {:?}", other),
    };
    match resolve_start_scan(outcome) {
        StartOutcome::Notify(n) => events.push(n),
        StartOutcome::EngineContractViolation => panic!("engine broke its contract"),
    }

    assert_eq!(events.len(), 1);
    assert_eq!(events[0], Notification::NoResults("No malicious files found.".to_string()));
    assert_eq!(events[0].event_name(), "folder_scan_no_results");
}

#[test]
fn second_start_while_scanning_emits_one_already_running_and_first_still_completes() {
    let mut engine = EngineSim::new();
    let mut first = IpcClient::new();
    let mut second = IpcClient::new();
    let mut first_events: Vec<Notification> = Vec::new();
    let mut second_events: Vec<Notification> = Vec::new();

    // First start: the engine accepts it and begins scanning; its answer
    // is still pending.
    let (_, frame1) = start_folder_scan(&mut first, "/data/samples").unwrap();
    assert_eq!(engine.handle(&frame1), None);

    // Second start in quick succession, on its own connection: the engine
    // reports the scan already in flight.
    let (_, frame2) = start_folder_scan(&mut second, "/data/samples").unwrap();
    let answer2 = engine.handle(&frame2).unwrap();
    let outcome2 = match second.recv_ipc(data(answer2)).unwrap() {
        Response::State(st) => Ok(st),
        other => panic!("unexpected answer shape: {:?}", other),
    };
    match resolve_start_scan(outcome2) {
        StartOutcome::Notify(n) => second_events.push(n),
        StartOutcome::EngineContractViolation => panic!("engine broke its contract"),
    }
    assert_eq!(second_events.len(), 1);
    assert_eq!(second_events[0].event_name(), "folder_scan_already_running");

    // The first scan still completes and emits its own single terminal
    // event with every finding.
    let answer1 = engine.finish_scan(ScanState::Finished(vec!["bad.exe".to_string()]));
    let outcome1 = match first.recv_ipc(data(answer1)).unwrap() {
        Response::State(st) => Ok(st),
        other => panic!("unexpected answer shape: {:?}", other),
    };
    match resolve_start_scan(outcome1) {
        StartOutcome::Notify(n) => first_events.push(n),
        StartOutcome::EngineContractViolation => panic!("engine broke its contract"),
    }
    assert_eq!(first_events.len(), 1);
    assert_eq!(first_events[0], Notification::MalwareFound(vec!["bad.exe".to_string()]));
    assert_eq!(first_events[0].event_name(), "folder_scan_malware_found");
}
