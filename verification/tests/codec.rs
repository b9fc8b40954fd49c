use scan_bridge::codec::decode_request;
use scan_bridge::codec::decode_state;
use scan_bridge::codec::decode_unit;
use scan_bridge::codec::encode_request;
use scan_bridge::codec::encode_state;
use scan_bridge::codec::encode_unit;
use scan_bridge::protocol::CommandArgs;
use scan_bridge::protocol::CommandRequest;
use scan_bridge::protocol::ScanState;

#[test]
fn request_without_args_has_explicit_null_marker() {
    let req = CommandRequest {
        command: "scanner_get_state".to_string(),
        args: CommandArgs::Null,
    };
    let frame = encode_request(&req);
    assert_eq!(frame, "{\"command\":\"scanner_get_state\",\"args\":null}");
}

#[test]
fn request_with_one_path_encodes_as_array() {
    let req = CommandRequest {
        command: "scanner_start_folder_scan".to_string(),
        args: CommandArgs::Paths(vec!["/data/samples".to_string()]),
    };
    let frame = encode_request(&req);
    assert_eq!(
        frame,
        "{\"command\":\"scanner_start_folder_scan\",\"args\":[\"/data/samples\"]}"
    );
}

#[test]
fn request_frame_is_well_formed_json() {
    let req = CommandRequest {
        command: "scanner_start_folder_scan".to_string(),
        args: CommandArgs::Paths(vec!["C:\\samples\\a \"b\"".to_string()]),
    };
    let frame = encode_request(&req);
    let v: serde_json::Value = serde_json::from_str(&frame).unwrap();
    assert_eq!(v["command"], "scanner_start_folder_scan");
    assert_eq!(v["args"][0], "C:\\samples\\a \"b\"");
}

#[test]
fn state_frames_are_well_formed_json() {
    let f = encode_state(&ScanState::Finished(vec!["x\\y".to_string(), "\"q\"".to_string()]));
    let v: serde_json::Value = serde_json::from_str(&f).unwrap();
    assert_eq!(v["Finished"][0], "x\\y");
    assert_eq!(v["Finished"][1], "\"q\"");
    let e = encode_state(&ScanState::FinishedWithError("disk gone".to_string()));
    let v: serde_json::Value = serde_json::from_str(&e).unwrap();
    assert_eq!(v["FinishedWithError"], "disk gone");
}

#[test]
fn state_frames_have_expected_text() {
    assert_eq!(encode_state(&ScanState::Idle), "\"Idle\"");
    assert_eq!(
        encode_state(&ScanState::Scanning("3 files".to_string())),
        "{\"Scanning\":\"3 files\"}"
    );
    assert_eq!(encode_state(&ScanState::Finished(vec![])), "{\"Finished\":[]}");
    assert_eq!(
        encode_state(&ScanState::Finished(vec!["a".to_string(), "b".to_string()])),
        "{\"Finished\":[\"a\",\"b\"]}"
    );
    assert_eq!(
        encode_state(&ScanState::FinishedWithError("oops".to_string())),
        "{\"FinishedWithError\":\"oops\"}"
    );
}

#[test]
fn request_round_trips_for_every_accepted_pair() {
    let pairs = vec![
        ("scanner_get_state", CommandArgs::Null),
        ("scanner_cancel_scan", CommandArgs::Null),
        (
            "scanner_start_folder_scan",
            CommandArgs::Paths(vec!["/data/samples".to_string()]),
        ),
        (
            "scanner_start_folder_scan",
            CommandArgs::Paths(vec!["p\\q".to_string(), "r \"s\"".to_string()]),
        ),
    ];
    for (command, args) in pairs {
        let req = CommandRequest {
            command: command.to_string(),
            args,
        };
        let frame = encode_request(&req);
        assert_eq!(decode_request(&frame), Some(req));
    }
}

#[test]
fn state_round_trips_for_every_variant() {
    let states = vec![
        ScanState::Idle,
        ScanState::Scanning("7 files, 3s".to_string()),
        ScanState::Finished(vec![]),
        ScanState::Finished(vec!["C:\\bad.exe".to_string(), "evil \"x\"".to_string()]),
        ScanState::FinishedWithError("engine fault".to_string()),
    ];
    for st in states {
        let frame = encode_state(&st);
        assert_eq!(decode_state(&frame), Some(st));
    }
}

#[test]
fn garbage_never_decodes() {
    assert_eq!(decode_state(""), None);
    assert_eq!(decode_state("Idle"), None);
    assert_eq!(decode_state("{\"Scanning\":}"), None);
    assert_eq!(decode_state("{\"Finished\":[\"a\"]"), None);
    assert_eq!(decode_state("{\"Finished\":[\"a\"]}x"), None);
    assert_eq!(decode_state("{\"Elapsed\":\"3s\"}"), None);
    assert_eq!(decode_request(""), None);
    assert_eq!(decode_request("{\"command\":\"\",\"args\":null}"), None);
    assert_eq!(decode_request("{\"command\":\"x\",\"args\":}"), None);
}

#[test]
fn truncated_frame_is_rejected_not_defaulted() {
    let full = encode_state(&ScanState::Finished(vec!["a".to_string()]));
    for cut in 1..full.len() {
        assert_eq!(decode_state(&full[..cut]), None);
    }
}

#[test]
fn unit_frame_is_exactly_null() {
    assert!(decode_unit(&encode_unit()));
    assert!(decode_unit("null"));
    assert!(!decode_unit(""));
    assert!(!decode_unit("nul"));
    assert!(!decode_unit("nulll"));
    assert!(!decode_unit("\"null\""));
}
