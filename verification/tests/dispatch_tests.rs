use host_bridge::dispatch::{
    fs_exists_response, fs_list_dir_response, fs_read_text_response, hsb_ipc, parse_cmd,
    FsOp, HostCommand, IpcStep,
};
use host_bridge::envelope::{
    get_payload_str, invalid_request, ok_response, ErrorCode, FieldValue, IpcData, IpcMeta,
    IpcRequest, IpcResponse, Payload, PayloadField,
};
use host_bridge::store::{HostState, HostStore};

fn payload_of(fields: Vec<(&str, FieldValue)>) -> Payload {
    let mut out = Vec::new();
    for (name, value) in fields {
        out.push(PayloadField { name: name.to_string(), value });
    }
    Payload { fields: out }
}

fn request(id: &str, cmd: &str, source: &str, fields: Vec<(&str, FieldValue)>) -> IpcRequest {
    IpcRequest {
        id: id.to_string(),
        cmd: cmd.to_string(),
        payload: payload_of(fields),
        meta: IpcMeta { source: source.to_string() },
    }
}

fn expect_ready(step: IpcStep) -> IpcResponse {
    match step {
        IpcStep::Ready(resp) => resp,
        IpcStep::Fs(_) => panic!("expected a finished response"),
    }
}

fn expect_error(resp: &IpcResponse, code: ErrorCode, message: &str) {
    assert!(!resp.ok);
    assert!(resp.data.is_none());
    let err = resp.error.as_ref().expect("error body");
    assert_eq!(err.code, code);
    assert_eq!(err.message, message);
}

#[test]
fn parse_cmd_covers_the_closed_set() {
    assert_eq!(parse_cmd("host.fs.exists"), Some(HostCommand::FsExists));
    assert_eq!(parse_cmd("host.fs.readTextFile"), Some(HostCommand::FsReadTextFile));
    assert_eq!(parse_cmd("host.fs.listDir"), Some(HostCommand::FsListDir));
    assert_eq!(parse_cmd("host.store.get"), Some(HostCommand::StoreGet));
    assert_eq!(parse_cmd("host.store.set"), Some(HostCommand::StoreSet));
    assert_eq!(parse_cmd("host.fs.delete"), None);
    assert_eq!(parse_cmd(""), None);
}

#[test]
fn blank_envelope_fields_yield_invalid_request() {
    let mut store = HostStore::new(4);
    for (id, cmd, source) in [
        ("", "host.store.get", "ui"),
        ("  ", "host.store.get", "ui"),
        ("r1", "\t", "ui"),
        ("r1", "host.store.get", ""),
        ("", "", ""),
    ] {
        let req = request(id, cmd, source, vec![("key", FieldValue::Str("k".to_string()))]);
        let resp = expect_ready(hsb_ipc(&req, &mut store));
        assert_eq!(resp.id, id);
        expect_error(&resp, ErrorCode::InvalidRequest, "missing required fields");
    }
}

#[test]
fn unknown_command_yields_unsupported_without_data() {
    let mut store = HostStore::new(4);
    let req = request("r7", "host.clipboard.read", "ui", vec![]);
    let resp = expect_ready(hsb_ipc(&req, &mut store));
    assert_eq!(resp.id, "r7");
    expect_error(&resp, ErrorCode::Unsupported, "unsupported command");
}

#[test]
fn store_set_and_get_through_dispatcher() {
    let mut store = HostStore::new(4);
    let set_req = request(
        "r1",
        "host.store.set",
        "ui",
        vec![
            ("key", FieldValue::Str("k".to_string())),
            ("value", FieldValue::Str("v".to_string())),
        ],
    );
    let resp = expect_ready(hsb_ipc(&set_req, &mut store));
    assert_eq!(resp.id, "r1");
    assert!(resp.ok);
    assert!(resp.error.is_none());
    assert!(matches!(resp.data, Some(IpcData::SetOk)));

    let get_req = request("r2", "host.store.get", "ui", vec![(
        "key",
        FieldValue::Str("k".to_string()),
    )]);
    let resp = expect_ready(hsb_ipc(&get_req, &mut store));
    assert!(resp.ok);
    match resp.data {
        Some(IpcData::Value { value }) => assert_eq!(value, Some("v".to_string())),
        _ => panic!("expected a value payload"),
    }
}

#[test]
fn store_get_of_absent_key_returns_null_value() {
    let mut store = HostStore::new(4);
    let req = request("r3", "host.store.get", "ui", vec![(
        "key",
        FieldValue::Str("nope".to_string()),
    )]);
    let resp = expect_ready(hsb_ipc(&req, &mut store));
    assert!(resp.ok);
    match resp.data {
        Some(IpcData::Value { value }) => assert_eq!(value, None),
        _ => panic!("expected a value payload"),
    }
}

#[test]
fn missing_payload_fields_are_reported_by_name() {
    let mut store = HostStore::new(4);

    let req = request("r4", "host.fs.exists", "ui", vec![]);
    let resp = expect_ready(hsb_ipc(&req, &mut store));
    expect_error(&resp, ErrorCode::InvalidRequest, "missing or invalid field: path");

    let req = request("r5", "host.store.set", "ui", vec![(
        "key",
        FieldValue::Str("k".to_string()),
    )]);
    let resp = expect_ready(hsb_ipc(&req, &mut store));
    expect_error(&resp, ErrorCode::InvalidRequest, "missing or invalid field: value");

    let req = request("r6", "host.store.set", "ui", vec![(
        "value",
        FieldValue::Str("v".to_string()),
    )]);
    let resp = expect_ready(hsb_ipc(&req, &mut store));
    expect_error(&resp, ErrorCode::InvalidRequest, "missing or invalid field: key");
}

#[test]
fn wrong_typed_payload_field_counts_as_missing() {
    let mut store = HostStore::new(4);
    let req = request("r8", "host.fs.readTextFile", "ui", vec![("path", FieldValue::Other)]);
    let resp = expect_ready(hsb_ipc(&req, &mut store));
    expect_error(&resp, ErrorCode::InvalidRequest, "missing or invalid field: path");
}

#[test]
fn fs_commands_become_fs_requests() {
    let mut store = HostStore::new(4);
    for (cmd, op) in [
        ("host.fs.exists", FsOp::Exists),
        ("host.fs.readTextFile", FsOp::ReadText),
        ("host.fs.listDir", FsOp::ListDir),
    ] {
        let req = request("r9", cmd, "ui", vec![(
            "path",
            FieldValue::Str("/tmp/x".to_string()),
        )]);
        match hsb_ipc(&req, &mut store) {
            IpcStep::Fs(fs) => {
                assert_eq!(fs.id, "r9");
                assert_eq!(fs.op, op);
                assert_eq!(fs.path, "/tmp/x");
            },
            IpcStep::Ready(_) => panic!("expected a filesystem request"),
        }
    }
}

#[test]
fn exists_not_found_is_ok_false_never_an_error() {
    let resp = fs_exists_response("r10", Ok(false));
    assert_eq!(resp.id, "r10");
    assert!(resp.ok);
    assert!(resp.error.is_none());
    assert!(matches!(resp.data, Some(IpcData::Exists { exists: false })));

    let resp = fs_exists_response("r10", Ok(true));
    assert!(resp.ok);
    assert!(matches!(resp.data, Some(IpcData::Exists { exists: true })));
}

#[test]
fn fs_failures_surface_as_fs_error() {
    let resp = fs_exists_response("r11", Err(()));
    expect_error(&resp, ErrorCode::FsError, "fs error");

    let resp = fs_read_text_response("r12", Err(()));
    expect_error(&resp, ErrorCode::FsError, "fs error");

    let resp = fs_list_dir_response("r13", Err(()));
    expect_error(&resp, ErrorCode::FsError, "fs error");
}

#[test]
fn read_text_success_carries_the_text() {
    let resp = fs_read_text_response("r14", Ok("hello\nworld".to_string()));
    assert!(resp.ok);
    match resp.data {
        Some(IpcData::Text { text }) => assert_eq!(text, "hello\nworld"),
        _ => panic!("expected a text payload"),
    }
}

#[test]
fn list_dir_success_is_sorted() {
    let resp = fs_list_dir_response(
        "r15",
        Ok(vec!["beta".to_string(), "alpha".to_string(), "Beta".to_string()]),
    );
    assert!(resp.ok);
    match resp.data {
        Some(IpcData::Entries { entries }) => {
            assert_eq!(
                entries,
                vec!["Beta".to_string(), "alpha".to_string(), "beta".to_string()]
            );
        },
        _ => panic!("expected an entries payload"),
    }
}

#[test]
fn get_payload_str_takes_the_first_matching_field() {
    let payload = payload_of(vec![
        ("key", FieldValue::Str("first".to_string())),
        ("key", FieldValue::Str("second".to_string())),
    ]);
    assert_eq!(get_payload_str(&payload, "key"), Ok("first".to_string()));
    assert_eq!(
        get_payload_str(&payload, "other"),
        Err("missing or invalid field: other".to_string())
    );
}

#[test]
fn response_builders_populate_exactly_one_side() {
    let ok = ok_response("a", IpcData::SetOk);
    assert!(ok.ok && ok.data.is_some() && ok.error.is_none());
    let err = invalid_request("a", "store unavailable");
    assert!(!err.ok && err.data.is_none() && err.error.is_some());
    expect_error(&err, ErrorCode::InvalidRequest, "store unavailable");
}

#[test]
fn dispatcher_eviction_end_to_end() {
    let mut store = HostStore::new(2);
    for (k, v) in [("a", "1"), ("b", "2"), ("c", "3")] {
        let req = request(
            "rs",
            "host.store.set",
            "ui",
            vec![
                ("key", FieldValue::Str(k.to_string())),
                ("value", FieldValue::Str(v.to_string())),
            ],
        );
        let resp = expect_ready(hsb_ipc(&req, &mut store));
        assert!(resp.ok);
    }
    for (k, expected) in [("a", None), ("b", Some("2")), ("c", Some("3"))] {
        let req = request("rg", "host.store.get", "ui", vec![(
            "key",
            FieldValue::Str(k.to_string()),
        )]);
        let resp = expect_ready(hsb_ipc(&req, &mut store));
        match resp.data {
            Some(IpcData::Value { value }) => {
                assert_eq!(value, expected.map(|s: &str| s.to_string()))
            },
            _ => panic!("expected a value payload"),
        }
    }
}

#[test]
fn host_state_guards_one_shared_store() {
    let state = HostState::new();
    {
        let mut store = state.store.lock().expect("lock");
        store.set("k".to_string(), "v".to_string());
    }
    let store = state.store.lock().expect("lock");
    assert_eq!(store.get("k"), Some("v".to_string()));
}
