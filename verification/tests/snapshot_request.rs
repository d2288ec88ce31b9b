use serde_json::Value;
use vmm::snapshot_request::{
    parse_patch_vm_state, parse_put_snapshot, validate_session_id, Body, Method, ParsedRequest,
    RequestError, StatusCode, VmmAction, LOAD_DEPRECATION_MESSAGE, MISSING_FIELD, TOO_MANY_FIELDS,
    TRACKING_SESSION_ID_MAX_LEN,
};
use vmm::vmm_config::{
    CreateSnapshotParams, LoadSnapshotConfig, LoadSnapshotParams, MemBackendConfig,
    MemBackendType, NetworkOverride, SnapshotType, Vm, VmState,
};

type Parsed<T> = Result<T, String>;

/// An object whose fields are all in `known`.
fn object(value: &Value, known: &[&str]) -> Parsed<serde_json::Map<String, Value>> {
    let map = value.as_object().ok_or("invalid type")?.clone();
    for key in map.keys() {
        if !known.contains(&key.as_str()) {
            return Err(format!("unknown field `{key}`"));
        }
    }
    Ok(map)
}

fn text(map: &serde_json::Map<String, Value>, field: &str) -> Parsed<Option<String>> {
    match map.get(field) {
        None | Some(Value::Null) => Ok(None),
        Some(Value::String(s)) => Ok(Some(s.clone())),
        Some(_) => Err("invalid type".to_string()),
    }
}

fn required(map: &serde_json::Map<String, Value>, field: &str) -> Parsed<String> {
    text(map, field)?.ok_or(format!("missing field `{field}`"))
}

fn flag(map: &serde_json::Map<String, Value>, field: &str) -> Parsed<Option<bool>> {
    match map.get(field) {
        None | Some(Value::Null) => Ok(None),
        Some(Value::Bool(b)) => Ok(Some(*b)),
        Some(_) => Err("invalid type".to_string()),
    }
}

fn read(body: &str) -> Parsed<Value> {
    serde_json::from_str::<Value>(body).map_err(|e| e.to_string())
}

fn read_create(body: &str) -> Parsed<CreateSnapshotParams> {
    let map = object(
        &read(body)?,
        &[
            "snapshot_type",
            "snapshot_path",
            "mem_file_path",
            "block_delta_dir",
            "flatten",
            "async_snapshot",
            "expected_session_id",
            "expected_generation",
        ],
    )?;
    let snapshot_type = match text(&map, "snapshot_type")?.as_deref() {
        None => SnapshotType::default(),
        Some("Diff") => SnapshotType::Diff,
        Some("Full") => SnapshotType::Full,
        Some(other) => return Err(format!("unknown variant `{other}`")),
    };
    Ok(CreateSnapshotParams {
        snapshot_type,
        snapshot_path: required(&map, "snapshot_path")?,
        mem_file_path: required(&map, "mem_file_path")?,
        block_delta_dir: text(&map, "block_delta_dir")?,
        flatten: flag(&map, "flatten")?.unwrap_or(false),
        async_snapshot: flag(&map, "async_snapshot")?.unwrap_or(false),
        expected_session_id: text(&map, "expected_session_id")?,
        expected_generation: map.get("expected_generation").and_then(Value::as_u64),
    })
}

fn read_backend(value: &Value) -> Parsed<MemBackendConfig> {
    let map = object(
        value,
        &[
            "backend_path",
            "backend_type",
            "base_path",
            "lower_overlay_paths",
            "abort_on_handler_death",
            "access_log_path",
            "record_to",
        ],
    )?;
    let backend_type = match required(&map, "backend_type")?.as_str() {
        "File" => MemBackendType::File,
        "Uffd" => MemBackendType::Uffd,
        "UffdInternal" => MemBackendType::UffdInternal,
        other => return Err(format!("unknown variant `{other}`")),
    };
    Ok(MemBackendConfig {
        backend_path: required(&map, "backend_path")?,
        backend_type,
        base_path: text(&map, "base_path")?,
        lower_overlay_paths: vec![],
        abort_on_handler_death: flag(&map, "abort_on_handler_death")?.unwrap_or(false),
        access_log_path: text(&map, "access_log_path")?,
        record_to: text(&map, "record_to")?,
    })
}

fn read_load(body: &str) -> Parsed<LoadSnapshotConfig> {
    let map = object(
        &read(body)?,
        &[
            "snapshot_path",
            "mem_file_path",
            "mem_backend",
            "enable_diff_snapshots",
            "track_dirty_pages",
            "resume_vm",
            "network_overrides",
            "block_delta_dir",
            "shared_mem",
            "clock_realtime",
            "tracking_session_id",
        ],
    )?;
    let mem_backend = match map.get("mem_backend") {
        None | Some(Value::Null) => None,
        Some(value) => Some(read_backend(value)?),
    };
    let mut network_overrides = vec![];
    if let Some(list) = map.get("network_overrides").and_then(Value::as_array) {
        for value in list {
            let entry = object(value, &["iface_id", "host_dev_name"])?;
            network_overrides.push(NetworkOverride {
                iface_id: required(&entry, "iface_id")?,
                host_dev_name: required(&entry, "host_dev_name")?,
            });
        }
    }
    Ok(LoadSnapshotConfig {
        snapshot_path: required(&map, "snapshot_path")?,
        mem_file_path: text(&map, "mem_file_path")?,
        mem_backend,
        enable_diff_snapshots: flag(&map, "enable_diff_snapshots")?.unwrap_or(false),
        track_dirty_pages: flag(&map, "track_dirty_pages")?.unwrap_or(false),
        resume_vm: flag(&map, "resume_vm")?.unwrap_or(false),
        network_overrides,
        block_delta_dir: text(&map, "block_delta_dir")?,
        shared_mem: flag(&map, "shared_mem")?.unwrap_or(false),
        clock_realtime: flag(&map, "clock_realtime")?,
        tracking_session_id: text(&map, "tracking_session_id")?,
    })
}

fn read_vm(body: &str) -> Parsed<Vm> {
    let map = object(&read(body)?, &["state"])?;
    match required(&map, "state")?.as_str() {
        "Paused" => Ok(Vm { state: VmState::Paused }),
        "Resumed" => Ok(Vm { state: VmState::Resumed }),
        other => Err(format!("unknown variant `{other}`")),
    }
}

fn body(text: &str) -> Body {
    Body { create: read_create(text), load: read_load(text) }
}

fn new_sync(action: VmmAction) -> ParsedRequest {
    ParsedRequest { action, deprecation_message: None }
}

#[test]
fn test_parse_put_snapshot_clock_realtime_tristate() {
    // Omitted, `false` and `true` are three distinct requests: omission restores the
    // snapshot's own clock flags, which is what callers got before the field existed.
    fn parse(extra: &str) -> Option<bool> {
        let text = format!(
            r#"{{
                "snapshot_path": "foo",
                "mem_backend": {{
                    "backend_path": "bar",
                    "backend_type": "File"
                }}{extra}
            }}"#
        );
        let parsed = parse_put_snapshot(body(&text), Some("load")).unwrap();
        match parsed.action {
            VmmAction::LoadSnapshot(cfg) => cfg.clock_realtime,
            _ => panic!("expected LoadSnapshot"),
        }
    }

    assert_eq!(parse(""), None);
    assert_eq!(parse(r#", "clock_realtime": false"#), Some(false));
    assert_eq!(parse(r#", "clock_realtime": true"#), Some(true));
}

#[test]
fn test_parse_put_snapshot_session_fields() {
    // Both endpoints accept a well-formed token and reject the same
    // malformed shapes.
    fn load(extra: &str) -> Result<Option<String>, RequestError> {
        let text = format!(
            r#"{{
                "snapshot_path": "foo",
                "mem_backend": {{"backend_path": "bar", "backend_type": "File"}},
                "track_dirty_pages": true{extra}
            }}"#
        );
        parse_put_snapshot(body(&text), Some("load")).map(|parsed| match parsed.action {
            VmmAction::LoadSnapshot(cfg) => cfg.tracking_session_id,
            _ => panic!("expected LoadSnapshot"),
        })
    }
    let hex = "0123456789abcdef0123456789abcdef";
    assert_eq!(
        load(&format!(r#", "tracking_session_id": "{hex}""#)).unwrap(),
        Some(hex.to_string())
    );
    assert_eq!(load("").unwrap(), None);
    load(r#", "tracking_session_id": """#).unwrap_err();
    load(r#", "tracking_session_id": "has space""#).unwrap_err();
    let max = "a".repeat(TRACKING_SESSION_ID_MAX_LEN);
    assert!(load(&format!(r#", "tracking_session_id": "{max}""#)).is_ok());
    load(&format!(r#", "tracking_session_id": "{max}a""#)).unwrap_err();

    fn create(extra: &str) -> Result<(Option<String>, Option<u64>), RequestError> {
        let text = format!(
            r#"{{"snapshot_path": "foo", "mem_file_path": "bar", "snapshot_type": "Diff"{extra}}}"#
        );
        parse_put_snapshot(body(&text), Some("create")).map(|parsed| match parsed.action {
            VmmAction::CreateSnapshot(cfg) => (cfg.expected_session_id, cfg.expected_generation),
            _ => panic!("expected CreateSnapshot"),
        })
    }
    assert_eq!(
        create(&format!(
            r#", "expected_session_id": "{hex}", "expected_generation": 3"#
        ))
        .unwrap(),
        (Some(hex.to_string()), Some(3))
    );
    assert_eq!(create("").unwrap(), (None, None));
    create(r#", "expected_session_id": """#).unwrap_err();
    create(r#", "expected_session_id": "bad/slash""#).unwrap_err();
}

fn backend(backend_type: MemBackendType) -> MemBackendConfig {
    MemBackendConfig {
        base_path: None,
        backend_path: "bar".to_string(),
        backend_type,
        lower_overlay_paths: vec![],
        abort_on_handler_death: false,
        access_log_path: None,
        record_to: None,
    }
}

fn load_params(backend_type: MemBackendType) -> LoadSnapshotParams {
    LoadSnapshotParams {
        snapshot_path: "foo".to_string(),
        mem_backend: backend(backend_type),
        track_dirty_pages: false,
        resume_vm: false,
        network_overrides: vec![],
        block_delta_dir: None,
        shared_mem: false,
        clock_realtime: None,
        tracking_session_id: None,
    }
}

#[test]
fn test_parse_put_snapshot() {
    let text = r#"{
        "snapshot_type": "Diff",
        "snapshot_path": "foo",
        "mem_file_path": "bar"
    }"#;
    let expected_config = |snapshot_type| CreateSnapshotParams {
        snapshot_type,
        snapshot_path: "foo".to_string(),
        mem_file_path: "bar".to_string(),
        block_delta_dir: None,
        flatten: false,
        async_snapshot: false,
        expected_session_id: None,
        expected_generation: None,
    };
    assert_eq!(
        parse_put_snapshot(body(text), Some("create")).unwrap().action,
        VmmAction::CreateSnapshot(expected_config(SnapshotType::Diff))
    );

    let text = r#"{
        "snapshot_path": "foo",
        "mem_file_path": "bar"
    }"#;
    assert_eq!(
        parse_put_snapshot(body(text), Some("create")).unwrap().action,
        VmmAction::CreateSnapshot(expected_config(SnapshotType::Full))
    );

    let invalid_body = r#"{
        "invalid_field": "foo",
        "mem_file_path": "bar"
    }"#;
    parse_put_snapshot(body(invalid_body), Some("create")).unwrap_err();

    let text = r#"{
        "snapshot_path": "foo",
        "mem_backend": {
            "backend_path": "bar",
            "backend_type": "File"
        }
    }"#;
    let parsed_request = parse_put_snapshot(body(text), Some("load")).unwrap();
    assert!(parsed_request.deprecation_message.is_none());
    assert_eq!(
        parsed_request.action,
        VmmAction::LoadSnapshot(load_params(MemBackendType::File))
    );

    let text = r#"{
        "snapshot_path": "foo",
        "mem_backend": {
            "backend_path": "bar",
            "backend_type": "File"
        },
        "track_dirty_pages": true
    }"#;
    let mut expected_config = load_params(MemBackendType::File);
    expected_config.track_dirty_pages = true;
    let parsed_request = parse_put_snapshot(body(text), Some("load")).unwrap();
    assert!(parsed_request.deprecation_message.is_none());
    assert_eq!(parsed_request.action, VmmAction::LoadSnapshot(expected_config));

    let text = r#"{
        "snapshot_path": "foo",
        "mem_backend": {
            "backend_path": "bar",
            "backend_type": "Uffd"
        },
        "resume_vm": true
    }"#;
    let mut expected_config = load_params(MemBackendType::Uffd);
    expected_config.resume_vm = true;
    let parsed_request = parse_put_snapshot(body(text), Some("load")).unwrap();
    assert!(parsed_request.deprecation_message.is_none());
    assert_eq!(parsed_request.action, VmmAction::LoadSnapshot(expected_config));

    let text = r#"{
        "snapshot_path": "foo",
        "mem_backend": {
            "backend_path": "bar",
            "backend_type": "Uffd"
        },
        "resume_vm": true,
        "network_overrides": [
            {
                "iface_id": "eth0",
                "host_dev_name": "vmtap2"
            }
        ]
    }"#;
    let mut expected_config = load_params(MemBackendType::Uffd);
    expected_config.resume_vm = true;
    expected_config.network_overrides = vec![NetworkOverride {
        iface_id: String::from("eth0"),
        host_dev_name: String::from("vmtap2"),
    }];
    let parsed_request = parse_put_snapshot(body(text), Some("load")).unwrap();
    assert!(parsed_request.deprecation_message.is_none());
    assert_eq!(parsed_request.action, VmmAction::LoadSnapshot(expected_config));

    let text = r#"{
        "snapshot_path": "foo",
        "mem_file_path": "bar",
        "resume_vm": true
    }"#;
    let mut expected_config = load_params(MemBackendType::File);
    expected_config.resume_vm = true;
    let parsed_request = parse_put_snapshot(body(text), Some("load")).unwrap();
    assert_eq!(
        parsed_request.deprecation_message,
        Some(LOAD_DEPRECATION_MESSAGE.to_string())
    );
    assert_eq!(parsed_request.action, VmmAction::LoadSnapshot(expected_config));

    // A reason why a body cannot be read is passed on.
    let unreadable = |reason: &str| {
        let body = Body { create: Err(reason.to_string()), load: Err(reason.to_string()) };
        parse_put_snapshot(body, Some("load")).unwrap_err().json_message().unwrap()
    };
    assert_eq!(
        unreadable("missing field `backend_type` at line 5 column 13"),
        "An error occurred when deserializing the json body of a request: missing field \
         `backend_type` at line 5 column 13."
    );
    assert_eq!(
        unreadable("missing field `snapshot_path` at line 6 column 9"),
        "An error occurred when deserializing the json body of a request: missing field \
         `snapshot_path` at line 6 column 9."
    );
    let text = r#"{
        "snapshot_path": "foo",
        "mem_backend": {
            "backend_path": "bar"
        }
    }"#;
    parse_put_snapshot(body(text), Some("load")).unwrap_err();

    let text = r#"{
            "snapshot_path": "foo",
            "mem_backend": {
                "backend_type": "File",
            }
        }"#;
    assert_eq!(
        parse_put_snapshot(body(text), Some("load")).unwrap_err().json_message().unwrap(),
        "An error occurred when deserializing the json body of a request: trailing comma at \
         line 5 column 13."
    );

    let text = r#"{
        "snapshot_path": "foo",
        "mem_file_path": "bar",
        "mem_backend": {
            "backend_path": "bar",
            "backend_type": "Uffd"
        }
    }"#;
    assert_eq!(
        parse_put_snapshot(body(text), Some("load")).unwrap_err(),
        RequestError::SerdeJson(TOO_MANY_FIELDS.to_string())
    );

    let text = r#"{
        "snapshot_path": "foo"
    }"#;
    assert_eq!(
        parse_put_snapshot(body(text), Some("load")).unwrap_err(),
        RequestError::SerdeJson(MISSING_FIELD.to_string())
    );

    let text = r#"{
        "mem_backend": {
            "backend_path": "bar",
            "backend_type": "Uffd"
        }
    }"#;
    parse_put_snapshot(body(text), Some("load")).unwrap_err();
    parse_put_snapshot(body(text), Some("invalid")).unwrap_err();
    parse_put_snapshot(body(text), None).unwrap_err();
}

#[test]
fn test_parse_patch_vm_state() {
    let text = r#"{
        "state": "Paused"
    }"#;
    assert!(parse_patch_vm_state(read_vm(text))
        .unwrap()
        .eq(&new_sync(VmmAction::Pause)));

    let text = r#"{
        "state": "Resumed"
    }"#;
    assert!(parse_patch_vm_state(read_vm(text))
        .unwrap()
        .eq(&new_sync(VmmAction::Resume)));

    let invalid_body = r#"{
        "invalid": "Paused"
    }"#;
    parse_patch_vm_state(read_vm(invalid_body)).unwrap_err();
}

#[test]
fn unknown_operations_are_refused() {
    let empty = || Body { create: Err(String::new()), load: Err(String::new()) };
    assert_eq!(
        parse_put_snapshot(empty(), Some("invalid")),
        Err(RequestError::InvalidPathMethod("/snapshot/invalid".to_string(), Method::Put))
    );
    assert_eq!(
        parse_put_snapshot(empty(), None),
        Err(RequestError::Generic(
            StatusCode::BadRequest,
            "Missing snapshot operation type.".to_string()
        ))
    );
    assert_eq!(
        parse_put_snapshot(empty(), None).unwrap_err().json_message(),
        None
    );
}

#[test]
fn session_ids_are_bounded_tokens() {
    let refused = || {
        Err(RequestError::Generic(
            StatusCode::BadRequest,
            "id must be 1..=128 characters of [A-Za-z0-9_-], unique per snapshot load".to_string(),
        ))
    };
    for good in ["a", "Z", "0", "-", "_", "aZ09-_"] {
        assert_eq!(validate_session_id("id", good), Ok(()));
    }
    for bad in ["", " ", "a/", "\u{e9}", "a.b", "@", "[", "`", "{", ":"] {
        assert_eq!(validate_session_id("id", bad), refused(), "{bad:?}");
    }
    assert_eq!(validate_session_id("id", &"x".repeat(128)), Ok(()));
    assert_eq!(validate_session_id("id", &"x".repeat(129)), refused());
}

#[test]
fn the_old_name_of_dirty_tracking_is_deprecated() {
    let text = r#"{
        "snapshot_path": "foo",
        "mem_backend": {"backend_path": "bar", "backend_type": "File"},
        "enable_diff_snapshots": true
    }"#;
    let parsed = parse_put_snapshot(body(text), Some("load")).unwrap();
    assert_eq!(parsed.deprecation_message, Some(LOAD_DEPRECATION_MESSAGE.to_string()));
    match parsed.action {
        VmmAction::LoadSnapshot(params) => assert!(params.track_dirty_pages),
        other => panic!("{other:?}"),
    }
}
