//! The snapshot requests of the API: `PUT /snapshot/create`, `PUT /snapshot/load` and
//! `PATCH /vm`.
//!
//! A request comes with what its body reads as; what is decided here is what the
//! request asks for, or why it is refused.
use vstd::prelude::*;

use crate::text::{chars_of, same_text};
use crate::vmm_config::{
    CreateSnapshotParams, LoadSnapshotConfig, LoadSnapshotParams, MemBackendConfig, MemBackendType,
    Vm, VmState,
};

verus! {

/// The deprecation message of `mem_file_path` and `enable_diff_snapshots`.
pub const LOAD_DEPRECATION_MESSAGE: &'static str =
    "PUT /snapshot/load: mem_file_path and enable_diff_snapshots fields are deprecated.";

/// Neither `mem_backend` nor `mem_file_path` was given.
pub const MISSING_FIELD: &'static str =
    "missing field: either `mem_backend` or `mem_file_path` is required";

/// Both `mem_backend` and `mem_file_path` were given.
pub const TOO_MANY_FIELDS: &'static str =
    "too many fields: either `mem_backend` or `mem_file_path` exclusively is required";

/// Upper bound on the length of a session id: room for a UUID or a hex nonce.
pub const TRACKING_SESSION_ID_MAX_LEN: usize = 128;

/// What follows the name of a field whose session id is malformed.
pub const SESSION_ID_RULE: &'static str =
    " must be 1..=128 characters of [A-Za-z0-9_-], unique per snapshot load";

/// What precedes the reason why a body could not be read.
pub const JSON_ERROR_PREFIX: &'static str =
    "An error occurred when deserializing the json body of a request: ";

/// The status of a response.
#[derive(Debug, Clone, Copy, PartialEq, Eq, Structural)]
pub enum StatusCode {
    /// The request is malformed.
    BadRequest,
}

/// The method of a request.
#[derive(Debug, Clone, Copy, PartialEq, Eq, Structural)]
pub enum Method {
    Get,
    Put,
    Patch,
    Delete,
}

/// Why a request is refused.
#[derive(Debug, PartialEq, Eq)]
pub enum RequestError {
    /// With this status and message.
    Generic(StatusCode, String),
    /// There is no such path for the method.
    InvalidPathMethod(String, Method),
    /// The body does not read as what it should, for this reason.
    SerdeJson(String),
}

/// What a request asks the VMM to do.
#[derive(Debug, PartialEq, Eq)]
pub enum VmmAction {
    /// Create a snapshot.
    CreateSnapshot(CreateSnapshotParams),
    /// Load a snapshot.
    LoadSnapshot(LoadSnapshotParams),
    /// Pause the microVM.
    Pause,
    /// Resume the microVM.
    Resume,
}

/// A request that was understood.
#[derive(Debug, PartialEq, Eq)]
pub struct ParsedRequest {
    /// What it asks for.
    pub action: VmmAction,
    /// What to tell the caller about deprecated fields.
    pub deprecation_message: Option<String>,
}

/// What the body of a snapshot request reads as: under either schema a configuration,
/// or the reason why it is none.
#[derive(Debug)]
pub struct Body {
    /// Under the schema of `PUT /snapshot/create`.
    pub create: Result<CreateSnapshotParams, String>,
    /// Under the schema of `PUT /snapshot/load`.
    pub load: Result<LoadSnapshotConfig, String>,
}

impl RequestError {
    /// The text of a body that could not be read; other errors carry theirs.
    pub fn json_message(&self) -> (r: Option<String>)
        ensures
            match *self {
                RequestError::SerdeJson(reason) => r is Some && r->0@ == JSON_ERROR_PREFIX@
                    + reason@ + "."@,
                _ => r is None,
            },
    {
        match self {
            RequestError::SerdeJson(reason) => {
                let mut text = JSON_ERROR_PREFIX.to_owned();
                text.append(reason.as_str());
                text.append(".");
                Some(text)
            },
            _ => None,
        }
    }
}

/// A character that a session id may have.
pub open spec fn is_token_char(c: char) -> bool {
    ||| 'A' <= c <= 'Z'
    ||| 'a' <= c <= 'z'
    ||| '0' <= c <= '9'
    ||| c == '-'
    ||| c == '_'
}

/// A session id is a non-empty, bounded token of `[A-Za-z0-9_-]`.
pub open spec fn valid_session_id(id: Seq<char>) -> bool {
    &&& 1 <= id.len() <= TRACKING_SESSION_ID_MAX_LEN
    &&& forall|i: int| 0 <= i < id.len() ==> is_token_char(#[trigger] id[i])
}

/// The error of the field `field`, whose session id is malformed.
pub open spec fn session_id_refused(e: RequestError, field: Seq<char>) -> bool {
    match e {
        RequestError::Generic(status, message) => status == StatusCode::BadRequest && message@
            == field + SESSION_ID_RULE@,
        _ => false,
    }
}

/// Refuse a session id that is not a bounded token. The same rule on both endpoints
/// makes a malformed expected token a bad request rather than a silent mismatch.
pub fn validate_session_id(field: &str, id: &str) -> (r: Result<(), RequestError>)
    ensures
        match r {
            Ok(_) => valid_session_id(id@),
            Err(e) => !valid_session_id(id@) && session_id_refused(e, field@),
        },
{
    let chars = chars_of(id);
    let mut well_formed = chars.len() > 0 && chars.len() <= TRACKING_SESSION_ID_MAX_LEN;
    let mut i: usize = 0;
    while well_formed && i < chars.len()
        invariant
            i <= chars@.len(),
            chars@ == id@,
            well_formed ==> 1 <= chars@.len() <= TRACKING_SESSION_ID_MAX_LEN,
            well_formed ==> forall|k: int| 0 <= k < i ==> is_token_char(#[trigger] id@[k]),
            !well_formed ==> !valid_session_id(id@),
        decreases
            chars@.len() - i + if well_formed {
                1int
            } else {
                0int
            },
    {
        let c = chars[i];
        assert(c == id@[i as int]);
        if ('A' <= c && c <= 'Z') || ('a' <= c && c <= 'z') || ('0' <= c && c <= '9') || c == '-'
            || c == '_' {
            i += 1;
        } else {
            well_formed = false;
        }
    }
    if well_formed {
        return Ok(());
    }
    let mut message = field.to_owned();
    message.append(SESSION_ID_RULE);
    Err(RequestError::Generic(StatusCode::BadRequest, message))
}

/// What `PUT /snapshot/create` with `body` asks for.
pub open spec fn create_request(body: Result<CreateSnapshotParams, String>, r: Result<
    ParsedRequest,
    RequestError,
>) -> bool {
    match body {
        Err(reason) => r == Err::<ParsedRequest, _>(RequestError::SerdeJson(reason)),
        Ok(params) => if params.expected_session_id is Some && !valid_session_id(
            params.expected_session_id->0@,
        ) {
            r is Err && session_id_refused(r->Err_0, "expected_session_id"@)
        } else {
            r == Ok::<_, RequestError>(
                ParsedRequest {
                    action: VmmAction::CreateSnapshot(params),
                    deprecation_message: None,
                },
            )
        },
    }
}

/// What `PUT /snapshot/create` with `body` asks for.
pub fn parse_put_snapshot_create(body: Result<CreateSnapshotParams, String>) -> (r: Result<
    ParsedRequest,
    RequestError,
>)
    ensures
        create_request(body, r),
{
    let params = match body {
        Ok(params) => params,
        Err(reason) => {
            return Err(RequestError::SerdeJson(reason));
        },
    };
    if let Some(id) = &params.expected_session_id {
        validate_session_id("expected_session_id", id.as_str())?;
    }
    Ok(ParsedRequest { action: VmmAction::CreateSnapshot(params), deprecation_message: None })
}

/// `backend` is what the configuration says memory comes from: its own backend, or the
/// file `mem_file_path` with nothing else set.
pub open spec fn backend_of(config: LoadSnapshotConfig, backend: MemBackendConfig) -> bool {
    match config.mem_backend {
        Some(given) => backend == given,
        None => {
            &&& backend.backend_path@ == config.mem_file_path->0@
            &&& backend.backend_type == MemBackendType::File
            &&& backend.base_path is None
            &&& backend.lower_overlay_paths@ == Seq::<String>::empty()
            &&& !backend.abort_on_handler_death
            &&& backend.access_log_path is None
            &&& backend.record_to is None
        },
    }
}

/// The configuration uses a deprecated field.
pub open spec fn is_deprecated(config: LoadSnapshotConfig) -> bool {
    config.mem_file_path is Some || config.enable_diff_snapshots
}

/// `params` are what `config` asks for.
pub open spec fn params_of(config: LoadSnapshotConfig, params: LoadSnapshotParams) -> bool {
    &&& params.snapshot_path == config.snapshot_path
    &&& backend_of(config, params.mem_backend)
    &&& params.track_dirty_pages == (config.enable_diff_snapshots || config.track_dirty_pages)
    &&& params.resume_vm == config.resume_vm
    &&& params.network_overrides == config.network_overrides
    &&& params.block_delta_dir == config.block_delta_dir
    &&& params.shared_mem == config.shared_mem
    &&& params.clock_realtime == config.clock_realtime
    &&& params.tracking_session_id == config.tracking_session_id
}

/// `e` says that the body could not be read for the reason `reason`.
pub open spec fn json_refused(e: RequestError, reason: Seq<char>) -> bool {
    match e {
        RequestError::SerdeJson(text) => text@ == reason,
        _ => false,
    }
}

/// What `PUT /snapshot/load` with `body` asks for.
pub open spec fn load_request(body: Result<LoadSnapshotConfig, String>, r: Result<
    ParsedRequest,
    RequestError,
>) -> bool {
    match body {
        Err(reason) => r == Err::<ParsedRequest, _>(RequestError::SerdeJson(reason)),
        Ok(config) => if config.tracking_session_id is Some && !valid_session_id(
            config.tracking_session_id->0@,
        ) {
            r is Err && session_id_refused(r->Err_0, "tracking_session_id"@)
        } else if config.mem_backend is Some && config.mem_file_path is Some {
            r is Err && json_refused(r->Err_0, TOO_MANY_FIELDS@)
        } else if config.mem_backend is None && config.mem_file_path is None {
            r is Err && json_refused(r->Err_0, MISSING_FIELD@)
        } else {
            &&& r is Ok
            &&& r->Ok_0.action is LoadSnapshot
            &&& params_of(config, r->Ok_0.action->LoadSnapshot_0)
            &&& if is_deprecated(config) {
                r->Ok_0.deprecation_message is Some && r->Ok_0.deprecation_message->0@
                    == LOAD_DEPRECATION_MESSAGE@
            } else {
                r->Ok_0.deprecation_message is None
            }
        },
    }
}

/// What `PUT /snapshot/load` with `body` asks for. Exactly one of `mem_backend` and
/// `mem_file_path` must be given.
pub fn parse_put_snapshot_load(body: Result<LoadSnapshotConfig, String>) -> (r: Result<
    ParsedRequest,
    RequestError,
>)
    ensures
        load_request(body, r),
{
    let config = match body {
        Ok(config) => config,
        Err(reason) => {
            return Err(RequestError::SerdeJson(reason));
        },
    };
    if let Some(id) = &config.tracking_session_id {
        validate_session_id("tracking_session_id", id.as_str())?;
    }
    if config.mem_backend.is_some() && config.mem_file_path.is_some() {
        return Err(RequestError::SerdeJson(TOO_MANY_FIELDS.to_owned()));
    }
    if config.mem_backend.is_none() && config.mem_file_path.is_none() {
        return Err(RequestError::SerdeJson(MISSING_FIELD.to_owned()));
    }
    let deprecation_message = if config.mem_file_path.is_some() || config.enable_diff_snapshots {
        Some(LOAD_DEPRECATION_MESSAGE.to_owned())
    } else {
        None
    };
    let mem_backend = match config.mem_backend {
        Some(backend) => backend,
        None => MemBackendConfig {
            backend_path: config.mem_file_path.unwrap(),
            backend_type: MemBackendType::File,
            base_path: None,
            lower_overlay_paths: Vec::new(),
            abort_on_handler_death: false,
            access_log_path: None,
            record_to: None,
        },
    };
    let params = LoadSnapshotParams {
        snapshot_path: config.snapshot_path,
        mem_backend,
        track_dirty_pages: config.enable_diff_snapshots || config.track_dirty_pages,
        resume_vm: config.resume_vm,
        network_overrides: config.network_overrides,
        block_delta_dir: config.block_delta_dir,
        shared_mem: config.shared_mem,
        clock_realtime: config.clock_realtime,
        tracking_session_id: config.tracking_session_id,
    };
    Ok(ParsedRequest { action: VmmAction::LoadSnapshot(params), deprecation_message })
}

/// What a `PUT` under `/snapshot` asks for, whose path ends in `request_type`.
pub fn parse_put_snapshot(body: Body, request_type: Option<&str>) -> (r: Result<
    ParsedRequest,
    RequestError,
>)
    ensures
        match request_type {
            Some(request_type) => if request_type@ == "create"@ {
                create_request(body.create, r)
            } else if request_type@ == "load"@ {
                load_request(body.load, r)
            } else {
                &&& r is Err
                &&& r->Err_0 is InvalidPathMethod
                &&& r->Err_0->InvalidPathMethod_0@ == "/snapshot/"@ + request_type@
                &&& r->Err_0->InvalidPathMethod_1 == Method::Put
            },
            None => {
                &&& r is Err
                &&& r->Err_0 is Generic
                &&& r->Err_0->Generic_0 == StatusCode::BadRequest
                &&& r->Err_0->Generic_1@ == "Missing snapshot operation type."@
            },
        },
{
    match request_type {
        Some(request_type) => if same_text(request_type, "create") {
            parse_put_snapshot_create(body.create)
        } else if same_text(request_type, "load") {
            parse_put_snapshot_load(body.load)
        } else {
            let mut path = "/snapshot/".to_owned();
            path.append(request_type);
            Err(RequestError::InvalidPathMethod(path, Method::Put))
        },
        None => Err(
            RequestError::Generic(
                StatusCode::BadRequest,
                "Missing snapshot operation type.".to_owned(),
            ),
        ),
    }
}

/// What `PATCH /vm` asks for.
pub fn parse_patch_vm_state(body: Result<Vm, String>) -> (r: Result<ParsedRequest, RequestError>)
    ensures
        r == match body {
            Err(reason) => Err(RequestError::SerdeJson(reason)),
            Ok(vm) => Ok(
                ParsedRequest {
                    action: match vm.state {
                        VmState::Paused => VmmAction::Pause,
                        VmState::Resumed => VmmAction::Resume,
                    },
                    deprecation_message: None,
                },
            ),
        },
{
    match body {
        Ok(vm) => {
            let action = match vm.state {
                VmState::Paused => VmmAction::Pause,
                VmState::Resumed => VmmAction::Resume,
            };
            Ok(ParsedRequest { action, deprecation_message: None })
        },
        Err(reason) => Err(RequestError::SerdeJson(reason)),
    }
}

/// Both endpoints hold a session id to the same rule: a load that is otherwise in order
/// is refused for its id when and only when a create is refused for the same one.
pub proof fn law_session_rule_is_shared(
    create: CreateSnapshotParams,
    created: Result<ParsedRequest, RequestError>,
    load: LoadSnapshotConfig,
    loaded: Result<ParsedRequest, RequestError>,
)
    requires
        create_request(Ok(create), created),
        load_request(Ok(load), loaded),
        create.expected_session_id is Some,
        load.tracking_session_id is Some,
        create.expected_session_id->0@ == load.tracking_session_id->0@,
        load.mem_backend is Some != load.mem_file_path is Some,
    ensures
        created is Ok <==> loaded is Ok,
{
}

/// A load is accepted only with exactly one source of guest memory, and `clock_realtime`
/// comes through as it was given or left out.
pub proof fn law_load_has_one_source(
    config: LoadSnapshotConfig,
    r: Result<ParsedRequest, RequestError>,
)
    requires
        load_request(Ok(config), r),
        r is Ok,
    ensures
        config.mem_backend is Some != config.mem_file_path is Some,
        r->Ok_0.action is LoadSnapshot,
        r->Ok_0.action->LoadSnapshot_0.clock_realtime == config.clock_realtime,
        r->Ok_0.deprecation_message is Some <==> is_deprecated(config),
{
}

/// A session id has 1 to 128 characters, each of them a Latin letter, a digit, a hyphen or an
/// underscore.
pub proof fn law_session_ids(id: Seq<char>)
    ensures
        valid_session_id(id) <==> 1 <= id.len() <= 128 && forall|i: int|
            0 <= i < id.len() ==> {
                let u = (#[trigger] id[i]) as int;
                65 <= u <= 90 || 97 <= u <= 122 || 48 <= u <= 57 || u == 45 || u == 95
            },
{
    if 1 <= id.len() <= 128 && forall|i: int|
        0 <= i < id.len() ==> {
            let u = (#[trigger] id[i]) as int;
            65 <= u <= 90 || 97 <= u <= 122 || 48 <= u <= 57 || u == 45 || u == 95
        } {
        assert forall|i: int| 0 <= i < id.len() implies is_token_char(#[trigger] id[i]) by {
            let u = id[i] as int;
        }
    }
    if valid_session_id(id) {
        assert forall|i: int| 0 <= i < id.len() implies ({
            let u = (#[trigger] id[i]) as int;
            65 <= u <= 90 || 97 <= u <= 122 || 48 <= u <= 57 || u == 45 || u == 95
        }) by {
            assert(is_token_char(id[i]));
        }
    }
}

/// A create request that can be read is accepted exactly when it expects no session or one
/// whose id is well-formed, and then asks for a snapshot with just what it was given. It is
/// refused with the name of the field and the rule.
pub proof fn law_create_is_judged(
    params: CreateSnapshotParams,
    r: Result<ParsedRequest, RequestError>,
)
    requires
        create_request(Ok(params), r),
    ensures
        r is Ok <==> (params.expected_session_id matches Some(id) ==> valid_session_id(id@)),
        r matches Ok(request) ==> request.action == VmmAction::CreateSnapshot(params)
            && request.deprecation_message is None,
        r matches Err(e) ==> match e {
            RequestError::Generic(status, message) => status == StatusCode::BadRequest && message@
                == "expected_session_id"@
                + " must be 1..=128 characters of [A-Za-z0-9_-], unique per snapshot load"@,
            _ => false,
        },
{
}

/// A body that cannot be read is refused for its own reason on both endpoints.
pub proof fn law_unreadable_body_is_refused(
    reason: String,
    created: Result<ParsedRequest, RequestError>,
    loaded: Result<ParsedRequest, RequestError>,
)
    requires
        create_request(Err(reason), created),
        load_request(Err(reason), loaded),
    ensures
        created == Err::<ParsedRequest, _>(RequestError::SerdeJson(reason)),
        loaded == Err::<ParsedRequest, _>(RequestError::SerdeJson(reason)),
{
}

/// A load request that can be read is accepted exactly when its session id, if it has one, is
/// well-formed and it names exactly one source of guest memory. A malformed id is refused
/// before the sources are looked at.
pub proof fn law_load_is_judged(config: LoadSnapshotConfig, r: Result<ParsedRequest, RequestError>)
    requires
        load_request(Ok(config), r),
    ensures
        ({
            let good_id = config.tracking_session_id matches Some(id) ==> valid_session_id(id@);
            let both = config.mem_backend is Some && config.mem_file_path is Some;
            let neither = config.mem_backend is None && config.mem_file_path is None;
            &&& r is Ok <==> good_id && !both && !neither
            &&& !good_id ==> match r {
                Err(RequestError::Generic(status, message)) => status == StatusCode::BadRequest
                    && message@ == "tracking_session_id"@
                    + " must be 1..=128 characters of [A-Za-z0-9_-], unique per snapshot load"@,
                _ => false,
            }
            &&& good_id && both ==> match r {
                Err(RequestError::SerdeJson(text)) => text@
                    == "too many fields: either `mem_backend` or `mem_file_path` exclusively is required"@,
                _ => false,
            }
            &&& good_id && neither ==> match r {
                Err(RequestError::SerdeJson(text)) => text@
                    == "missing field: either `mem_backend` or `mem_file_path` is required"@,
                _ => false,
            }
        }),
{
}

/// An accepted load asks for just what it was given. Dirty pages are tracked when either name
/// of the field says so; a `mem_file_path` stands for a backend of type `File` with nothing
/// else set; and a caller that uses either deprecated field is told so.
pub proof fn law_load_passes_fields(
    config: LoadSnapshotConfig,
    r: Result<ParsedRequest, RequestError>,
)
    requires
        load_request(Ok(config), r),
        r is Ok,
    ensures
        ({
            let params = r->Ok_0.action->LoadSnapshot_0;
            &&& r->Ok_0.action is LoadSnapshot
            &&& params.snapshot_path == config.snapshot_path
            &&& params.track_dirty_pages <==> config.enable_diff_snapshots
                || config.track_dirty_pages
            &&& params.resume_vm == config.resume_vm
            &&& params.network_overrides == config.network_overrides
            &&& params.block_delta_dir == config.block_delta_dir
            &&& params.shared_mem == config.shared_mem
            &&& params.clock_realtime == config.clock_realtime
            &&& params.tracking_session_id == config.tracking_session_id
            &&& config.mem_backend matches Some(backend) ==> params.mem_backend == backend
            &&& config.mem_file_path matches Some(path) ==> {
                &&& params.mem_backend.backend_path@ == path@
                &&& params.mem_backend.backend_type == MemBackendType::File
                &&& params.mem_backend.base_path is None
                &&& params.mem_backend.lower_overlay_paths@.len() == 0
                &&& !params.mem_backend.abort_on_handler_death
                &&& params.mem_backend.access_log_path is None
                &&& params.mem_backend.record_to is None
            }
            &&& match r->Ok_0.deprecation_message {
                Some(message) => (config.mem_file_path is Some || config.enable_diff_snapshots)
                    && message@
                    == "PUT /snapshot/load: mem_file_path and enable_diff_snapshots fields are deprecated."@,
                None => config.mem_file_path is None && !config.enable_diff_snapshots,
            }
        }),
{
}

/// A microVM is paused or resumed as the body says, and a body that cannot be read is refused
/// for its own reason.
pub proof fn law_patch_sets_state(vm: Vm, reason: String, r: Result<ParsedRequest, RequestError>)
    ensures
        call_ensures(parse_patch_vm_state, (Ok::<Vm, String>(vm),), r) ==> {
            &&& r is Ok
            &&& r->Ok_0.deprecation_message is None
            &&& r->Ok_0.action is Pause <==> vm.state is Paused
            &&& r->Ok_0.action is Resume <==> vm.state is Resumed
        },
        call_ensures(parse_patch_vm_state, (Err::<Vm, String>(reason),), r) ==> r == Err::<
            ParsedRequest,
            _,
        >(RequestError::SerdeJson(reason)),
{
}

/// The text of a body that could not be read says so and ends with the reason and a full stop.
pub proof fn law_json_message(reason: String, r: Option<String>)
    requires
        call_ensures(RequestError::json_message, (&RequestError::SerdeJson(reason),), r),
    ensures
        r is Some,
        r->0@
            == "An error occurred when deserializing the json body of a request: "@ + reason@
            + "."@,
{
}

/// A session id is accepted exactly when it is well-formed.
pub proof fn law_session_id_is_judged(field: &str, id: &str, r: Result<(), RequestError>)
    requires
        call_ensures(validate_session_id, (field, id), r),
    ensures
        r is Ok <==> 1 <= id@.len() <= 128 && forall|i: int|
            0 <= i < id@.len() ==> {
                let u = (#[trigger] id@[i]) as int;
                65 <= u <= 90 || 97 <= u <= 122 || 48 <= u <= 57 || u == 45 || u == 95
            },
{
    law_session_ids(id@);
}

/// A `PUT` goes to the endpoint that its path names, with what the body reads as there, and a
/// path that names none is refused.
pub proof fn law_put_goes_to_endpoint(
    body: Body,
    name: &str,
    r: Result<ParsedRequest, RequestError>,
)
    requires
        call_ensures(parse_put_snapshot, (body, Some(name)), r),
    ensures
        name@ == seq!['c', 'r', 'e', 'a', 't', 'e'] ==> create_request(body.create, r),
        name@ == seq!['l', 'o', 'a', 'd'] ==> load_request(body.load, r),
        name@ != seq!['c', 'r', 'e', 'a', 't', 'e'] && name@ != seq!['l', 'o', 'a', 'd'] ==> match r {
            Err(RequestError::InvalidPathMethod(path, method)) => path@ == "/snapshot/"@ + name@
                && method == Method::Put,
            _ => false,
        },
{
    reveal_strlit("create");
    reveal_strlit("load");
    assert("create"@ =~= seq!['c', 'r', 'e', 'a', 't', 'e']);
    assert("load"@ =~= seq!['l', 'o', 'a', 'd']);
    if name@ == seq!['l', 'o', 'a', 'd'] {
        assert(name@.len() != "create"@.len());
    }
}

} // verus!
