use rust_tunnel::auth::{auth_decision, validate_auth, AuthConfig};
use rust_tunnel::channel::{drain_error, ChannelState, LineOutcome, WorkerChannel};
use rust_tunnel::channel::{
    interpret_auth_response, interpret_event_response, interpret_task_response,
};
use rust_tunnel::dispatch::{handle_discovery, handle_event, handle_task, AppState};
use rust_tunnel::error::TunnelError;
use rust_tunnel::json::{JVal, JsonValue};
use rust_tunnel::models::TunnelConfig;
use rust_tunnel::protocol::{encode_response, WorkerError, WorkerRequest, WorkerResponse};
use rust_tunnel::registry::{EventHandler, TaskHandler, TaskRegistry};

fn obj(members: Vec<(&str, JsonValue)>) -> JsonValue {
    JsonValue::Obj(members.into_iter().map(|(k, v)| (k.to_string(), v)).collect())
}

enum TestTask {
    Add,
    Echo,
    Fail,
}

impl TaskHandler for TestTask {
    // The handler's contract, as the verifier sees it; test handlers claim
    // nothing beyond what `execute` does.
    fn task_post(&self, _input: JVal, _r: Result<JsonValue, TunnelError>) -> bool {
        true
    }

    fn execute(&self, input: &JsonValue) -> Result<JsonValue, TunnelError> {
        match self {
            TestTask::Add => {
                let a = match input.get("a") {
                    Some(JsonValue::Int(x)) => *x,
                    _ => 0,
                };
                let b = match input.get("b") {
                    Some(JsonValue::Int(x)) => *x,
                    _ => 0,
                };
                Ok(JsonValue::Int(a.wrapping_add(b)))
            }
            TestTask::Echo => Ok(input.duplicate()),
            TestTask::Fail => Err(TunnelError::InternalError("handler failed".to_string())),
        }
    }
}

enum TestEvent {
    Note,
    Fail,
}

impl EventHandler for TestEvent {
    fn event_post(&self, _payload: JVal, _r: Result<(), TunnelError>) -> bool {
        true
    }

    fn emit(&self, _payload: &JsonValue) -> Result<(), TunnelError> {
        match self {
            TestEvent::Note => Ok(()),
            TestEvent::Fail => Err(TunnelError::InternalError("emit failed".to_string())),
        }
    }
}

fn registry_with_add() -> TaskRegistry<TestTask, TestEvent> {
    let mut registry: TaskRegistry<TestTask, TestEvent> = TaskRegistry::new();
    registry.register_task("app.tasks.add".to_string(), TestTask::Add);
    registry.register_event("app.events.notify".to_string(), TestEvent::Note);
    registry
}

#[test]
fn test_registry_execute_task() {
    let registry = registry_with_add();
    let input = obj(vec![("a", JsonValue::Int(5)), ("b", JsonValue::Int(3))]);
    assert_eq!(
        registry.execute_task("app.tasks.add", &input),
        Ok(JsonValue::Int(8))
    );
}

#[test]
fn test_registry_not_found() {
    let registry = registry_with_add();
    let r = registry.execute_task("app.tasks.missing", &JsonValue::Null);
    assert!(matches!(r, Err(TunnelError::NotFound)));
    let r = registry.emit_event("app.events.missing", &JsonValue::Null);
    assert!(matches!(r, Err(TunnelError::NotFound)));
}

#[test]
fn test_registry_last_writer_wins() {
    let mut registry = registry_with_add();
    registry.register_task("app.tasks.add".to_string(), TestTask::Echo);
    let input = obj(vec![("a", JsonValue::Int(5))]);
    // The replacing handler echoes its input instead of adding.
    assert_eq!(registry.execute_task("app.tasks.add", &input), Ok(input));
    // The id is listed only once, in first-registration order.
    assert_eq!(registry.get_task_ids(), vec!["app.tasks.add".to_string()]);
}

#[test]
fn test_registry_id_lists() {
    let mut registry: TaskRegistry<TestTask, TestEvent> = TaskRegistry::new();
    registry.register_task("b".to_string(), TestTask::Add);
    registry.register_task("a".to_string(), TestTask::Echo);
    registry.register_event("e".to_string(), TestEvent::Note);
    assert_eq!(registry.get_task_ids(), vec!["b".to_string(), "a".to_string()]);
    assert_eq!(registry.get_event_ids(), vec!["e".to_string()]);
}

#[test]
fn test_registry_emit_event() {
    let mut registry = registry_with_add();
    registry.register_event("app.events.fail".to_string(), TestEvent::Fail);
    assert_eq!(registry.emit_event("app.events.notify", &JsonValue::Null), Ok(()));
    let r = registry.emit_event("app.events.fail", &JsonValue::Null);
    match r {
        Err(TunnelError::InternalError(msg)) => assert_eq!(msg, "emit failed"),
        _ => panic!("expected the handler failure to propagate"),
    }
}

fn token_config() -> AuthConfig {
    AuthConfig { token: "secret".to_string(), header: "x-runner-token".to_string() }
}

#[test]
fn test_validate_auth() {
    let config = token_config();
    let good = vec![("x-runner-token".to_string(), "secret".to_string())];
    assert!(validate_auth(&good, &config).is_ok());
    let wrong = vec![("x-runner-token".to_string(), "nope".to_string())];
    assert!(matches!(validate_auth(&wrong, &config), Err(TunnelError::Unauthorized)));
    let missing: Vec<(String, String)> = vec![("content-type".to_string(), "application/json".to_string())];
    assert!(matches!(validate_auth(&missing, &config), Err(TunnelError::Unauthorized)));
}

#[test]
fn test_auth_options_bypass() {
    let config = token_config();
    let headers: Vec<(String, String)> = vec![];
    assert!(auth_decision("OPTIONS", &headers, &config).is_ok());
    assert!(auth_decision("POST", &headers, &config).is_err());
}

fn gateway_state() -> AppState<TestTask, TestEvent> {
    let mut config = TunnelConfig::default();
    config.allow_list_enabled = true;
    config.allowed_tasks = vec!["app.tasks.add".to_string()];
    config.allowed_events = vec!["app.events.notify".to_string()];
    AppState::new(config, registry_with_add())
}

#[test]
fn test_gateway_add_scenario() {
    // Register task app.tasks.add, post {"input":{"a":5,"b":3}} with a
    // valid token, and read back {"ok":true,"result":8}.
    let state = gateway_state();
    let config = token_config();
    let headers = vec![("x-runner-token".to_string(), "secret".to_string())];
    assert!(auth_decision("POST", &headers, &config).is_ok());
    let body = "{\"input\":{\"a\":5,\"b\":3}}";
    let r = handle_task(&state, "app.tasks.add", body).unwrap();
    assert_eq!(r, "{\"ok\":true,\"result\":8}");
}

#[test]
fn test_gateway_invalid_token() {
    // The same request with a wrong token never reaches dispatch: the
    // authentication decision maps to the 401 envelope.
    let config = token_config();
    let headers = vec![("x-runner-token".to_string(), "wrong".to_string())];
    let err = auth_decision("POST", &headers, &config).unwrap_err();
    assert_eq!(err.to_http_status(), 401);
    let body = rust_tunnel::dispatch::error_body(&err);
    assert!(body.contains("\"ok\":false"));
    assert!(body.contains("\"code\":401"));
    assert!(body.contains("\"codeName\":\"UNAUTHORIZED\""));
}

#[test]
fn test_gateway_unregistered_task() {
    let mut state = gateway_state();
    state.config.allow_list_enabled = false;
    let r = handle_task(&state, "app.tasks.missing", "{\"input\":null}");
    let err = r.unwrap_err();
    assert!(matches!(err, TunnelError::NotFound));
    assert_eq!(err.to_http_status(), 404);
}

#[test]
fn test_gateway_forbidden() {
    let state = gateway_state();
    let r = handle_task(&state, "app.tasks.other", "{\"input\":null}");
    assert!(matches!(r, Err(TunnelError::Forbidden)));
    let r = handle_event(&state, "app.events.other", "{\"payload\":null}");
    assert!(matches!(r, Err(TunnelError::Forbidden)));
}

#[test]
fn test_gateway_allow_list_disabled() {
    // A disabled allow-list permits any id; lookup then decides.
    let mut state = gateway_state();
    state.config.allow_list_enabled = false;
    let body = "{\"input\":{\"a\":2,\"b\":2}}";
    assert_eq!(
        handle_task(&state, "app.tasks.add", body).unwrap(),
        "{\"ok\":true,\"result\":4}"
    );
}

#[test]
fn test_gateway_invalid_body() {
    let state = gateway_state();
    let r = handle_task(&state, "app.tasks.add", "{\"a\":");
    assert!(matches!(r, Err(TunnelError::InvalidJson(_))));
}

#[test]
fn test_gateway_event() {
    let state = gateway_state();
    let r = handle_event(&state, "app.events.notify", "{\"payload\":{\"message\":\"Hello\"}}").unwrap();
    assert_eq!(r, "{\"ok\":true}");
}

#[test]
fn test_gateway_handler_failure_propagates() {
    let mut state = gateway_state();
    state.config.allow_list_enabled = false;
    state.registry.register_task("app.tasks.fail".to_string(), TestTask::Fail);
    let r = handle_task(&state, "app.tasks.fail", "{\"input\":null}");
    match r {
        Err(TunnelError::InternalError(msg)) => assert_eq!(msg, "handler failed"),
        _ => panic!("expected the handler failure to propagate"),
    }
}

#[test]
fn test_gateway_discovery() {
    // After registering tasks ["a","b"] and events ["e"] with the
    // allow-list enabled, discovery returns exactly that allow-list.
    let mut config = TunnelConfig::default();
    config.allow_list_enabled = true;
    config.allowed_tasks = vec!["a".to_string(), "b".to_string()];
    config.allowed_events = vec!["e".to_string()];
    let state: AppState<TestTask, TestEvent> = AppState::new(config, TaskRegistry::new());
    let body = handle_discovery(&state);
    assert_eq!(
        body,
        "{\"ok\":true,\"result\":{\"allowList\":{\"enabled\":true,\"tasks\":[\"a\",\"b\"],\"events\":[\"e\"]}}}"
    );
}

#[test]
fn test_channel_ids_increase() {
    let mut ch = WorkerChannel::new();
    let a = ch.begin_send().unwrap();
    let b = ch.begin_send().unwrap();
    let c = ch.begin_send().unwrap();
    assert_eq!((a, b, c), (1, 2, 3));
}

fn response_line(id: u64, result: JsonValue) -> String {
    encode_response(&WorkerResponse { id, ok: true, result: Some(result), error: None })
}

#[test]
fn test_channel_correlation_out_of_order() {
    // Two outstanding requests answered in reverse order: each delivery
    // carries exactly the id it was sent for.
    let mut ch = WorkerChannel::new();
    let a = ch.begin_send().unwrap();
    let b = ch.begin_send().unwrap();
    let rb = ch.accept_line(&response_line(b, JsonValue::Int(2)));
    match rb {
        LineOutcome::Delivered(resp) => {
            assert_eq!(resp.id, b);
            assert_eq!(resp.result, Some(JsonValue::Int(2)));
        }
        _ => panic!("expected delivery for the second request"),
    }
    let ra = ch.accept_line(&response_line(a, JsonValue::Int(1)));
    match ra {
        LineOutcome::Delivered(resp) => assert_eq!(resp.id, a),
        _ => panic!("expected delivery for the first request"),
    }
}

#[test]
fn test_channel_duplicate_delivery_is_stale() {
    let mut ch = WorkerChannel::new();
    let a = ch.begin_send().unwrap();
    let line = response_line(a, JsonValue::Null);
    assert!(matches!(ch.accept_line(&line), LineOutcome::Delivered(_)));
    // The same response again: its entry is gone, so it is dropped.
    assert!(matches!(ch.accept_line(&line), LineOutcome::Stale));
}

#[test]
fn test_channel_unknown_id_is_stale() {
    let mut ch = WorkerChannel::new();
    let _ = ch.begin_send().unwrap();
    assert!(matches!(
        ch.accept_line(&response_line(77, JsonValue::Null)),
        LineOutcome::Stale
    ));
}

#[test]
fn test_channel_malformed_line_counted() {
    let mut ch = WorkerChannel::new();
    let a = ch.begin_send().unwrap();
    assert!(matches!(ch.accept_line("not json"), LineOutcome::Malformed));
    assert!(matches!(ch.accept_line("{\"ok\":true}"), LineOutcome::Malformed));
    assert_eq!(ch.malformed, 2);
    // The malformed lines did not disturb the in-flight request.
    assert!(matches!(
        ch.accept_line(&response_line(a, JsonValue::Null)),
        LineOutcome::Delivered(_)
    ));
}

#[test]
fn test_channel_crash_drains_all_pending() {
    // Worker crash with three requests outstanding: every pending caller
    // is handed the internal error, and later sends fail immediately.
    let mut ch = WorkerChannel::new();
    let a = ch.begin_send().unwrap();
    let b = ch.begin_send().unwrap();
    let c = ch.begin_send().unwrap();
    let drained = ch.begin_drain();
    assert_eq!(drained, vec![a, b, c]);
    assert!(matches!(ch.state, ChannelState::Draining));
    for _ in &drained {
        let e = drain_error();
        assert!(matches!(e, TunnelError::InternalError(_)));
    }
    ch.finish_drain();
    assert!(matches!(ch.state, ChannelState::Terminated));
    match ch.begin_send() {
        Err(TunnelError::InternalError(msg)) => assert_eq!(msg, "worker terminated"),
        _ => panic!("send after termination must fail"),
    }
}

#[test]
fn test_channel_prepare_task_line() {
    let mut ch = WorkerChannel::new();
    let input = obj(vec![("a", JsonValue::Int(5)), ("b", JsonValue::Int(3))]);
    let (id, line) = ch.prepare_task("app.tasks.add", &input, None).unwrap();
    assert_eq!(id, 1);
    assert_eq!(
        line,
        "{\"type\":\"task\",\"id\":1,\"taskId\":\"app.tasks.add\",\"input\":{\"a\":5,\"b\":3}}"
    );
    let (id2, line2) = ch.prepare_event("app.events.log", &JsonValue::Null, None).unwrap();
    assert_eq!(id2, 2);
    assert_eq!(
        line2,
        "{\"type\":\"event\",\"id\":2,\"eventId\":\"app.events.log\",\"payload\":null}"
    );
    let line3 = ch.prepare_shutdown().unwrap();
    assert_eq!(line3, "{\"type\":\"shutdown\",\"id\":3}");
}

#[test]
fn test_interpret_responses() {
    let ok = WorkerResponse { id: 1, ok: true, result: Some(JsonValue::Int(8)), error: None };
    assert_eq!(interpret_task_response(&ok), Ok(JsonValue::Int(8)));
    let empty = WorkerResponse { id: 2, ok: true, result: None, error: None };
    assert_eq!(interpret_task_response(&empty), Ok(JsonValue::Null));
    let failed = WorkerResponse {
        id: 3,
        ok: false,
        result: None,
        error: Some(WorkerError {
            message: "task blew up".to_string(),
            code: 500,
            code_name: "INTERNAL_ERROR".to_string(),
        }),
    };
    match interpret_task_response(&failed) {
        Err(TunnelError::WorkerReported { code, code_name, message }) => {
            assert_eq!(code, 500);
            assert_eq!(code_name, "INTERNAL_ERROR");
            assert_eq!(message, "task blew up");
        }
        _ => panic!("expected the worker error to pass through"),
    }
    let anonymous = WorkerResponse { id: 4, ok: false, result: None, error: None };
    match interpret_task_response(&anonymous) {
        Err(TunnelError::InternalError(msg)) => assert_eq!(msg, "Unknown error"),
        _ => panic!("expected a placeholder message"),
    }
    assert!(interpret_event_response(&empty).is_ok());
    assert!(interpret_event_response(&anonymous).is_err());
    assert!(interpret_auth_response(&empty).is_ok());
    assert!(matches!(interpret_auth_response(&anonymous), Err(TunnelError::Unauthorized)));
}

#[test]
fn test_worker_request_id() {
    assert_eq!(WorkerRequest::Shutdown { id: 12 }.id(), 12);
    let t = WorkerRequest::Task {
        id: 7,
        task_id: "t".to_string(),
        input: JsonValue::Null,
        context: None,
    };
    assert_eq!(t.id(), 7);
}

#[test]
fn test_allow_list_serialization() {
    let mut config = TunnelConfig::default();
    config.allow_list_enabled = true;
    config.allowed_tasks = vec!["task1".to_string(), "task2".to_string()];
    config.allowed_events = vec!["event1".to_string()];
    let state: AppState<TestTask, TestEvent> = AppState::new(config, TaskRegistry::new());
    let serialized = rust_tunnel::json::decode_line(&handle_discovery(&state)).unwrap();
    let allow_list = serialized.get("result").unwrap().get("allowList").unwrap();
    assert_eq!(allow_list.get("enabled"), Some(&JsonValue::Bool(true)));
    match allow_list.get("tasks") {
        Some(JsonValue::Arr(tasks)) => {
            assert_eq!(tasks[0], JsonValue::Str("task1".to_string()));
            assert_eq!(tasks[1], JsonValue::Str("task2".to_string()));
        }
        _ => panic!("expected a task id array"),
    }
    match allow_list.get("events") {
        Some(JsonValue::Arr(events)) => {
            assert_eq!(events[0], JsonValue::Str("event1".to_string()));
        }
        _ => panic!("expected an event id array"),
    }
}

#[test]
fn test_discovery_result_serialization() {
    let mut config = TunnelConfig::default();
    config.allow_list_enabled = true;
    config.allowed_tasks = vec!["test.task".to_string()];
    config.allowed_events = vec![];
    let state: AppState<TestTask, TestEvent> = AppState::new(config, TaskRegistry::new());
    let serialized = rust_tunnel::json::decode_line(&handle_discovery(&state)).unwrap();
    let allow_list = serialized.get("result").unwrap().get("allowList").unwrap();
    assert_eq!(allow_list.get("enabled"), Some(&JsonValue::Bool(true)));
    match allow_list.get("tasks") {
        Some(JsonValue::Arr(tasks)) => {
            assert_eq!(tasks[0], JsonValue::Str("test.task".to_string()));
        }
        _ => panic!("expected a task id array"),
    }
}

#[test]
fn test_worker_error_passes_through_verbatim() {
    // A worker-supplied structured error keeps its code and code name all
    // the way to the HTTP error envelope.
    let denied = WorkerResponse {
        id: 5,
        ok: false,
        result: None,
        error: Some(WorkerError {
            message: "token rejected by worker".to_string(),
            code: 403,
            code_name: "FORBIDDEN".to_string(),
        }),
    };
    let err = interpret_task_response(&denied).unwrap_err();
    assert_eq!(err.to_http_status(), 403);
    let body = rust_tunnel::dispatch::error_body(&err);
    assert_eq!(
        body,
        "{\"ok\":false,\"error\":{\"code\":403,\"codeName\":\"FORBIDDEN\",\"message\":\"token rejected by worker\"}}"
    );
}

#[test]
fn test_allow_list_enabled_with_empty_lists() {
    // An enabled allow-list with nothing listed permits nothing, and
    // discovery reports it as enabled.
    let mut config = TunnelConfig::default();
    config.allow_list_enabled = true;
    let state: AppState<TestTask, TestEvent> = AppState::new(config, registry_with_add());
    let r = handle_task(&state, "app.tasks.add", "{\"input\":null}");
    assert!(matches!(r, Err(TunnelError::Forbidden)));
    let body = handle_discovery(&state);
    assert_eq!(
        body,
        "{\"ok\":true,\"result\":{\"allowList\":{\"enabled\":true,\"tasks\":[],\"events\":[]}}}"
    );
}

#[test]
fn test_discovery_reports_disabled_flag() {
    let state: AppState<TestTask, TestEvent> =
        AppState::new(TunnelConfig::default(), TaskRegistry::new());
    let body = handle_discovery(&state);
    assert_eq!(
        body,
        "{\"ok\":true,\"result\":{\"allowList\":{\"enabled\":false,\"tasks\":[],\"events\":[]}}}"
    );
}
