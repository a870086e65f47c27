use ollama_relay::answer_of_body;
use ollama_relay::backend_error_text;
use ollama_relay::backend_request_json;
use ollama_relay::backend_status_ok;
use ollama_relay::compose_prompt;
use ollama_relay::event_json;
use ollama_relay::health_json;
use ollama_relay::health_now;
use ollama_relay::sse_frame;
use ollama_relay::EventKind;
use ollama_relay::OutEvent;

fn bytes(s: &str) -> Vec<u8> {
    s.as_bytes().to_vec()
}

fn ev(kind: EventKind, content: &str, done: bool) -> OutEvent {
    OutEvent { kind, content: bytes(content), done }
}

#[test]
fn complete_event_json_is_exact() {
    let json = event_json(&ev(EventKind::Complete, "4", true));
    assert_eq!(
        String::from_utf8(json).unwrap(),
        "{\"type\":\"complete\",\"content\":\"4\",\"done\":true}"
    );
}

#[test]
fn fragment_event_json_is_exact() {
    let json = event_json(&ev(EventKind::Fragment, "Hi", false));
    assert_eq!(
        String::from_utf8(json).unwrap(),
        "{\"type\":\"fragment\",\"content\":\"Hi\",\"done\":false}"
    );
}

#[test]
fn event_content_is_escaped() {
    let json = event_json(&ev(EventKind::Fragment, "a\"b\\c\nd\te\u{1}", false));
    assert_eq!(
        String::from_utf8(json).unwrap(),
        "{\"type\":\"fragment\",\"content\":\"a\\\"b\\\\c\\nd\\te\\u0001\",\"done\":false}"
    );
}

#[test]
fn event_json_is_what_a_reference_parser_reads_back() {
    let json = event_json(&ev(EventKind::Fragment, "line one\nline \"two\" \\ done", false));
    let v: serde_json::Value = serde_json::from_slice(&json).unwrap();
    assert_eq!(v.get("type").unwrap().as_str().unwrap(), "fragment");
    assert_eq!(v.get("content").unwrap().as_str().unwrap(), "line one\nline \"two\" \\ done");
    assert_eq!(v.get("done").unwrap().as_bool().unwrap(), false);
}

#[test]
fn sse_frame_wraps_the_json() {
    let frame = sse_frame(&bytes("{\"x\":1}"));
    assert_eq!(String::from_utf8(frame).unwrap(), "data: {\"x\":1}\n\n");
}

#[test]
fn ask_scenario_answer_and_payload() {
    // A stubbed backend body for the non-streaming path.
    let answer = answer_of_body(bytes("{\"response\":\"4\",\"done\":true}"));
    assert_eq!(answer, bytes("4"));
    let json = event_json(&OutEvent { kind: EventKind::Complete, content: answer, done: true });
    assert_eq!(
        String::from_utf8(json).unwrap(),
        "{\"type\":\"complete\",\"content\":\"4\",\"done\":true}"
    );
}

#[test]
fn answer_falls_back_to_the_raw_body() {
    assert_eq!(answer_of_body(bytes("plain text answer")), bytes("plain text answer"));
    assert_eq!(answer_of_body(bytes("{\"response\":1,\"done\":true}")), bytes("{\"response\":1,\"done\":true}"));
}

#[test]
fn answer_tolerates_surrounding_whitespace() {
    assert_eq!(answer_of_body(bytes(" {\"response\":\"ok\",\"done\":true}\n")), bytes("ok"));
}

#[test]
fn compose_prompt_concatenates() {
    let p = compose_prompt(&bytes("Preamble: "), &bytes("2+2?"));
    assert_eq!(p, bytes("Preamble: 2+2?"));
}

#[test]
fn backend_request_body_is_exact() {
    let body = backend_request_json(&bytes("deepseek-coder-v2"), &bytes("Say \"hi\"\n"), true);
    assert_eq!(
        String::from_utf8(body).unwrap(),
        "{\"model\":\"deepseek-coder-v2\",\"prompt\":\"Say \\\"hi\\\"\\n\",\"stream\":true}"
    );
    let v: serde_json::Value = serde_json::from_slice(
        &backend_request_json(&bytes("m"), &bytes("p"), false),
    )
    .unwrap();
    assert_eq!(v.get("model").unwrap().as_str().unwrap(), "m");
    assert_eq!(v.get("prompt").unwrap().as_str().unwrap(), "p");
    assert_eq!(v.get("stream").unwrap().as_bool().unwrap(), false);
}

#[test]
fn backend_status_success_is_the_2xx_range() {
    assert!(backend_status_ok(200));
    assert!(backend_status_ok(204));
    assert!(backend_status_ok(299));
    assert!(!backend_status_ok(199));
    assert!(!backend_status_ok(300));
    assert!(!backend_status_ok(404));
    assert!(!backend_status_ok(503));
}

#[test]
fn backend_error_text_carries_the_status_digits() {
    assert_eq!(String::from_utf8(backend_error_text(503)).unwrap(), "Ollama API error: 503");
    assert_eq!(String::from_utf8(backend_error_text(404)).unwrap(), "Ollama API error: 404");
    assert_eq!(String::from_utf8(backend_error_text(7)).unwrap(), "Ollama API error: 7");
}

#[test]
fn health_payload_is_exact() {
    let json = health_json(&bytes("2024-01-01T00:00:00+00:00"));
    assert_eq!(
        String::from_utf8(json).unwrap(),
        "{\"status\":\"ok\",\"service\":\"ollama-rust\",\"time\":\"2024-01-01T00:00:00+00:00\"}"
    );
}

#[test]
fn health_now_carries_a_timestamp() {
    let json = String::from_utf8(health_now()).unwrap();
    let v: serde_json::Value = serde_json::from_str(&json).unwrap();
    assert_eq!(v.get("status").unwrap().as_str().unwrap(), "ok");
    assert_eq!(v.get("service").unwrap().as_str().unwrap(), "ollama-rust");
    let time = v.get("time").unwrap().as_str().unwrap();
    // RFC 3339 text: a date, a T separator, and an offset.
    assert!(time.len() >= 20, "time {}", time);
    assert_eq!(&time[4..5], "-");
    assert_eq!(&time[10..11], "T");
}
