use ollama_relay::event_json;
use ollama_relay::sse_frame;
use ollama_relay::EventKind;
use ollama_relay::OutEvent;
use ollama_relay::Phase;
use ollama_relay::Reframer;

fn chunk(s: &str) -> Vec<u8> {
    s.as_bytes().to_vec()
}

fn summary(evs: &[OutEvent]) -> Vec<(EventKind, String, bool)> {
    evs.iter()
        .map(|e| (e.kind, String::from_utf8(e.content.clone()).unwrap(), e.done))
        .collect()
}

#[test]
fn accumulation_across_fragments() {
    let mut r = Reframer::new();
    let evs = r.process_chunk(&chunk(
        "{\"response\":\"Hel\",\"done\":false}\n{\"response\":\"lo, \",\"done\":false}\n{\"response\":\"world\",\"done\":false}\n{\"response\":\"\",\"done\":true}\n",
    ));
    assert_eq!(
        summary(&evs),
        vec![
            (EventKind::Fragment, "Hel".to_string(), false),
            (EventKind::Fragment, "lo, ".to_string(), false),
            (EventKind::Fragment, "world".to_string(), false),
            (EventKind::Complete, "Hello, world".to_string(), true),
        ]
    );
    assert_eq!(r.phase, Phase::Done);
}

#[test]
fn malformed_line_between_two_frames_is_dropped() {
    let mut r = Reframer::new();
    let evs = r.process_chunk(&chunk(
        "{\"response\":\"a\",\"done\":false}\nthis is not a frame\n{\"response\":\"b\",\"done\":false}\n",
    ));
    assert_eq!(
        summary(&evs),
        vec![
            (EventKind::Fragment, "a".to_string(), false),
            (EventKind::Fragment, "b".to_string(), false),
        ]
    );
    assert_eq!(r.phase, Phase::Reading);
}

#[test]
fn empty_fragment_produces_no_event() {
    let mut r = Reframer::new();
    let evs = r.process_chunk(&chunk("{\"response\":\"\",\"done\":false}\n"));
    assert!(evs.is_empty());
    assert_eq!(r.phase, Phase::Reading);
}

#[test]
fn nothing_follows_the_terminal_event() {
    let mut r = Reframer::new();
    let evs = r.process_chunk(&chunk(
        "{\"response\":\"x\",\"done\":true}\n{\"response\":\"late\",\"done\":false}\n",
    ));
    assert_eq!(
        summary(&evs),
        vec![
            (EventKind::Fragment, "x".to_string(), false),
            (EventKind::Complete, "x".to_string(), true),
        ]
    );
    assert_eq!(r.phase, Phase::Done);
}

#[test]
fn final_marker_alongside_text_emits_fragment_then_complete() {
    let mut r = Reframer::new();
    let evs = r.process_chunk(&chunk("{\"response\":\"all\",\"done\":true}\n"));
    assert_eq!(
        summary(&evs),
        vec![
            (EventKind::Fragment, "all".to_string(), false),
            (EventKind::Complete, "all".to_string(), true),
        ]
    );
}

#[test]
fn frame_split_across_chunks_is_reassembled() {
    let mut r = Reframer::new();
    let evs = r.process_chunk(&chunk("{\"response\":\"Hi"));
    assert!(evs.is_empty());
    let evs = r.process_chunk(&chunk("!\",\"done\":false}\n"));
    assert_eq!(summary(&evs), vec![(EventKind::Fragment, "Hi!".to_string(), false)]);
}

#[test]
fn complete_content_is_trimmed() {
    let mut r = Reframer::new();
    let evs = r.process_chunk(&chunk(
        "{\"response\":\"  padded \",\"done\":false}\n{\"response\":\"\",\"done\":true}\n",
    ));
    assert_eq!(
        summary(&evs),
        vec![
            (EventKind::Fragment, "  padded ".to_string(), false),
            (EventKind::Complete, "padded".to_string(), true),
        ]
    );
}

#[test]
fn stream_end_without_final_marker_emits_no_terminal_event() {
    let mut r = Reframer::new();
    let evs = r.process_chunk(&chunk("{\"response\":\"tail\",\"done\":false}\n"));
    assert_eq!(summary(&evs), vec![(EventKind::Fragment, "tail".to_string(), false)]);
    r.finish();
    assert_eq!(r.phase, Phase::Done);
}

#[test]
fn backend_failure_yields_one_error_event() {
    let mut r = Reframer::new();
    let e = r.fail(chunk("Ollama API error: 503"));
    assert_eq!(r.phase, Phase::Errored);
    assert_eq!(
        String::from_utf8(event_json(&e)).unwrap(),
        "{\"type\":\"error\",\"content\":\"Ollama API error: 503\",\"done\":true}"
    );
}

#[test]
fn streaming_scenario_produces_the_expected_sse_frames() {
    let mut r = Reframer::new();
    let evs = r.process_chunk(&chunk(
        "{\"response\":\"Hi\",\"done\":false}\n{\"response\":\"\",\"done\":true}\n",
    ));
    let frames: Vec<String> = evs
        .iter()
        .map(|e| String::from_utf8(sse_frame(&event_json(e))).unwrap())
        .collect();
    assert_eq!(
        frames,
        vec![
            "data: {\"type\":\"fragment\",\"content\":\"Hi\",\"done\":false}\n\n".to_string(),
            "data: {\"type\":\"complete\",\"content\":\"Hi\",\"done\":true}\n\n".to_string(),
        ]
    );
}
