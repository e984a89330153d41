use ollama_chat::stream::{
    decode_wire_line, error_token, failure_events, is_success_status, line_events, process_line,
    relay_step, LineBuffer, RelayInput, StreamEvent,
};

fn texts(evs: &[StreamEvent]) -> Vec<String> {
    evs.iter()
        .map(|e| match e {
            StreamEvent::Token(t) => format!("token:{}", t),
            StreamEvent::Done => "done".to_string(),
        })
        .collect()
}

#[test]
fn two_chunks_give_two_tokens_then_done() {
    let mut buf = LineBuffer::new();
    let mut all = Vec::new();
    all.extend(buf.push_chunk(b"{\"message\":{\"content\":\"Hel\"}}\n{\"message\":{\"content\":\"lo\"}}\n"));
    all.extend(buf.push_chunk(b"{\"done\":true}\n"));
    all.extend(buf.flush());
    assert_eq!(texts(&all), vec!["token:Hel", "token:lo", "done"]);
}

#[test]
fn line_split_across_chunks_is_kept() {
    let mut buf = LineBuffer::new();
    let first = buf.push_chunk(b"{\"message\":{\"con");
    assert!(first.is_empty());
    let second = buf.push_chunk(b"tent\":\"Hi\"}}\n");
    assert_eq!(texts(&second), vec!["token:Hi"]);
    assert!(buf.flush().is_empty());
}

#[test]
fn unparseable_and_blank_lines_are_dropped() {
    let mut buf = LineBuffer::new();
    let evs = buf.push_chunk(b"not json\n\n   \n{\"message\":{\"content\":\"x\"}}\n");
    assert_eq!(texts(&evs), vec!["token:x"]);
}

#[test]
fn last_line_without_newline_is_flushed() {
    let mut buf = LineBuffer::new();
    assert!(buf.push_chunk(b"{\"message\":{\"content\":\"end\"},\"done\":true}").is_empty());
    assert_eq!(texts(&buf.flush()), vec!["token:end", "done"]);
}

#[test]
fn done_false_gives_no_completion() {
    let evs = process_line(b"{\"message\":{\"content\":\"a\"},\"done\":false}");
    assert_eq!(texts(&evs), vec!["token:a"]);
}

#[test]
fn invalid_utf8_is_replaced() {
    let evs = process_line(b"{\"message\":{\"content\":\"a\xffb\"}}");
    assert_eq!(texts(&evs), vec!["token:a\u{FFFD}b"]);
}

#[test]
fn line_events_token_before_done() {
    assert_eq!(texts(&line_events(Some("t".to_string()), true)), vec!["token:t", "done"]);
    assert!(line_events(None, false).is_empty());
}

#[test]
fn server_error_gives_one_error_token_and_no_done() {
    let evs = failure_events("ollama returned status 500 Internal Server Error");
    assert_eq!(
        texts(&evs),
        vec!["token:[error: ollama returned status 500 Internal Server Error]"]
    );
}

#[test]
fn error_token_format() {
    assert_eq!(error_token("boom"), "[error: boom]");
    assert_eq!(error_token(""), "[error: ]");
}

#[test]
fn status_codes() {
    assert!(is_success_status(200));
    assert!(is_success_status(299));
    assert!(!is_success_status(500));
    assert!(!is_success_status(199));
    assert!(!is_success_status(300));
}

#[test]
fn wire_line_fields() {
    assert_eq!(
        decode_wire_line("{\"message\":{\"content\":\"Hel\"}}"),
        (Some("Hel".to_string()), false)
    );
    assert_eq!(decode_wire_line("{\"done\":true}"), (None, true));
    assert_eq!(decode_wire_line("{\"done\":\"yes\"}"), (None, false));
    assert_eq!(decode_wire_line("{\"content\":\"x\"}"), (None, false));
    assert_eq!(decode_wire_line("{\"message\":{\"content\":7}}"), (None, false));
    assert_eq!(decode_wire_line("[1,2"), (None, false));
}

#[test]
fn relay_of_a_good_response() {
    let mut buf = LineBuffer::new();
    let mut all = Vec::new();
    let inputs = vec![
        RelayInput::Status(200, "unused".to_string()),
        RelayInput::Chunk(b"{\"message\":{\"content\":\"Hel\"}}\n{\"message\":{\"content\":\"lo\"}}\n".to_vec()),
        RelayInput::Chunk(b"{\"done\":true}\n".to_vec()),
        RelayInput::Ended,
    ];
    let mut go_on = true;
    for input in inputs {
        assert!(go_on);
        let (evs, more) = relay_step(&mut buf, input);
        all.extend(evs);
        go_on = more;
    }
    assert!(!go_on);
    assert_eq!(texts(&all), vec!["token:Hel", "token:lo", "done"]);
}

#[test]
fn relay_of_status_500_stops_with_one_error() {
    let mut buf = LineBuffer::new();
    let (evs, more) = relay_step(
        &mut buf,
        RelayInput::Status(500, "ollama returned status 500 Internal Server Error".to_string()),
    );
    assert!(!more);
    assert_eq!(
        texts(&evs),
        vec!["token:[error: ollama returned status 500 Internal Server Error]"]
    );
}

#[test]
fn relay_failure_drops_unfinished_line() {
    let mut buf = LineBuffer::new();
    let (evs, more) = relay_step(&mut buf, RelayInput::Chunk(b"{\"done\":true}".to_vec()));
    assert!(evs.is_empty() && more);
    let (evs, more) = relay_step(&mut buf, RelayInput::Failed("reset".to_string()));
    assert!(!more);
    assert_eq!(texts(&evs), vec!["token:[error: reset]"]);
}
