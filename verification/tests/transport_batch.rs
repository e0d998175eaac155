use clawgotchi::transport::{
    frame_event, render_commands, run_transport, u64_to_string, CdpCommand, TransportError,
    WsEvent,
};

fn three_slots() -> usize {
    3
}

#[test]
fn responses_return_in_submission_order() {
    // deliver responses for ids 3, 1, 2; expect [r1, r2, r3]
    let events = vec![
        WsEvent::Text { id: Some(3), payload: "r3".to_string() },
        WsEvent::Text { id: Some(1), payload: "r1".to_string() },
        WsEvent::Text { id: Some(2), payload: "r2".to_string() },
    ];
    let out = run_transport(three_slots(), &events).unwrap();
    assert_eq!(out, vec!["r1".to_string(), "r2".to_string(), "r3".to_string()]);
}

#[test]
fn first_response_per_id_wins() {
    let events = vec![
        WsEvent::Text { id: Some(2), payload: "first".to_string() },
        WsEvent::Text { id: Some(2), payload: "second".to_string() },
        WsEvent::Text { id: Some(1), payload: "a".to_string() },
        WsEvent::Text { id: Some(3), payload: "c".to_string() },
    ];
    let out = run_transport(three_slots(), &events).unwrap();
    assert_eq!(out[1], "first");
}

#[test]
fn unknown_ids_and_non_text_frames_are_discarded() {
    let events = vec![
        WsEvent::Text { id: Some(9), payload: "ignored".to_string() },
        WsEvent::NonText,
        WsEvent::Text { id: None, payload: "not a response".to_string() },
        WsEvent::Text { id: Some(1), payload: "only".to_string() },
    ];
    let out = run_transport(1, &events).unwrap();
    assert_eq!(out, vec!["only".to_string()]);
}

#[test]
fn missing_responses_time_out_with_no_partial_list() {
    let events = vec![
        WsEvent::Text { id: Some(1), payload: "r1".to_string() },
        WsEvent::Text { id: Some(3), payload: "r3".to_string() },
    ];
    match run_transport(three_slots(), &events) {
        Ok(_) => panic!("two of three responses must not finish the batch"),
        Err(e) => assert_eq!(e.message(), "CDP command timed out"),
    }
}

#[test]
fn explicit_deadline_event_times_out() {
    let events = vec![
        WsEvent::Text { id: Some(1), payload: "r1".to_string() },
        WsEvent::TimedOut,
    ];
    match run_transport(2, &events) {
        Err(TransportError::TimedOut) => {},
        _ => panic!("the deadline event must abort the batch"),
    }
}

#[test]
fn socket_close_aborts_the_batch() {
    let events = vec![WsEvent::Closed];
    match run_transport(1, &events) {
        Err(e) => assert_eq!(e.message(), "WebSocket closed unexpectedly"),
        Ok(_) => panic!("a closed socket must abort the batch"),
    }
}

#[test]
fn read_errors_abort_with_their_message() {
    let events = vec![WsEvent::ReadFailed("broken pipe".to_string())];
    match run_transport(1, &events) {
        Err(e) => assert_eq!(e.message(), "WebSocket read error: broken pipe"),
        Ok(_) => panic!("a read error must abort the batch"),
    }
}

#[test]
fn real_frames_are_matched_by_their_id_field() {
    let events = vec![
        frame_event("{\"id\":2,\"result\":{\"data\":\"bbb\"}}".to_string()),
        frame_event("not json at all".to_string()),
        frame_event("{\"id\":1,\"result\":{\"value\":\"aaa\"}}".to_string()),
    ];
    let out = run_transport(2, &events).unwrap();
    assert_eq!(out[0], "{\"id\":1,\"result\":{\"value\":\"aaa\"}}");
    assert_eq!(out[1], "{\"id\":2,\"result\":{\"data\":\"bbb\"}}");
}

#[test]
fn commands_get_ids_in_submission_order() {
    let cmds = vec![
        CdpCommand { method: "Runtime.evaluate".to_string(), params: "{\"a\":1}".to_string() },
        CdpCommand { method: "Page.captureScreenshot".to_string(), params: "{}".to_string() },
    ];
    let texts = render_commands(&cmds);
    assert_eq!(texts[0], "{\"id\":1,\"method\":\"Runtime.evaluate\",\"params\":{\"a\":1}}");
    assert_eq!(texts[1], "{\"id\":2,\"method\":\"Page.captureScreenshot\",\"params\":{}}");
}

#[test]
fn rendered_commands_parse_back_with_their_ids() {
    let cmds = vec![
        CdpCommand { method: "m".to_string(), params: "{\"k\":true}".to_string() },
    ];
    let texts = render_commands(&cmds);
    let v: serde_json::Value = serde_json::from_str(&texts[0]).unwrap();
    assert_eq!(v.get("id").and_then(|x| x.as_u64()), Some(1));
    assert_eq!(v.get("method").and_then(|x| x.as_str()), Some("m"));
}

#[test]
fn decimal_rendering_is_exact() {
    assert_eq!(u64_to_string(0), "0");
    assert_eq!(u64_to_string(7), "7");
    assert_eq!(u64_to_string(10), "10");
    assert_eq!(u64_to_string(65535), "65535");
    assert_eq!(u64_to_string(18446744073709551615), "18446744073709551615");
}
