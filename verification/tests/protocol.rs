use audpro::protocol::{
    check_process_request, exit_failure, frame_command, parse_line, process_command,
    sidecar_missing, transport_error, LineBuffer, SidecarEvent, SidecarMessage,
};

fn message(event: Option<&str>) -> SidecarMessage {
    SidecarMessage {
        event: event.map(|e| e.to_string()),
        stage: None,
        message: None,
        status: None,
        session_id: None,
        language: None,
        speakers: None,
    }
}

fn stage_and_message(e: &SidecarEvent) -> (String, String) {
    match e {
        SidecarEvent::Stage { stage, message } => (stage.clone(), message.clone()),
        SidecarEvent::Progress { stage, message } => (stage.clone(), message.clone()),
        _ => panic!("not a stage or progress event"),
    }
}

#[test]
fn unparsed_line_is_raw() {
    match parse_line("hello", None, "s1") {
        SidecarEvent::Raw { message } => assert_eq!(message, "hello"),
        _ => panic!("expected Raw"),
    }
}

#[test]
fn stage_event_defaults() {
    let e = parse_line("{}", Some(message(Some("STAGE"))), "s1");
    assert_eq!(stage_and_message(&e), ("unknown".to_string(), "".to_string()));
    let mut m = message(Some("STAGE"));
    m.stage = Some("align".to_string());
    m.message = Some("Aligning".to_string());
    let e = parse_line("{}", Some(m), "s1");
    assert_eq!(stage_and_message(&e), ("align".to_string(), "Aligning".to_string()));
}

#[test]
fn progress_event() {
    let mut m = message(Some("PROGRESS"));
    m.stage = Some("transcribe".to_string());
    let e = parse_line("{}", Some(m), "s1");
    assert!(matches!(e, SidecarEvent::Progress { .. }));
    assert_eq!(stage_and_message(&e), ("transcribe".to_string(), "".to_string()));
}

#[test]
fn complete_event() {
    let e = parse_line("{}", Some(message(Some("COMPLETE"))), "s1");
    match e {
        SidecarEvent::Done { session_id, speaker_count, language } => {
            assert_eq!(session_id, "s1");
            assert_eq!(speaker_count, 0);
            assert_eq!(language, None);
        }
        _ => panic!("expected Done"),
    }
    let mut m = message(Some("COMPLETE"));
    m.status = Some("completed".to_string());
    m.session_id = Some("other".to_string());
    m.speakers = Some(3);
    m.language = Some("en".to_string());
    match parse_line("{}", Some(m), "s1") {
        SidecarEvent::Done { session_id, speaker_count, language } => {
            assert_eq!(session_id, "other");
            assert_eq!(speaker_count, 3);
            assert_eq!(language.as_deref(), Some("en"));
        }
        _ => panic!("expected Done"),
    }
}

#[test]
fn speaker_count_wraps_to_u32() {
    let mut m = message(Some("COMPLETE"));
    m.speakers = Some((1u64 << 32) + 5);
    match parse_line("{}", Some(m), "s1") {
        SidecarEvent::Done { speaker_count, .. } => assert_eq!(speaker_count, 5),
        _ => panic!("expected Done"),
    }
}

#[test]
fn complete_with_other_status_is_error() {
    let mut m = message(Some("COMPLETE"));
    m.status = Some("cancelled".to_string());
    match parse_line("{}", Some(m), "s1") {
        SidecarEvent::Error { stage, message } => {
            assert_eq!(stage.as_deref(), Some("complete"));
            assert_eq!(message, "Pipeline reported status: cancelled");
        }
        _ => panic!("expected Error"),
    }
}

#[test]
fn error_event_messages() {
    match parse_line("{}", Some(message(Some("ERROR"))), "s1") {
        SidecarEvent::Error { stage, message } => {
            assert_eq!(stage, None);
            assert_eq!(message, "Unknown sidecar error");
        }
        _ => panic!("expected Error"),
    }
    let mut m = message(Some("ERROR"));
    m.stage = Some("diarize".to_string());
    m.message = Some("".to_string());
    match parse_line("{}", Some(m), "s1") {
        SidecarEvent::Error { stage, message } => {
            assert_eq!(stage.as_deref(), Some("diarize"));
            assert_eq!(message, "");
        }
        _ => panic!("expected Error"),
    }
    let mut m = message(Some("ERROR"));
    m.message = Some("out of memory".to_string());
    match parse_line("{}", Some(m), "s1") {
        SidecarEvent::Error { message, .. } => assert_eq!(message, "out of memory"),
        _ => panic!("expected Error"),
    }
}

#[test]
fn informational_events_are_raw() {
    for name in [Some("READY"), Some("PONG"), Some("BYE"), None] {
        match parse_line("{\"event\":\"READY\"}", Some(message(name)), "s1") {
            SidecarEvent::Raw { message } => assert_eq!(message, "{\"event\":\"READY\"}"),
            _ => panic!("expected Raw"),
        }
    }
}

#[test]
fn line_buffer_splits_lines() {
    let mut buffer = LineBuffer::new();
    assert_eq!(buffer.push_chunk("{\"a\":1}\r\n{\"b\""), vec!["{\"a\":1}".to_string()]);
    assert_eq!(buffer.push_chunk(":2}\n\n\r\n"), vec!["{\"b\":2}".to_string()]);
    assert_eq!(buffer.push_chunk("tail  "), Vec::<String>::new());
    assert_eq!(buffer.finish(), Some("tail".to_string()));
}

#[test]
fn line_buffer_finish_empty() {
    let mut buffer = LineBuffer::new();
    assert_eq!(buffer.push_chunk("x\n \t"), vec!["x".to_string()]);
    assert_eq!(buffer.finish(), None);
}

#[test]
fn line_buffer_same_lines_for_any_chunking() {
    let text = "one\r\ntwo\n\nthree\nfour";
    let mut whole = LineBuffer::new();
    let all = whole.push_chunk(text);
    let mut pieces = LineBuffer::new();
    let mut got = Vec::new();
    for chunk in ["on", "e\r", "\ntwo\n", "\nth", "ree\nfo", "ur"] {
        got.extend(pieces.push_chunk(chunk));
    }
    assert_eq!(all, got);
    assert_eq!(all, vec!["one".to_string(), "two".to_string(), "three".to_string()]);
    assert_eq!(whole.finish(), pieces.finish());
}

#[test]
fn exit_codes() {
    assert_eq!(exit_failure(None), None);
    assert_eq!(exit_failure(Some(0)), None);
    assert_eq!(exit_failure(Some(1)), Some("Sidecar exited with code 1".to_string()));
    assert_eq!(exit_failure(Some(-9)), Some("Sidecar exited with code -9".to_string()));
    assert_eq!(
        exit_failure(Some(i32::MIN)),
        Some("Sidecar exited with code -2147483648".to_string())
    );
}

#[test]
fn transport_errors() {
    match transport_error("broken pipe") {
        SidecarEvent::Error { stage, message } => {
            assert_eq!(stage, None);
            assert_eq!(message, "Sidecar transport error: broken pipe");
        }
        _ => panic!("expected Error"),
    }
}

#[test]
fn command_framing() {
    assert_eq!(frame_command("  {\"command\":\"PING\"} \r\n"), "{\"command\":\"PING\"}\n");
    assert_eq!(frame_command("EXIT"), "EXIT\n");
    assert_eq!(frame_command("\u{3000}x\u{a0}"), "x\n");
}

#[test]
fn process_command_json() {
    let text = process_command(
        "/s/sess-1/audio.wav",
        "/s/sess-1",
        "sess-1",
        None,
        Some("en".to_string()),
        Some("cuda".to_string()),
    );
    assert_eq!(
        text,
        "{\"audioPath\":\"/s/sess-1/audio.wav\",\"command\":\"PROCESS\",\"device\":\"cuda\",\"language\":\"en\",\"modelsDir\":null,\"outputDir\":\"/s/sess-1\",\"sessionId\":\"sess-1\"}"
    );
    let framed = frame_command(&text);
    assert!(framed.ends_with("}\n"));
}

#[test]
fn process_request_checks() {
    assert_eq!(check_process_request("bad id", false, true), Err("Invalid session ID".to_string()));
    assert_eq!(
        check_process_request("s1", true, true),
        Err("Audio processing is already running".to_string())
    );
    assert_eq!(
        check_process_request("s1", false, false),
        Err("No audio.wav found for session 's1'. Record audio first.".to_string())
    );
    assert_eq!(check_process_request("s1", false, true), Ok(()));
}

#[test]
fn sidecar_missing_message() {
    assert_eq!(
        sidecar_missing("/app/sidecar/x"),
        "Frozen sidecar not found at /app/sidecar/x. Build it first: cd python-sidecar && bash build-mac-intel.sh (macOS) or powershell -File build-windows.ps1 (Windows)."
    );
}

#[test]
fn framed_command_reads_back_as_one_line() {
    let framed = frame_command(" {\"command\":\"PING\"}\t");
    let mut buffer = LineBuffer::new();
    assert_eq!(buffer.push_chunk(&framed), vec!["{\"command\":\"PING\"}".to_string()]);
    assert_eq!(buffer.finish(), None);
}
