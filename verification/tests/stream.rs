use audpro::protocol::SidecarEvent;
use audpro::stream::{SidecarStream, StreamInput, StreamOutput};

fn describe(outputs: Vec<StreamOutput>) -> Vec<String> {
    outputs
        .into_iter()
        .map(|o| match o {
            StreamOutput::Line(l) => format!("line:{l}"),
            StreamOutput::Event(SidecarEvent::Error { stage, message }) => {
                format!("error:{}:{message}", stage.unwrap_or_default())
            }
            StreamOutput::Event(_) => "other".to_string(),
        })
        .collect()
}

fn follow(inputs: Vec<StreamInput>) -> Vec<String> {
    let mut stream = SidecarStream::new();
    let mut shown = Vec::new();
    for input in inputs {
        shown.extend(describe(stream.step(input)));
    }
    shown
}

#[test]
fn stream_lines_do_not_depend_on_chunking() {
    let whole = follow(vec![
        StreamInput::Stdout("{\"event\":\"READY\"}\n{\"a\":1}\r\n\ntail ".to_string()),
        StreamInput::Terminated(Some(0)),
    ]);
    let pieces = follow(vec![
        StreamInput::Stdout("{\"event\":\"RE".to_string()),
        StreamInput::Stderr("loading model\n".to_string()),
        StreamInput::Stdout("ADY\"}\n{\"a\"".to_string()),
        StreamInput::Stdout(":1}\r".to_string()),
        StreamInput::Stdout("\n\ntail ".to_string()),
        StreamInput::Terminated(Some(0)),
    ]);
    let expected = vec![
        "line:{\"event\":\"READY\"}".to_string(),
        "line:{\"a\":1}".to_string(),
        "line:tail".to_string(),
    ];
    assert_eq!(whole, expected);
    assert_eq!(pieces, expected);
}

#[test]
fn stream_exit_code_and_after_exit() {
    let mut stream = SidecarStream::new();
    assert!(!stream.is_finished());
    assert!(stream.step(StreamInput::Stdout("partial".to_string())).len() == 0);
    let shown = describe(stream.step(StreamInput::Terminated(Some(-3))));
    assert_eq!(
        shown,
        vec!["line:partial".to_string(), "error::Sidecar exited with code -3".to_string()]
    );
    assert!(stream.is_finished());
    assert!(stream.step(StreamInput::Stdout("late\n".to_string())).is_empty());
    assert!(stream.step(StreamInput::Terminated(Some(1))).is_empty());
}

#[test]
fn stream_transport_error_and_blank_rest() {
    let shown = follow(vec![
        StreamInput::Failure("pipe closed".to_string()),
        StreamInput::Stdout("  \t".to_string()),
        StreamInput::Terminated(None),
    ]);
    assert_eq!(shown, vec!["error::Sidecar transport error: pipe closed".to_string()]);
}

#[test]
fn stream_stderr_shows_nothing() {
    let shown = follow(vec![
        StreamInput::Stderr("warning\n".to_string()),
        StreamInput::Terminated(Some(0)),
    ]);
    assert!(shown.is_empty());
}
