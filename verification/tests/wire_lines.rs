use pane_output_stream::wire::OutputFrame;

fn output(bytes: &[u8]) -> String {
    OutputFrame::Output { seq: 42, bytes: bytes.to_vec() }.to_line()
}

#[test]
fn every_frame_has_its_line() {
    let started = OutputFrame::StreamStarted { pane_id: "wG:p1".to_owned(), cols: 211, rows: 66 };
    assert_eq!(
        started.to_line(),
        "{\"cols\":211,\"pane_id\":\"wG:p1\",\"rows\":66,\"type\":\"stream_started\"}\n"
    );
    let repaint = OutputFrame::Repaint { ansi: "\u{1b}[1mé".to_owned(), cols: 211, rows: 66 };
    assert_eq!(
        repaint.to_line(),
        "{\"cols\":211,\"data\":\"G1sxbcOp\",\"rows\":66,\"type\":\"repaint\"}\n"
    );
    assert_eq!(output(b"hi"), "{\"data\":\"aGk=\",\"seq\":42,\"type\":\"output\"}\n");
    let resized = OutputFrame::Resized { cols: 180, rows: 50 };
    assert_eq!(resized.to_line(), "{\"cols\":180,\"rows\":50,\"type\":\"resized\"}\n");
    assert_eq!(OutputFrame::Lag.to_line(), "{\"dropped\":true,\"type\":\"lag\"}\n");
    assert_eq!(OutputFrame::Closed.to_line(), "{\"reason\":\"pane_exited\",\"type\":\"closed\"}\n");
    let error = OutputFrame::Error { message: "unknown pane".to_owned() };
    assert_eq!(error.to_line(), "{\"message\":\"unknown pane\",\"type\":\"error\"}\n");
}

#[test]
fn data_is_padded_standard_base64() {
    for (bytes, text) in [
        (&b""[..], ""),
        (b"f", "Zg=="),
        (b"fo", "Zm8="),
        (b"foo", "Zm9v"),
        (b"foob", "Zm9vYg=="),
        (b"fooba", "Zm9vYmE="),
        (b"foobar", "Zm9vYmFy"),
        (b"\xfb\xff\xbf", "+/+/"),
    ] {
        assert_eq!(output(bytes), format!("{{\"data\":\"{}\",\"seq\":42,\"type\":\"output\"}}\n", text));
    }
}

#[test]
fn a_line_holds_one_line_feed() {
    let started = OutputFrame::StreamStarted { pane_id: "a\nb\r\"\\".to_owned(), cols: 0, rows: 0 };
    let line = started.to_line();
    assert_eq!(line.matches('\n').count(), 1);
    assert!(line.ends_with('\n'));
    let frame: serde_json::Value = serde_json::from_str(&line).unwrap();
    assert_eq!(frame["pane_id"], "a\nb\r\"\\");
    assert_eq!(output(b"one\ntwo\n").matches('\n').count(), 1);
}

#[test]
fn lines_in_a_row_read_back_as_the_frames() {
    let text = [
        OutputFrame::Lag.to_line(),
        output(b"\n"),
        OutputFrame::Error { message: "a\nb".to_owned() }.to_line(),
    ]
    .concat();
    let kinds: Vec<String> = text
        .lines()
        .map(|line| {
            let frame: serde_json::Value = serde_json::from_str(line).unwrap();
            frame["type"].as_str().unwrap().to_owned()
        })
        .collect();
    assert_eq!(kinds, vec!["lag", "output", "error"]);
    assert!(text.ends_with('\n'));
}

#[test]
fn different_frames_have_different_lines() {
    let lines: Vec<String> = vec![
        output(b""),
        output(b"\0"),
        output(b"\0\0"),
        OutputFrame::Output { seq: 43, bytes: Vec::new() }.to_line(),
        OutputFrame::Output { seq: u64::MAX, bytes: Vec::new() }.to_line(),
        OutputFrame::Resized { cols: 1, rows: 2 }.to_line(),
        OutputFrame::Resized { cols: 2, rows: 1 }.to_line(),
        OutputFrame::Repaint { ansi: String::new(), cols: 1, rows: 2 }.to_line(),
        OutputFrame::Lag.to_line(),
        OutputFrame::Closed.to_line(),
    ];
    for i in 0..lines.len() {
        for j in 0..i {
            assert_ne!(lines[i], lines[j]);
        }
    }
}
