use dlrunner::events::Emission;
use dlrunner::stream::StderrStream;
use dlrunner::stream::StdoutStream;

fn feed_stdout(label: &str, bytes: &[u8]) -> Vec<Emission> {
    let mut s = StdoutStream::new(label.to_string());
    s.feed(&bytes.to_vec())
}

fn stdout_lines(evs: &[Emission]) -> Vec<String> {
    let mut out = Vec::new();
    for e in evs {
        if let Emission::Stdout { line, .. } = e {
            out.push(line.clone());
        }
    }
    out
}

fn stderr_lines(evs: &[Emission]) -> Vec<String> {
    let mut out = Vec::new();
    for e in evs {
        if let Emission::Stderr { line, .. } = e {
            out.push(line.clone());
        }
    }
    out
}

#[test]
fn newline_and_carriage_return_both_frame() {
    let evs = feed_stdout("job", b"one\rtwo\nthree\r");
    assert_eq!(stdout_lines(&evs), vec!["one", "two", "three"]);
}

#[test]
fn consecutive_delimiters_emit_no_empty_line() {
    let evs = feed_stdout("job", b"a\r\nb\n\nc\r\rd\n");
    assert_eq!(stdout_lines(&evs), vec!["a", "b", "c", "d"]);
}

#[test]
fn trailing_unterminated_fragment_is_dropped() {
    let evs = feed_stdout("job", b"abc\ndef");
    assert_eq!(stdout_lines(&evs), vec!["abc"]);
}

#[test]
fn whitespace_only_run_emits_nothing() {
    let evs = feed_stdout("job", b"   \n\t\r  ok  \n");
    assert_eq!(stdout_lines(&evs), vec!["ok"]);
    assert_eq!(evs.len(), 1);
}

#[test]
fn lines_are_trimmed() {
    let evs = feed_stdout("job", b"  padded line \n");
    assert_eq!(stdout_lines(&evs), vec!["padded line"]);
}

#[test]
fn stdout_channel_is_label_suffixed() {
    let evs = feed_stdout("win1", b"hello\n");
    match &evs[0] {
        Emission::Stdout { channel, line } => {
            assert_eq!(channel, "win1-stdout");
            assert_eq!(line, "hello");
        }
        _ => panic!("expected a stdout emission"),
    }
}

#[test]
fn destination_line_emits_title_then_stdout() {
    let evs = feed_stdout("w", b"[download] Destination: /tmp/My Video [abc123].mp4\n");
    assert_eq!(evs.len(), 2);
    match &evs[0] {
        Emission::Title { channel, title, window_title } => {
            assert_eq!(channel, "w-title");
            assert_eq!(title, "My Video");
            assert_eq!(window_title, "Downloading: My Video");
        }
        _ => panic!("expected a title emission first"),
    }
    match &evs[1] {
        Emission::Stdout { channel, line } => {
            assert_eq!(channel, "w-stdout");
            assert_eq!(line, "[download] Destination: /tmp/My Video [abc123].mp4");
        }
        _ => panic!("expected a stdout emission second"),
    }
}

#[test]
fn info_line_emits_no_title() {
    let evs = feed_stdout("w", b"[info] something unrelated\n");
    assert_eq!(evs.len(), 1);
    assert_eq!(stdout_lines(&evs), vec!["[info] something unrelated"]);
}

#[test]
fn invalid_utf8_on_stdout_is_replaced_not_dropped() {
    let evs = feed_stdout("w", b"ab\xFFcd\n");
    let lines = stdout_lines(&evs);
    assert_eq!(lines.len(), 1);
    assert_eq!(lines[0], "ab\u{FFFD}cd");
}

#[test]
fn multibyte_output_survives_byte_wise_feeding() {
    let mut s = StdoutStream::new("w".to_string());
    let mut evs = Vec::new();
    for b in "進捗 100%\n".as_bytes() {
        evs.extend(s.push_byte(*b));
    }
    assert_eq!(stdout_lines(&evs), vec!["進捗 100%"]);
}

#[test]
fn stderr_frames_on_newline_only() {
    let mut s = StderrStream::new("w".to_string());
    let mut evs = Vec::new();
    for b in b"warn\rstill one line\nnext\n" {
        evs.extend(s.push_byte(*b));
    }
    assert_eq!(stderr_lines(&evs), vec!["warn\rstill one line", "next"]);
}

#[test]
fn stderr_keeps_empty_lines_and_strips_crlf() {
    let mut s = StderrStream::new("w".to_string());
    let mut evs = Vec::new();
    for b in b"a\r\n\nb\n" {
        evs.extend(s.push_byte(*b));
    }
    assert_eq!(stderr_lines(&evs), vec!["a", "", "b"]);
}

#[test]
fn stderr_drops_invalid_utf8_line_only() {
    let mut s = StderrStream::new("w".to_string());
    let mut evs = Vec::new();
    for b in b"ok\n\xFF\xFE\nalso ok\n" {
        evs.extend(s.push_byte(*b));
    }
    assert_eq!(stderr_lines(&evs), vec!["ok", "also ok"]);
}

#[test]
fn stderr_trailing_fragment_is_emitted_on_finish() {
    let mut s = StderrStream::new("w".to_string());
    let mut evs = Vec::new();
    for b in b"a\ntail" {
        evs.extend(s.push_byte(*b));
    }
    evs.extend(s.finish());
    assert_eq!(stderr_lines(&evs), vec!["a", "tail"]);
    let channel = match &evs[0] {
        Emission::Stderr { channel, .. } => channel.clone(),
        _ => panic!("expected a stderr emission"),
    };
    assert_eq!(channel, "w-stderr");
}

#[test]
fn empty_stream_emits_nothing() {
    let evs = feed_stdout("w", b"");
    assert!(evs.is_empty());
    let mut s = StderrStream::new("w".to_string());
    assert!(s.finish().is_empty());
}
