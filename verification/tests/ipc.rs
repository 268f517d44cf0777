use embedded_video::ipc::{
    cycle_pause_request, data_text, escape, get_property_request, keypress_request, request_line,
    waits_on, ReadStep, Reply, REPLY_TIMEOUT_MS, RETRY_DELAY_MS,
};

#[test]
fn requests_are_json() {
    assert_eq!(get_property_request("time-pos"), "{\"command\":[\"get_property\",\"time-pos\"]}");
    assert_eq!(cycle_pause_request(), "{\"command\":[\"cycle\",\"pause\"]}");
    assert_eq!(keypress_request("shift+LEFT"), "{\"command\":[\"keypress\",\"shift+LEFT\"]}");
}

#[test]
fn requests_take_a_line() {
    assert_eq!(request_line("{}"), "{}\n");
}

#[test]
fn quotes_and_backslashes_are_escaped() {
    assert_eq!(escape("\""), "\\\"");
    assert_eq!(escape("\\"), "\\\\");
    assert_eq!(escape("a\\\"b"), "a\\\\\\\"b");
    assert_eq!(escape("\u{e9}"), "\u{e9}");
    assert_eq!(escape(""), "");
    assert_eq!(keypress_request("\""), "{\"command\":[\"keypress\",\"\\\"\"]}");
}

#[test]
fn escapes_are_those_of_two_replacements() {
    for s in ["", "x", "\\\"", "\"\\", "\\\\\"\"", "a\"b\\c\"", "\u{1f3b5}\\"] {
        assert_eq!(escape(s), s.replace('\\', "\\\\").replace('"', "\\\""));
    }
}

#[test]
fn a_value_is_read_from_a_reply() {
    let reply = "{\"data\":12.345000,\"request_id\":0,\"error\":\"success\"}\n";
    assert_eq!(data_text(reply), Some("12.345000".to_string()));
    assert_eq!(data_text("{\"error\":\"success\",\"data\": 7 }"), Some("7".to_string()));
    assert_eq!(data_text("{\"data\":null}"), Some("null".to_string()));
    assert_eq!(data_text("\"data\":\t5.5 "), Some("5.5".to_string()));
    assert_eq!(data_text("\"data\":"), Some("".to_string()));
}

#[test]
fn the_first_value_counts() {
    assert_eq!(data_text("\"dat\"data\":1,\"data\":2}"), Some("1".to_string()));
}

#[test]
fn a_reply_without_a_value_has_none() {
    assert_eq!(data_text("{\"error\":\"property unavailable\"}"), None);
    assert_eq!(data_text(""), None);
    assert_eq!(data_text("\"data\""), None);
}

#[test]
fn a_reply_ends_with_its_line() {
    let mut reply = Reply::new();
    assert_eq!(reply.on_read(Some(b"{\"da")), ReadStep::Again);
    assert_eq!(reply.on_read(None), ReadStep::Wait);
    assert_eq!(reply.on_read(Some(b"ta\":1}\n")), ReadStep::Done);
    assert_eq!(reply.text(), Some("{\"data\":1}\n".to_string()));
}

#[test]
fn a_reply_ends_with_the_stream() {
    let mut reply = Reply::new();
    assert_eq!(reply.on_read(Some(b"abc")), ReadStep::Again);
    assert_eq!(reply.on_read(Some(b"")), ReadStep::Done);
    assert_eq!(reply.text(), Some("abc".to_string()));
    assert_eq!(Reply::new().text(), Some(String::new()));
}

#[test]
fn a_reply_that_is_no_text_has_none() {
    let mut reply = Reply::new();
    assert_eq!(reply.on_read(Some(b"\xff\n")), ReadStep::Done);
    assert_eq!(reply.text(), None);
}

#[test]
fn replies_are_waited_for_briefly() {
    assert_eq!((REPLY_TIMEOUT_MS, RETRY_DELAY_MS), (200, 10));
    assert!(waits_on(0));
    assert!(waits_on(199));
    assert!(!waits_on(200));
    assert!(!waits_on(u64::MAX));
}

#[test]
fn a_reply_is_all_that_was_read() {
    let line = b"{\"data\":12.5,\"error\":\"success\"}\n";
    for size in 1..=line.len() {
        let mut reply = Reply::new();
        let mut read = 0;
        for chunk in line.chunks(size) {
            assert_eq!(reply.on_read(None), ReadStep::Wait);
            read += chunk.len();
            let done = read == line.len();
            let step = if done { ReadStep::Done } else { ReadStep::Again };
            assert_eq!(reply.on_read(Some(chunk)), step);
        }
        assert_eq!(reply.text().unwrap().as_bytes(), line);
    }
}
