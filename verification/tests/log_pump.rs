use phone_control::log_pump::{line_text, unterminated_text, LogPump};

fn text(lines: Vec<Vec<u8>>) -> Vec<String> {
    lines
        .into_iter()
        .map(|l| String::from_utf8(l).unwrap())
        .collect()
}

#[test]
fn lines_come_out_when_they_are_complete() {
    let mut pump = LogPump::new();
    assert!(text(pump.push(b"INFO: De")).is_empty());
    assert_eq!(text(pump.push(b"vice\nWARN")), ["INFO: Device\n"]);
    assert_eq!(text(pump.push(b"\n\nx")), ["WARN\n", "\n"]);
    assert_eq!(pump.finish(), Some(b"x".to_vec()));
}

#[test]
fn nothing_is_left_after_a_final_line_feed() {
    let mut pump = LogPump::new();
    assert_eq!(text(pump.push(b"a\n")), ["a\n"]);
    assert_eq!(pump.finish(), None);
}

#[test]
fn chunk_boundaries_do_not_matter() {
    let output = b"one\ntwo\nthree\n\nfour";
    let mut whole = LogPump::new();
    let expected = whole.push(output);
    for cut in 0..=output.len() {
        let mut pump = LogPump::new();
        let mut lines = pump.push(&output[..cut]);
        lines.extend(pump.push(&output[cut..]));
        assert_eq!(lines, expected);
        assert_eq!(pump.finish(), Some(b"four".to_vec()));
    }
}

#[test]
fn an_endless_line_is_dropped() {
    let mut pump = LogPump::new();
    assert!(pump.push(&vec![b'x'; 1024 * 1024]).is_empty());
    assert!(pump.push(b"y").is_empty());
    assert_eq!(text(pump.push(b"z\n")), ["z\n"]);
    let mut at_limit = LogPump::new();
    at_limit.push(&vec![b'x'; 1024 * 1024]);
    assert_eq!(at_limit.finish().unwrap().len(), 1024 * 1024);
}

#[test]
fn printed_lines_name_device_and_stream() {
    assert_eq!(
        line_text("S1", "stdout", "INFO: x\n"),
        "[SCRCPY-SERVER][S1][stdout] INFO: x\n"
    );
    assert_eq!(
        unterminated_text("S1", "stderr", "Abort"),
        "[SCRCPY-SERVER][S1][stderr] (unterminated) Abort\n"
    );
}
