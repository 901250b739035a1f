use bnetchat::framing::{frame_command, LineReader, ReadOutcome, ReaderStep};
use bnetchat::protocol::{decode, CodeTable, Event};

fn s(text: &str) -> String {
    text.to_string()
}

#[test]
fn line_cut_in_two_comes_out_once() {
    let table = CodeTable::standard();
    let mut reader = LineReader::new();
    let first = reader.push(b"1002 X Al");
    assert!(first.is_empty());
    assert_eq!(reader.pending_len(), 9);
    let second = reader.push(b"ice\r\n");
    assert_eq!(second, vec![s("1002 X Alice")]);
    assert_eq!(reader.pending_len(), 0);
    let events: Vec<Event> = second.iter().map(|line| decode(line, &table)).collect();
    assert_eq!(events, vec![Event::Joined { user: s("Alice") }]);
}

#[test]
fn several_lines_in_one_read_come_out_in_order() {
    let mut reader = LineReader::new();
    let lines = reader.push(b"1002 X A\r\n1002 X B\r\n\r\n1003 X A\r\n1005 X B h");
    assert_eq!(lines, vec![s("1002 X A"), s("1002 X B"), s("1003 X A")]);
    assert_eq!(reader.pending_len(), 10);
}

#[test]
fn break_cut_between_its_two_bytes() {
    let mut reader = LineReader::new();
    assert!(reader.push(b"abc\r").is_empty());
    assert_eq!(reader.push(b"\ndef"), vec![s("abc")]);
    assert_eq!(reader.pending_len(), 3);
    assert_eq!(reader.push(b"\r\n"), vec![s("def")]);
}

#[test]
fn lone_carriage_return_or_line_feed_is_no_break() {
    let mut reader = LineReader::new();
    assert_eq!(reader.push(b"a\rb\nc\n\rd\r\n"), vec![s("a\rb\nc\n\rd")]);
}

#[test]
fn any_cut_gives_the_same_lines() {
    let data: &[u8] = b"1002 X A\r\n\r\n1005 X A hi there\r\n1003 X A\r\nrest";
    let mut whole = LineReader::new();
    let expected = whole.push(data);
    assert_eq!(expected.len(), 3);
    for cut in 0..=data.len() {
        let mut reader = LineReader::new();
        let mut lines = reader.push(&data[..cut]);
        lines.extend(reader.push(&data[cut..]));
        assert_eq!(lines, expected);
        assert_eq!(reader.pending_len(), 4);
    }
}

#[test]
fn character_cut_in_two_is_put_together() {
    let text = "1005 X Zoë grüße\r\n".as_bytes();
    let mut reader = LineReader::new();
    assert!(reader.push(&text[..10]).is_empty());
    assert_eq!(reader.push(&text[10..]), vec![s("1005 X Zoë grüße")]);
}

#[test]
fn line_that_is_not_utf8_is_dropped_and_reading_goes_on() {
    let mut reader = LineReader::new();
    let lines = reader.push(b"good\r\nb\xffd\r\nfine\r\n");
    assert_eq!(lines, vec![s("good"), s("fine")]);
}

#[test]
fn reader_resumes_with_bytes_left_from_before() {
    let mut reader = LineReader::resume(b"1002 X Al".to_vec());
    assert_eq!(reader.pending_len(), 9);
    assert_eq!(reader.push(b"ice\r\n"), vec![s("1002 X Alice")]);
}

#[test]
fn data_yields_lines_and_reading_goes_on() {
    let mut reader = LineReader::new();
    let step = reader.on_read(&ReadOutcome::Data(b"1002 X A\r\n10".to_vec()));
    assert_eq!(step, ReaderStep { lines: vec![s("1002 X A")], finished: false });
    assert_eq!(reader.pending_len(), 2);
}

#[test]
fn idle_read_yields_nothing() {
    let mut reader = LineReader::resume(b"ab".to_vec());
    let step = reader.on_read(&ReadOutcome::Idle);
    assert_eq!(step, ReaderStep { lines: vec![], finished: false });
    assert_eq!(reader.pending_len(), 2);
}

#[test]
fn closed_connection_is_reported_once_and_ends_reading() {
    let table = CodeTable::standard();
    let mut reader = LineReader::new();
    let step = reader.on_read(&ReadOutcome::Closed);
    assert_eq!(
        step,
        ReaderStep { lines: vec![s("1019 ERROR Connection closed by server")], finished: true }
    );
    assert_eq!(
        decode(&step.lines[0], &table),
        Event::Error { text: s("Connection closed by server") }
    );
}

#[test]
fn failed_read_is_reported_once_and_ends_reading() {
    let table = CodeTable::standard();
    let mut reader = LineReader::new();
    let step = reader.on_read(&ReadOutcome::Failed(s("connection reset")));
    assert_eq!(
        step,
        ReaderStep { lines: vec![s("1019 ERROR Read error: connection reset")], finished: true }
    );
    assert_eq!(
        decode(&step.lines[0], &table),
        Event::Error { text: s("Read error: connection reset") }
    );
}

#[test]
fn command_is_framed_with_a_line_break() {
    assert_eq!(frame_command("/w Bob hi"), s("/w Bob hi\r\n"));
    assert_eq!(frame_command(""), s("\r\n"));
}
