use hive_search::log_reader::{
    match_line, match_lines, parse_port, ClientChange, LogParseError, LogPollMemory,
};

fn bytes(s: &str) -> Vec<u8> {
    s.as_bytes().to_vec()
}

fn lines(ls: &[&str]) -> Vec<Vec<u8>> {
    let mut v = Vec::new();
    for l in ls {
        v.push(bytes(l));
    }
    v
}

const START_LINE: &str = "[12:34:56] [main/INFO]: Started serving on 25565";
const STOP_LINE: &str =
    "[12:34:56] [Server thread/INFO]: Stopping singleplayer server as player logged out";

#[test]
fn start_line_yields_started_hosting() {
    let r = match_line(&bytes(START_LINE));
    assert_eq!(r, Ok(Some(ClientChange::StartedHosting(25565))));
}

#[test]
fn stop_line_yields_stopped_hosting() {
    let r = match_line(&bytes(STOP_LINE));
    assert_eq!(r, Ok(Some(ClientChange::StoppedHosting)));
}

#[test]
fn ordinary_lines_yield_nothing() {
    assert_eq!(match_line(&bytes("")), Ok(None));
    assert_eq!(
        match_line(&bytes("[12:34:56] [main/INFO]: Loaded 7 advancements")),
        Ok(None)
    );
    // a phrase without the leading clock stamp does not count
    assert_eq!(
        match_line(&bytes("[main/INFO]: Started serving on 25565")),
        Ok(None)
    );
    // a stamp whose clock positions hold a newline does not count
    assert_eq!(
        match_line(&bytes("[12\n34:56] [main/INFO]: Started serving on 25565")),
        Ok(None)
    );
}

#[test]
fn stop_phrase_is_found_anywhere_in_the_line() {
    let mut line = bytes("prefix ");
    line.extend_from_slice(STOP_LINE.as_bytes());
    assert_eq!(match_line(&line), Ok(Some(ClientChange::StoppedHosting)));
}

#[test]
fn unparsable_port_is_an_error() {
    let r = match_line(&bytes("[12:34:56] [main/INFO]: Started serving on notaport"));
    assert_eq!(r, Err(LogParseError::BadPort));
    let r = match_line(&bytes("[12:34:56] [main/INFO]: Started serving on 99999"));
    assert_eq!(r, Err(LogParseError::BadPort));
    let r = match_line(&bytes("[12:34:56] [main/INFO]: Started serving on "));
    assert_eq!(r, Err(LogParseError::BadPort));
    // the start phrase found later in the line leaves no port at offset 43
    let mut line = bytes("prefix ");
    line.extend_from_slice(START_LINE.as_bytes());
    assert_eq!(match_line(&line), Err(LogParseError::BadPort));
}

#[test]
fn port_parsing_follows_the_standard_parser() {
    assert_eq!(parse_port(&bytes("25565"), 0), Some(25565));
    assert_eq!(parse_port(&bytes("+25565"), 0), Some(25565));
    assert_eq!(parse_port(&bytes("007"), 0), Some(7));
    assert_eq!(parse_port(&bytes("65535"), 0), Some(65535));
    assert_eq!(parse_port(&bytes("65536"), 0), None);
    assert_eq!(parse_port(&bytes("184467440737095516150"), 0), None);
    assert_eq!(parse_port(&bytes(""), 0), None);
    assert_eq!(parse_port(&bytes("+"), 0), None);
    assert_eq!(parse_port(&bytes("25 65"), 0), None);
    assert_eq!(parse_port(&bytes("-1"), 0), None);
    assert_eq!(parse_port(&bytes("xx25565"), 2), Some(25565));
}

#[test]
fn last_match_wins_within_one_scan() {
    // A start line followed by a stop line in one poll cycle yields only
    // the stop notice.
    let r = match_lines(&lines(&[START_LINE, STOP_LINE]));
    assert_eq!(r, Ok(Some(ClientChange::StoppedHosting)));

    let r = match_lines(&lines(&[STOP_LINE, "noise", START_LINE]));
    assert_eq!(r, Ok(Some(ClientChange::StartedHosting(25565))));

    let r = match_lines(&lines(&["noise", "more noise"]));
    assert_eq!(r, Ok(None));

    let r = match_lines(&lines(&[]));
    assert_eq!(r, Ok(None));
}

#[test]
fn a_bad_line_fails_the_whole_scan() {
    let r = match_lines(&lines(&[
        "[12:34:56] [main/INFO]: Started serving on nope",
        STOP_LINE,
    ]));
    assert_eq!(r, Err(LogParseError::BadPort));
}

#[test]
fn growth_from_empty_emits_the_new_event() {
    // The file grows from empty to holding a start line: the next poll
    // reports StartedHosting(25565).
    let mut mem = LogPollMemory::new();
    assert_eq!(mem.read_offset(0), 0);
    let r = mem.record(0, &lines(&[]), 0);
    assert!(!r.truncation_stop);
    assert_eq!(r.scanned, Ok(None));

    let size = START_LINE.len() as u64 + 1;
    assert_eq!(mem.read_offset(size), 0);
    let r = mem.record(size, &lines(&[START_LINE]), size);
    assert!(!r.truncation_stop);
    assert_eq!(r.scanned, Ok(Some(ClientChange::StartedHosting(25565))));

    // nothing new: the next poll reads from the recorded end and sees nothing
    assert_eq!(mem.read_offset(size), size);
    let r = mem.record(size, &lines(&[]), size);
    assert!(!r.truncation_stop);
    assert_eq!(r.scanned, Ok(None));
}

#[test]
fn shrink_to_zero_emits_stop_and_resets_the_cursor() {
    let mut mem = LogPollMemory::new();
    let size = START_LINE.len() as u64 + 1;
    mem.record(size, &lines(&[START_LINE]), size);

    // the file shrank to nothing: an immediate stop notice, cursor to 0
    let r = mem.record(0, &lines(&[]), 0);
    assert!(r.truncation_stop);
    assert_eq!(r.scanned, Ok(None));
    assert_eq!(mem.read_offset(0), 0);

    // the fresh session's lines are read from the start again
    let r = mem.record(size, &lines(&[START_LINE]), size);
    assert!(!r.truncation_stop);
    assert_eq!(r.scanned, Ok(Some(ClientChange::StartedHosting(25565))));
}

#[test]
fn shrink_to_smaller_content_rescans_from_the_start() {
    let mut mem = LogPollMemory::new();
    mem.record(1000, &lines(&["noise"]), 1000);
    assert_eq!(mem.read_offset(90), 0);
    let r = mem.record(90, &lines(&[STOP_LINE]), 90);
    assert!(r.truncation_stop);
    assert_eq!(r.scanned, Ok(Some(ClientChange::StoppedHosting)));
    assert_eq!(mem.read_offset(90), 90);
}
