use smoothie::sse::{SseParseResult, SseParserState};

fn timing(result: &SseParseResult) -> Option<f64> {
    result.terminal_timing_ms.map(|ms| f64::from_bits(ms.bits))
}

#[test]
fn counts_simple_data_lines() {
    let mut parser = SseParserState::new();
    let chunk = b"data: {\"content\":\"hello\"}\n\ndata: {\"content\":\"world\"}\n\n";
    let result = parser.feed(chunk);
    assert_eq!(result.new_tokens, 2);
    assert!(!result.stream_done);
    assert_eq!(parser.token_count(), 2);
}

#[test]
fn handles_done_marker() {
    let mut parser = SseParserState::new();
    let chunk = b"data: {\"content\":\"a\"}\n\ndata: [DONE]\n\n";
    let result = parser.feed(chunk);
    assert_eq!(result.new_tokens, 1);
    assert!(result.stream_done);
}

#[test]
fn handles_split_chunks() {
    let mut parser = SseParserState::new();

    // First chunk ends mid-line.
    let result1 = parser.feed(b"data: {\"con");
    assert_eq!(result1.new_tokens, 0);

    // Second chunk completes the line.
    let result2 = parser.feed(b"tent\":\"a\"}\n\n");
    assert_eq!(result2.new_tokens, 1);
    assert_eq!(parser.token_count(), 1);
}

#[test]
fn handles_crlf_line_endings() {
    let mut parser = SseParserState::new();
    let chunk = b"data: {\"content\":\"a\"}\r\n\r\ndata: [DONE]\r\n\r\n";
    let result = parser.feed(chunk);
    assert_eq!(result.new_tokens, 1);
    assert!(result.stream_done);
}

#[test]
fn ignores_non_data_lines() {
    let mut parser = SseParserState::new();
    let chunk = b"event: message\nid: 1\ndata: {\"content\":\"a\"}\n\n";
    let result = parser.feed(chunk);
    assert_eq!(result.new_tokens, 1);
}

#[test]
fn extracts_terminal_timing() {
    let mut parser = SseParserState::new();
    let chunk = b"data: {\"timings\":{\"predicted_per_token_ms\":42.5}}\n\ndata: [DONE]\n\n";
    let result = parser.feed(chunk);
    assert_eq!(result.new_tokens, 1);
    assert!(result.stream_done);
    assert!((timing(&result).unwrap() - 42.5).abs() < f64::EPSILON);
}

#[test]
fn no_terminal_timing_without_field() {
    let mut parser = SseParserState::new();
    let chunk = b"data: {\"content\":\"last\"}\n\ndata: [DONE]\n\n";
    let result = parser.feed(chunk);
    assert!(result.stream_done);
    assert!(result.terminal_timing_ms.is_none());
}

#[test]
fn multiple_feeds_accumulate_tokens() {
    let mut parser = SseParserState::new();
    parser.feed(b"data: {\"t\":1}\n\n");
    parser.feed(b"data: {\"t\":2}\n\n");
    parser.feed(b"data: {\"t\":3}\n\n");
    assert_eq!(parser.token_count(), 3);
    assert!(parser.first_token_seen());
}

#[test]
fn empty_chunk_is_harmless() {
    let mut parser = SseParserState::new();
    let result = parser.feed(b"");
    assert_eq!(result.new_tokens, 0);
    assert!(!result.stream_done);
}

#[test]
fn partial_line_across_three_chunks() {
    let mut parser = SseParserState::new();
    parser.feed(b"da");
    parser.feed(b"ta: {\"c\":\"");
    let result = parser.feed(b"x\"}\n\n");
    assert_eq!(parser.token_count(), 1);
    assert_eq!(result.new_tokens, 1);
}

#[test]
fn every_cut_parses_alike() {
    let body: &[u8] =
        b"id: 7\r\ndata: {\"a\":1}\r\n\r\ndata: [DONE] \ndata:x\ndata: \n\ndata: [DONE]\ndata: rest";
    let mut whole = SseParserState::new();
    let all = whole.feed(body);
    assert_eq!(all.new_tokens, 3);
    assert!(all.stream_done);
    for cut in 0..=body.len() {
        let mut parser = SseParserState::new();
        let first = parser.feed(&body[..cut]);
        let second = parser.feed(&body[cut..]);
        assert_eq!(first.new_tokens + second.new_tokens, all.new_tokens);
        assert_eq!(first.stream_done || second.stream_done, all.stream_done);
        assert_eq!(parser.token_count(), whole.token_count());
        assert_eq!(parser.first_token_seen(), whole.first_token_seen());
        assert_eq!(parser.partial_len(), whole.partial_len());
    }
    assert_eq!(whole.partial_len(), 10);
}

#[test]
fn first_token_is_seen_with_the_first_count() {
    let mut parser = SseParserState::new();
    assert!(!parser.first_token_seen());
    parser.feed(b"data: [DONE]\n");
    assert!(!parser.first_token_seen());
    assert_eq!(parser.token_count(), 0);
    parser.feed(b"data: \n");
    assert!(parser.first_token_seen());
    assert_eq!(parser.token_count(), 1);
}

#[test]
fn only_one_carriage_return_is_stripped() {
    let mut parser = SseParserState::new();
    let result = parser.feed(b"data: [DONE]\r\r\n");
    assert!(!result.stream_done);
    assert_eq!(result.new_tokens, 1);
}

#[test]
fn timing_comes_from_the_last_data_line() {
    let mut parser = SseParserState::new();
    let result = parser.feed(
        b"data: {\"timings\":{\"predicted_per_token_ms\":1}}\ndata: {\"timings\":{\"predicted_per_token_ms\":-2}}\r\n\ndata: [DONE]\n",
    );
    assert_eq!(result.new_tokens, 2);
    assert_eq!(timing(&result), Some(-2.0));
}

#[test]
fn timing_is_reported_with_an_end_marker_in_a_later_chunk() {
    let mut parser = SseParserState::new();
    let first = parser.feed(b"data: {\"timings\":{\"predicted_per_token_ms\":42.5}}\n\n");
    assert_eq!(first.new_tokens, 1);
    assert!(first.terminal_timing_ms.is_none());
    let between = parser.feed(b": keep-alive\n\n");
    assert!(between.terminal_timing_ms.is_none());
    let second = parser.feed(b"data: [DONE]\n\n");
    assert!(second.stream_done);
    assert_eq!(second.new_tokens, 0);
    assert_eq!(timing(&second), Some(42.5));
}

#[test]
fn every_cut_reports_the_timing_once() {
    let body: &[u8] =
        b"data: {\"a\":1}\r\n\r\ndata: {\"timings\":{\"predicted_per_token_ms\":42.5}}\n\ndata: [DONE]\n\n";
    for cut in 0..=body.len() {
        let mut parser = SseParserState::new();
        let first = parser.feed(&body[..cut]);
        let second = parser.feed(&body[cut..]);
        let (with_marker, other) = if first.stream_done {
            (first, second)
        } else {
            (second, first)
        };
        assert!(with_marker.stream_done && !other.stream_done);
        assert_eq!(timing(&with_marker), Some(42.5));
        assert!(other.terminal_timing_ms.is_none());
    }
}

#[test]
fn a_second_marker_reports_no_timing() {
    let timing_line: &[u8] = b"data: {\"timings\":{\"predicted_per_token_ms\":42.5}}\n\n";
    let marker: &[u8] = b"data: [DONE]\n\n";
    // Both in one chunk, then another marker.
    let mut parser = SseParserState::new();
    let mut both = timing_line.to_vec();
    both.extend_from_slice(marker);
    assert_eq!(timing(&parser.feed(&both)), Some(42.5));
    let again = parser.feed(marker);
    assert!(again.stream_done);
    assert_eq!(again.new_tokens, 0);
    assert!(again.terminal_timing_ms.is_none());
    // One after the other, then another marker.
    let mut parser = SseParserState::new();
    parser.feed(timing_line);
    assert_eq!(timing(&parser.feed(marker)), Some(42.5));
    assert!(parser.feed(b": comment\n").terminal_timing_ms.is_none());
    assert!(parser.feed(marker).terminal_timing_ms.is_none());
    // A new token line is reported again.
    parser.feed(timing_line);
    assert_eq!(timing(&parser.feed(marker)), Some(42.5));
}

#[test]
fn a_token_line_behind_the_marker_counts_in_its_chunk() {
    let mut parser = SseParserState::new();
    let result = parser.feed(
        b"data: [DONE]\ndata: {\"timings\":{\"predicted_per_token_ms\":42.5}}\n",
    );
    assert_eq!(timing(&result), Some(42.5));
}

#[test]
fn a_later_token_line_takes_the_place_of_the_timing_line() {
    let mut parser = SseParserState::new();
    parser.feed(b"data: {\"timings\":{\"predicted_per_token_ms\":42.5}}\n");
    parser.feed(b"data: {}\n");
    assert!(parser.feed(b"data: [DONE]\n").terminal_timing_ms.is_none());
}

#[test]
fn timing_survives_a_cut_inside_its_line() {
    let mut parser = SseParserState::new();
    parser.feed(b"data: {\"timings\":{\"predicted_per_tok");
    let result = parser.feed(b"en_ms\":42.5}}\n\ndata: [DONE]\n\n");
    assert_eq!(timing(&result), Some(42.5));
}

fn timing_of_payload(payload: &[u8]) -> Option<f64> {
    let mut chunk = b"data: ".to_vec();
    chunk.extend_from_slice(payload);
    chunk.extend_from_slice(b"\ndata: [DONE]\n");
    let mut parser = SseParserState::new();
    timing(&parser.feed(&chunk))
}

#[test]
fn timing_is_read_only_from_its_place() {
    assert_eq!(timing_of_payload(b"{\"timings\":{\"predicted_per_token_ms\":7}}"), Some(7.0));
    // Under another key.
    assert_eq!(timing_of_payload(b"{\"other\":{\"predicted_per_token_ms\":7}}"), None);
    assert_eq!(timing_of_payload(b"{\"predicted_per_token_ms\":7}"), None);
    // Not an object on the way.
    assert_eq!(timing_of_payload(b"{\"timings\":\"predicted_per_token_ms\"}"), None);
    assert_eq!(timing_of_payload(b"[\"timings\",\"predicted_per_token_ms\"]"), None);
    // Not a number.
    assert_eq!(timing_of_payload(b"{\"timings\":{\"predicted_per_token_ms\":\"7\"}}"), None);
    assert_eq!(timing_of_payload(b"{\"timings\":{\"predicted_per_token_ms\":null}}"), None);
    // Not JSON.
    assert_eq!(timing_of_payload(b"{\"timings\":{\"predicted_per_token_ms\":7}"), None);
    // Not UTF-8.
    assert_eq!(
        timing_of_payload(b"{\"x\":\"\xff\",\"timings\":{\"predicted_per_token_ms\":7}}"),
        None
    );
    // Text beyond ASCII is read.
    assert_eq!(
        timing_of_payload(
            "{\"x\":\"\u{e9}\u{20ac}\",\"timings\":{\"predicted_per_token_ms\":7.25}}".as_bytes()
        ),
        Some(7.25)
    );
    // Spelled with an escape, the field's name is not seen.
    assert_eq!(timing_of_payload(b"{\"timings\":{\"predicted_per_token_m\\u0073\":7}}"), None);
}

#[test]
fn timing_from_a_json_value() {
    let value: serde_json::Value =
        serde_json::from_str("{\"timings\":{\"predicted_per_token_ms\":12.5}}").unwrap();
    let bits = SseParserState::timing_from(&value).unwrap().bits;
    assert_eq!(f64::from_bits(bits), 12.5);
    assert!(SseParserState::timing_from(&serde_json::Value::Null).is_none());
}

#[test]
fn a_line_that_is_not_utf8_counts_but_carries_no_timing() {
    let mut parser = SseParserState::new();
    let mut body: Vec<u8> = b"data: {\"x\":\"".to_vec();
    body.push(0xff);
    body.extend_from_slice(b"\",\"timings\":{\"predicted_per_token_ms\":45.5}}\ndata: [DONE]\n");
    let r = parser.feed(&body);
    assert_eq!(r.new_tokens, 1);
    assert!(r.stream_done);
    assert!(r.terminal_timing_ms.is_none());
}
