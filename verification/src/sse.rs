//! Incremental parsing of server-sent events.
use crate::binary64::Binary64;
use crate::byte_search::{contains, same_bytes, starts_with};
use crate::json::{member, number_bits, parse_json};
use vstd::prelude::*;
use vstd::slice::{slice_subrange, slice_to_vec};
use vstd::string::StringSliceAdditionalSpecFns;

verus! {

/// The byte that ends a line.
pub const NEWLINE: u8 = 10;

/// The byte that may stand before the end of a line.
pub const CARRIAGE_RETURN: u8 = 13;

/// What a complete line means to the parser.
pub enum LineKind {
    /// Not a data line.
    Ignored,
    /// The end-of-stream marker.
    Done,
    /// A token-bearing data line.
    Token,
}

/// `data: `, which begins a data line.
pub open spec fn data_prefix() -> Seq<u8> {
    "data: ".spec_bytes()
}

/// `[DONE]`, the payload of the end-of-stream marker.
pub open spec fn done_marker() -> Seq<u8> {
    "[DONE]".spec_bytes()
}

/// A line without its optional trailing carriage return.
pub open spec fn without_cr(line: Seq<u8>) -> Seq<u8> {
    if line.len() > 0 && line.last() == CARRIAGE_RETURN {
        line.drop_last()
    } else {
        line
    }
}

/// The part of a data line behind its prefix.
pub open spec fn payload_of(line: Seq<u8>) -> Seq<u8> {
    line.skip(data_prefix().len() as int)
}

/// What a line means, read as it came, with or without a carriage return.
pub open spec fn kind_of(line: Seq<u8>) -> LineKind {
    let line = without_cr(line);
    if !data_prefix().is_prefix_of(line) {
        LineKind::Ignored
    } else if payload_of(line) == done_marker() {
        LineKind::Done
    } else {
        LineKind::Token
    }
}

/// The complete lines of `bytes`, without their newlines.
pub open spec fn complete_lines(bytes: Seq<u8>) -> Seq<Seq<u8>>
    decreases bytes.len(),
{
    if bytes.len() == 0 {
        seq![]
    } else if bytes.last() == NEWLINE {
        complete_lines(bytes.drop_last()).push(unfinished_line(bytes.drop_last()))
    } else {
        complete_lines(bytes.drop_last())
    }
}

/// What stands behind the last newline of `bytes`.
pub open spec fn unfinished_line(bytes: Seq<u8>) -> Seq<u8>
    decreases bytes.len(),
{
    if bytes.len() == 0 || bytes.last() == NEWLINE {
        seq![]
    } else {
        unfinished_line(bytes.drop_last()).push(bytes.last())
    }
}

/// The token-bearing lines among `lines`, in order, without carriage returns.
pub open spec fn token_lines(lines: Seq<Seq<u8>>) -> Seq<Seq<u8>>
    decreases lines.len(),
{
    if lines.len() == 0 {
        seq![]
    } else if kind_of(lines.last()) is Token {
        token_lines(lines.drop_last()).push(without_cr(lines.last()))
    } else {
        token_lines(lines.drop_last())
    }
}

/// Whether the end-of-stream marker is among `lines`.
pub open spec fn has_done(lines: Seq<Seq<u8>>) -> bool {
    exists|i: int| 0 <= i < lines.len() && kind_of(#[trigger] lines[i]) is Done
}

/// The token-bearing line that is held after `lines`: the last one, unless the
/// end-of-stream marker has followed it. Where there is neither, it is `held`.
pub open spec fn held_after(held: Option<Seq<u8>>, lines: Seq<Seq<u8>>) -> Option<Seq<u8>>
    decreases lines.len(),
{
    if lines.len() == 0 {
        held
    } else {
        match kind_of(lines.last()) {
            LineKind::Token => Some(without_cr(lines.last())),
            LineKind::Done => None,
            LineKind::Ignored => held_after(held, lines.drop_last()),
        }
    }
}

/// The timing that a data line carries: the number under `timings` and then
/// `predicted_per_token_ms` in its JSON payload. A line that is not UTF-8, or
/// whose payload does not hold the field's name, carries none.
pub open spec fn timing_in(line: Seq<u8>) -> Option<Binary64> {
    let payload = payload_of(line);
    if !data_prefix().is_prefix_of(line) || !vstd::utf8::valid_utf8(line)
        || !crate::byte_search::occurs_in("predicted_per_token_ms".spec_bytes(), payload) {
        None
    } else {
        timing_at(crate::json::parsed_json(vstd::utf8::decode_utf8(payload)))
    }
}

/// The timing that a JSON value carries.
pub open spec fn timing_at(value: Option<serde_json::Value>) -> Option<Binary64> {
    match value {
        None => None,
        Some(value) => match crate::json::json_member(value, "timings"@) {
            None => None,
            Some(timings) => match crate::json::json_member(timings, "predicted_per_token_ms"@) {
                None => None,
                Some(number) => match crate::json::json_number_bits(number) {
                    None => None,
                    Some(bits) => Some(Binary64 { bits }),
                },
            },
        },
    }
}

/// The parser as a mathematical value.
pub struct SseModel {
    /// The unfinished line.
    pub partial: Seq<u8>,
    pub token_count: nat,
    pub first_token_seen: bool,
    /// The last token-bearing line, without its carriage return, unless the
    /// end-of-stream marker has followed it.
    pub held_line: Option<Seq<u8>>,
}

impl SseModel {
    /// A parser that has been fed nothing.
    pub open spec fn fresh() -> Self {
        SseModel {
            partial: seq![],
            token_count: 0,
            first_token_seen: false,
            held_line: None,
        }
    }

    /// The lines that `chunk` completes.
    pub open spec fn lines_with(self, chunk: Seq<u8>) -> Seq<Seq<u8>> {
        complete_lines(self.partial + chunk)
    }

    /// The number of token-bearing lines that `chunk` completes.
    pub open spec fn tokens_with(self, chunk: Seq<u8>) -> nat {
        token_lines(self.lines_with(chunk)).len()
    }

    /// Whether `chunk` completes the end-of-stream marker.
    pub open spec fn done_with(self, chunk: Seq<u8>) -> bool {
        has_done(self.lines_with(chunk))
    }

    /// The timing that is reported with `chunk`, if it completes the
    /// end-of-stream marker: that of the last token-bearing line it completes
    /// or, where it completes none, of the line that is held from before.
    pub open spec fn timing_with(self, chunk: Seq<u8>) -> Option<Binary64> {
        if !self.done_with(chunk) {
            None
        } else if self.tokens_with(chunk) > 0 {
            timing_in(token_lines(self.lines_with(chunk)).last())
        } else {
            match self.held_line {
                Some(line) => timing_in(line),
                None => None,
            }
        }
    }

    /// The parser after `chunk`.
    pub open spec fn fed(self, chunk: Seq<u8>) -> Self {
        SseModel {
            partial: unfinished_line(self.partial + chunk),
            token_count: self.token_count + self.tokens_with(chunk),
            first_token_seen: self.first_token_seen || self.tokens_with(chunk) > 0,
            held_line: held_after(self.held_line, self.lines_with(chunk)),
        }
    }

    /// The parser after a sequence of chunks, first to last.
    pub open spec fn fed_all(self, chunks: Seq<Seq<u8>>) -> Self
        decreases chunks.len(),
    {
        if chunks.len() == 0 {
            self
        } else {
            self.fed_all(chunks.drop_last()).fed(chunks.last())
        }
    }

    /// A first token has been seen exactly where tokens have been counted, a line
    /// is held only there, and no newline waits in the unfinished line.
    pub open spec fn wf(self) -> bool {
        &&& self.first_token_seen <==> self.token_count > 0
        &&& self.held_line is Some ==> self.token_count > 0
        &&& !self.partial.contains(NEWLINE)
    }
}

/// Result of feeding a chunk to the parser.
#[derive(Debug, Clone, Copy)]
pub struct SseParseResult {
    /// Number of new token-bearing data lines seen in this chunk.
    pub new_tokens: u64,
    /// The `predicted_per_token_ms` of the terminal event, if it carried one.
    pub terminal_timing_ms: Option<Binary64>,
    /// Whether `data: [DONE]` was seen, indicating end of stream.
    pub stream_done: bool,
}

/// Incremental parser that handles arbitrary chunk boundaries.
///
/// Counts `data:` lines as token emissions without parsing their JSON, and
/// does one targeted parse on the terminal event for timing data.
#[derive(Debug)]
pub struct SseParserState {
    partial_line: Vec<u8>,
    token_count: u64,
    first_token_seen: bool,
    held_line: Option<Vec<u8>>,
}

impl View for SseParserState {
    type V = SseModel;

    closed spec fn view(&self) -> SseModel {
        SseModel {
            partial: self.partial_line@,
            token_count: self.token_count as nat,
            first_token_seen: self.first_token_seen,
            held_line: match self.held_line {
                Some(line) => Some(line@),
                None => None,
            },
        }
    }
}

/// `std::str::from_utf8`. The contract claims that it accepts exactly the
/// well-formed UTF-8 sequences and that the text decodes to them.
#[verifier::external_body]
fn utf8_text(bytes: &[u8]) -> (r: Option<&str>)
    ensures
        r is Some <==> vstd::utf8::valid_utf8(bytes@),
        r is Some ==> r->0@ == vstd::utf8::decode_utf8(bytes@),
{
    std::str::from_utf8(bytes).ok()
}

impl SseParserState {
    /// A parser that has been fed nothing.
    pub fn new() -> (r: Self)
        ensures
            r@ == SseModel::fresh(),
    {
        SseParserState {
            partial_line: Vec::new(),
            token_count: 0,
            first_token_seen: false,
            held_line: None,
        }
    }

    /// Total tokens observed across all feeds.
    pub fn token_count(&self) -> (r: u64)
        ensures
            r == self@.token_count,
    {
        self.token_count
    }

    /// Whether the first token has been seen.
    pub fn first_token_seen(&self) -> (r: bool)
        ensures
            r == self@.first_token_seen,
    {
        self.first_token_seen
    }

    /// The number of bytes of the unfinished line.
    pub fn partial_len(&self) -> (r: usize)
        ensures
            r == self@.partial.len(),
    {
        self.partial_line.len()
    }

    /// Feed a chunk of bytes from the response body.
    pub fn feed(&mut self, chunk: &[u8]) -> (r: SseParseResult)
        requires
            old(self)@.fed(chunk@).token_count <= u64::MAX,
        ensures
            final(self)@ == old(self)@.fed(chunk@),
            r.new_tokens == old(self)@.tokens_with(chunk@),
            r.stream_done == old(self)@.done_with(chunk@),
            r.terminal_timing_ms == old(self)@.timing_with(chunk@),
    {
        let mut new_tokens: u64 = 0;
        let mut stream_done: bool = false;
        let mut last_data_line: Option<Vec<u8>> = None;
        // Whether the last data line is not followed by the end marker.
        let mut pending: bool = false;

        // Prepend any partial line from the previous chunk.
        let mut data: Vec<u8> = Vec::new();
        std::mem::swap(&mut data, &mut self.partial_line);
        data.extend_from_slice(chunk);
        assert(data@ == old(self)@.partial + chunk@);

        let mut start: usize = 0;
        let mut i: usize = 0;
        assert(data@.take(0) =~= seq![]);
        while i < data.len()
            invariant
                start <= i <= data@.len(),
                self@.partial == Seq::<u8>::empty(),
                unfinished_line(data@.take(i as int)) == data@.subrange(start as int, i as int),
                new_tokens == token_lines(complete_lines(data@.take(i as int))).len(),
                new_tokens <= i,
                self@.token_count == old(self)@.token_count + new_tokens,
                old(self)@.token_count + token_lines(complete_lines(data@)).len() <= u64::MAX,
                self@.first_token_seen == (old(self)@.first_token_seen || new_tokens > 0),
                stream_done == has_done(complete_lines(data@.take(i as int))),
                self@.held_line == old(self)@.held_line,
                last_data_line is Some <==> new_tokens > 0,
                last_data_line is Some ==> last_data_line->0@ == token_lines(
                    complete_lines(data@.take(i as int)),
                ).last(),
                new_tokens > 0 ==> pending || stream_done,
                pending ==> new_tokens > 0,
                held_after(old(self)@.held_line, complete_lines(data@.take(i as int))) == if pending {
                    Some(token_lines(complete_lines(data@.take(i as int))).last())
                } else if stream_done {
                    None
                } else {
                    old(self)@.held_line
                },
            decreases data@.len() - i,
        {
            assert(data@.take(i + 1).drop_last() == data@.take(i as int));
            assert(data@.take(i + 1).last() == data@[i as int]);
            if data[i] == NEWLINE {
                let line: &[u8] = slice_subrange(data.as_slice(), start, i);
                let ghost before = complete_lines(data@.take(i as int));
                let ghost after = complete_lines(data@.take(i + 1));
                proof {
                    assert(after == before.push(line@));
                    assert(after.drop_last() == before);
                    assert(after.last() == line@);
                    lemma_tokens_grow(data@, i + 1);
                    lemma_has_done_push(before, line@);
                }
                self.process_line(
                    line,
                    &mut new_tokens,
                    &mut stream_done,
                    &mut last_data_line,
                    &mut pending,
                );
                start = i + 1;
                assert(data@.subrange(start as int, i + 1) =~= seq![]);
            } else {
                assert(data@.subrange(start as int, i + 1) =~= data@.subrange(
                    start as int,
                    i as int,
                ).push(data@[i as int]));
            }
            i = i + 1;
        }
        assert(data@.take(i as int) == data@);

        // Save any remaining bytes as a partial line.
        if start < data.len() {
            self.partial_line = slice_to_vec(slice_subrange(data.as_slice(), start, data.len()));
        }
        // On stream done, check the last data line for terminal timing.

        let mut terminal_timing_ms: Option<Binary64> = None;
        if stream_done {
            if let Some(line_bytes) = &last_data_line {
                terminal_timing_ms = Self::extract_terminal_timing(line_bytes.as_slice());
            } else if let Some(line_bytes) = &self.held_line {
                terminal_timing_ms = Self::extract_terminal_timing(line_bytes.as_slice());
            }
        }
        // Hold a data line that no marker has followed.

        if pending {
            self.held_line = last_data_line;
        } else if stream_done {
            self.held_line = None;
        }
        SseParseResult { new_tokens, terminal_timing_ms, stream_done }
    }

    /// Account for one complete line.
    fn process_line(
        &mut self,
        line: &[u8],
        new_tokens: &mut u64,
        stream_done: &mut bool,
        last_data_line: &mut Option<Vec<u8>>,
        pending: &mut bool,
    )
        requires
            kind_of(line@) is Token ==> old(self)@.token_count < u64::MAX && *old(new_tokens)
                < u64::MAX,
        ensures
            final(self)@.partial == old(self)@.partial,
            final(self)@.held_line == old(self)@.held_line,
            kind_of(line@) is Token ==> {
                &&& final(self)@.token_count == old(self)@.token_count + 1
                &&& final(self)@.first_token_seen
                &&& *final(new_tokens) == *old(new_tokens) + 1
                &&& *final(last_data_line) is Some
                &&& (*final(last_data_line))->0@ == without_cr(line@)
                &&& *final(pending)
            },
            !(kind_of(line@) is Token) ==> {
                &&& final(self)@ == old(self)@
                &&& *final(new_tokens) == *old(new_tokens)
                &&& *final(last_data_line) == *old(last_data_line)
                &&& *final(pending) == (*old(pending) && !(kind_of(line@) is Done))
            },
            *final(stream_done) == (*old(stream_done) || kind_of(line@) is Done),
    {
        // Strip optional \r for \r\n line endings.
        let mut end: usize = line.len();
        if end > 0 && line[end - 1] == CARRIAGE_RETURN {
            end = end - 1;
        }
        let stripped: &[u8] = slice_subrange(line, 0, end);
        assert(stripped@ == without_cr(line@));
        let prefix: &[u8] = "data: ".as_bytes();
        if !starts_with(stripped, prefix) {
            return ;
        }
        let payload: &[u8] = slice_subrange(stripped, prefix.len(), stripped.len());
        assert(payload@ == payload_of(stripped@));
        if same_bytes(payload, "[DONE]".as_bytes()) {
            *stream_done = true;
            *pending = false;
            return ;
        }
        // This is a token-bearing data line.

        *last_data_line = Some(slice_to_vec(stripped));
        *pending = true;
        self.token_count = self.token_count + 1;
        *new_tokens = *new_tokens + 1;
        self.first_token_seen = true;
    }

    /// The timing that a data line carries.
    fn extract_terminal_timing(line_bytes: &[u8]) -> (r: Option<Binary64>)
        ensures
            r == timing_in(line_bytes@),
    {
        let prefix: &[u8] = "data: ".as_bytes();
        if !starts_with(line_bytes, prefix) {
            return None;
        }
        let payload: &[u8] = slice_subrange(line_bytes, prefix.len(), line_bytes.len());
        assert(payload@ == payload_of(line_bytes@));
        proof {
            lemma_prefix_keeps_utf8(line_bytes@);
        }
        let text: &str = match utf8_text(payload) {
            Some(text) => text,
            None => return None,
        };
        // Only attempt a JSON parse if the line contains the timing field.
        if !contains(payload, "predicted_per_token_ms".as_bytes()) {
            return None;
        }
        match parse_json(text) {
            Some(value) => Self::timing_from(&value),
            None => None,
        }
    }

    /// The timing that a JSON value carries.
    pub fn timing_from(value: &serde_json::Value) -> (r: Option<Binary64>)
        ensures
            r == timing_at(Some(*value)),
    {
        let timings: &serde_json::Value = match member(value, "timings") {
            Some(timings) => timings,
            None => return None,
        };
        let number: &serde_json::Value = match member(timings, "predicted_per_token_ms") {
            Some(number) => number,
            None => return None,
        };
        match number_bits(number) {
            Some(bits) => Some(Binary64::from_bits(bits)),
            None => None,
        }
    }
}

/// A byte below 128 stands for itself: what follows it is UTF-8 exactly if the
/// whole is.
proof fn lemma_ascii_head(bytes: Seq<u8>)
    requires
        bytes.len() > 0,
        bytes[0] < 128,
    ensures
        vstd::utf8::valid_utf8(bytes) == vstd::utf8::valid_utf8(bytes.skip(1)),
{
    let head: u8 = bytes[0];
    assert(head & 0x7f == head) by (bit_vector)
        requires
            head < 128,
    ;
    assert(vstd::utf8::pop_first_scalar(bytes) == bytes.skip(1));
}

/// A data line is UTF-8 exactly if its payload is.
proof fn lemma_prefix_keeps_utf8(line: Seq<u8>)
    requires
        data_prefix().is_prefix_of(line),
    ensures
        vstd::utf8::valid_utf8(line) == vstd::utf8::valid_utf8(payload_of(line)),
{
    reveal_strlit("data: ");
    vstd::utf8::is_ascii_chars_encode_utf8("data: "@);
    let prefix = data_prefix();
    assert forall|i: int| 0 <= i < 6 implies line[i] < 128 by {
        assert(line[i] == prefix[i]);
    }
    lemma_ascii_head(line);
    lemma_ascii_head(line.skip(1));
    lemma_ascii_head(line.skip(1).skip(1));
    lemma_ascii_head(line.skip(1).skip(1).skip(1));
    lemma_ascii_head(line.skip(1).skip(1).skip(1).skip(1));
    lemma_ascii_head(line.skip(1).skip(1).skip(1).skip(1).skip(1));
    assert(payload_of(line) == line.skip(1).skip(1).skip(1).skip(1).skip(1).skip(1));
}

/// A longer prefix has at least as many token-bearing lines.
proof fn lemma_tokens_grow(bytes: Seq<u8>, n: int)
    requires
        0 <= n <= bytes.len(),
    ensures
        token_lines(complete_lines(bytes.take(n))).len() <= token_lines(
            complete_lines(bytes),
        ).len(),
    decreases bytes.len(),
{
    if n < bytes.len() {
        let shorter = bytes.drop_last();
        lemma_tokens_grow(shorter, n);
        assert(shorter.take(n) == bytes.take(n));
        if bytes.last() == NEWLINE {
            let line = unfinished_line(shorter);
            assert(complete_lines(bytes).drop_last() == complete_lines(shorter));
        }
    } else {
        assert(bytes.take(n) == bytes);
    }
}

/// A marker is among the lines with one more exactly if it was before or is the new one.
proof fn lemma_has_done_push(lines: Seq<Seq<u8>>, line: Seq<u8>)
    ensures
        has_done(lines.push(line)) == (has_done(lines) || kind_of(line) is Done),
{
    let more = lines.push(line);
    if has_done(lines) {
        let i = choose|i: int| 0 <= i < lines.len() && kind_of(#[trigger] lines[i]) is Done;
        assert(more[i] == lines[i]);
    }
    if kind_of(line) is Done {
        assert(more[lines.len() as int] == line);
    }
    if has_done(more) {
        let i = choose|i: int| 0 <= i < more.len() && kind_of(#[trigger] more[i]) is Done;
        if i < lines.len() {
            assert(lines[i] == more[i]);
        }
    }
}

/// Lines, each with its newline, one behind the other.
pub open spec fn joined(lines: Seq<Seq<u8>>) -> Seq<u8>
    decreases lines.len(),
{
    if lines.len() == 0 {
        seq![]
    } else {
        joined(lines.drop_last()) + lines.last().push(NEWLINE)
    }
}

/// Splitting loses nothing and splits everywhere: the lines with their newlines
/// and the unfinished line make up the bytes again, and none of them holds a
/// newline.
pub proof fn law_splitting_is_exact(bytes: Seq<u8>)
    ensures
        joined(complete_lines(bytes)) + unfinished_line(bytes) == bytes,
        !unfinished_line(bytes).contains(NEWLINE),
        forall|i: int|
            0 <= i < complete_lines(bytes).len() ==> !(#[trigger] complete_lines(
                bytes,
            )[i]).contains(NEWLINE),
    decreases bytes.len(),
{
    if bytes.len() > 0 {
        let shorter = bytes.drop_last();
        law_splitting_is_exact(shorter);
        let lines = complete_lines(shorter);
        let rest = unfinished_line(shorter);
        if bytes.last() == NEWLINE {
            assert(complete_lines(bytes).drop_last() == lines);
            assert(joined(lines) + rest.push(NEWLINE) == (joined(lines) + rest).push(NEWLINE));
            assert(bytes == shorter.push(NEWLINE));
        } else {
            assert(joined(lines) + rest.push(bytes.last()) == (joined(lines) + rest).push(
                bytes.last(),
            ));
            assert(bytes == shorter.push(bytes.last()));
            assert forall|i: int| 0 <= i < rest.push(bytes.last()).len() implies rest.push(
                bytes.last(),
            )[i] != NEWLINE by {
                if i < rest.len() {
                    assert(rest.contains(rest[i]));
                }
            }
        }
    }
}

/// Bytes without a newline are one unfinished line.
proof fn lemma_no_newline(bytes: Seq<u8>)
    requires
        !bytes.contains(NEWLINE),
    ensures
        complete_lines(bytes) == Seq::<Seq<u8>>::empty(),
        unfinished_line(bytes) == bytes,
    decreases bytes.len(),
{
    if bytes.len() > 0 {
        assert(bytes.contains(bytes.last()));
        assert forall|x: u8| bytes.drop_last().contains(x) implies bytes.contains(x) by {
            let i = choose|i: int|
                0 <= i < bytes.drop_last().len() && bytes.drop_last()[i] == x;
            assert(bytes[i] == x);
        }
        lemma_no_newline(bytes.drop_last());
        assert(bytes.drop_last().push(bytes.last()) == bytes);
    }
}

/// Only the unfinished line of the first part matters to how the rest splits.
proof fn lemma_split_in_two(a: Seq<u8>, b: Seq<u8>)
    ensures
        complete_lines(a + b) == complete_lines(a) + complete_lines(unfinished_line(a) + b),
        unfinished_line(a + b) == unfinished_line(unfinished_line(a) + b),
    decreases b.len(),
{
    let rest = unfinished_line(a);
    if b.len() == 0 {
        law_splitting_is_exact(a);
        lemma_no_newline(rest);
        assert(a + b == a);
        assert(rest + b == rest);
        assert(complete_lines(a) + Seq::<Seq<u8>>::empty() == complete_lines(a));
    } else {
        let shorter = b.drop_last();
        lemma_split_in_two(a, shorter);
        assert((a + b).drop_last() == a + shorter);
        assert((rest + b).drop_last() == rest + shorter);
        assert((a + b).last() == b.last());
        assert((rest + b).last() == b.last());
        if b.last() == NEWLINE {
            let line = unfinished_line(a + shorter);
            assert(complete_lines(a + b) == complete_lines(a + shorter).push(line));
            assert(complete_lines(rest + b) == complete_lines(rest + shorter).push(line));
        }
    }
}

/// Token-bearing lines of two parts are those of the first, then those of the second.
proof fn lemma_token_lines_of_two(a: Seq<Seq<u8>>, b: Seq<Seq<u8>>)
    ensures
        token_lines(a + b) == token_lines(a) + token_lines(b),
    decreases b.len(),
{
    if b.len() == 0 {
        assert(a + b == a);
        assert(token_lines(a) + Seq::<Seq<u8>>::empty() == token_lines(a));
    } else {
        lemma_token_lines_of_two(a, b.drop_last());
        assert((a + b).drop_last() == a + b.drop_last());
        assert((a + b).last() == b.last());
    }
}

/// The line held after two parts is that held after the second, from the first.
proof fn lemma_held_after_two(held: Option<Seq<u8>>, a: Seq<Seq<u8>>, b: Seq<Seq<u8>>)
    ensures
        held_after(held, a + b) == held_after(held_after(held, a), b),
    decreases b.len(),
{
    if b.len() == 0 {
        assert(a + b == a);
    } else {
        lemma_held_after_two(held, a, b.drop_last());
        assert((a + b).drop_last() == a + b.drop_last());
        assert((a + b).last() == b.last());
    }
}

/// Without a marker, the last token-bearing line is held.
proof fn lemma_held_without_marker(held: Option<Seq<u8>>, lines: Seq<Seq<u8>>)
    requires
        !has_done(lines),
    ensures
        held_after(held, lines) == if token_lines(lines).len() > 0 {
            Some(token_lines(lines).last())
        } else {
            held
        },
    decreases lines.len(),
{
    if lines.len() > 0 {
        lemma_has_done_push(lines.drop_last(), lines.last());
        assert(lines.drop_last().push(lines.last()) == lines);
        lemma_held_without_marker(held, lines.drop_last());
    }
}

/// A line is held only from before or from among the token-bearing lines.
proof fn lemma_held_was_counted(held: Option<Seq<u8>>, lines: Seq<Seq<u8>>)
    ensures
        held_after(held, lines) is Some ==> held is Some || token_lines(lines).len() > 0,
    decreases lines.len(),
{
    if lines.len() > 0 {
        lemma_held_was_counted(held, lines.drop_last());
    }
}

/// The marker is among two parts exactly if it is in one of them.
proof fn lemma_has_done_of_two(a: Seq<Seq<u8>>, b: Seq<Seq<u8>>)
    ensures
        has_done(a + b) == (has_done(a) || has_done(b)),
    decreases b.len(),
{
    if b.len() == 0 {
        assert(a + b == a);
    } else {
        lemma_has_done_of_two(a, b.drop_last());
        lemma_has_done_push(a + b.drop_last(), b.last());
        lemma_has_done_push(b.drop_last(), b.last());
        assert(a + b == (a + b.drop_last()).push(b.last()));
        assert(b == b.drop_last().push(b.last()));
    }
}

/// Chunk boundaries do not matter: feeding two chunks leaves the parser as
/// feeding both at once, the tokens reported add up, and the end of stream is
/// reported by one of the two exactly where it is reported for both.
///
/// So is the timing: the chunk that completes the marker reports what both at
/// once would, wherever the line that carries it was completed. Where the first
/// completes the marker, it does so unless the second brings another token.
pub proof fn law_chunk_boundaries_do_not_matter(m: SseModel, a: Seq<u8>, b: Seq<u8>)
    ensures
        m.fed(a).fed(b) == m.fed(a + b),
        m.tokens_with(a) + m.fed(a).tokens_with(b) == m.tokens_with(a + b),
        (m.done_with(a) || m.fed(a).done_with(b)) == m.done_with(a + b),
        !m.done_with(a) ==> m.fed(a).timing_with(b) == m.timing_with(a + b),
        m.done_with(a) && m.fed(a).tokens_with(b) == 0 ==> m.timing_with(a) == m.timing_with(a + b),
{
    let first = m.partial + a;
    assert(m.partial + (a + b) == first + b);
    lemma_split_in_two(first, b);
    lemma_token_lines_of_two(complete_lines(first), complete_lines(unfinished_line(first) + b));
    lemma_has_done_of_two(complete_lines(first), complete_lines(unfinished_line(first) + b));
    lemma_held_after_two(
        m.held_line,
        complete_lines(first),
        complete_lines(unfinished_line(first) + b),
    );
    if !m.done_with(a) {
        lemma_held_without_marker(m.held_line, m.lines_with(a));
    }
    let tokens_a = token_lines(m.lines_with(a));
    let tokens_b = token_lines(m.fed(a).lines_with(b));
    if tokens_b.len() > 0 {
        assert((tokens_a + tokens_b).last() == tokens_b.last());
    } else {
        assert(tokens_a + tokens_b == tokens_a);
    }
}

/// However a body is cut into chunks, the parser ends up as if it had been fed
/// the whole body at once.
pub proof fn law_any_cut_into_chunks_parses_alike(m: SseModel, chunks: Seq<Seq<u8>>)
    requires
        m.wf(),
    ensures
        m.fed_all(chunks) == m.fed(chunks.flatten()),
    decreases chunks.len(),
{
    chunks.lemma_flatten_and_flatten_alt_are_equivalent();
    if chunks.len() == 0 {
        lemma_no_newline(m.partial);
        assert(m.partial + chunks.flatten() == m.partial);
    } else {
        law_any_cut_into_chunks_parses_alike(m, chunks.drop_last());
        chunks.drop_last().lemma_flatten_and_flatten_alt_are_equivalent();
        law_chunk_boundaries_do_not_matter(m, chunks.drop_last().flatten(), chunks.last());
    }
}

/// A first token has been seen exactly where tokens have been counted, at
/// every point of a stream, and the unfinished line never holds a newline.
pub proof fn law_first_token_means_counted(m: SseModel, chunk: Seq<u8>)
    requires
        m.wf(),
    ensures
        m.fed(chunk).wf(),
        SseModel::fresh().wf(),
{
    law_splitting_is_exact(m.partial + chunk);
    lemma_held_was_counted(m.held_line, m.lines_with(chunk));
}

/// A timing is reported with one marker: after a chunk whose last line is the
/// marker, chunks report none until another token-bearing line comes.
pub proof fn law_a_second_marker_reports_no_timing(m: SseModel, a: Seq<u8>, b: Seq<u8>)
    requires
        m.lines_with(a).len() > 0,
        kind_of(m.lines_with(a).last()) is Done,
        m.fed(a).tokens_with(b) == 0,
    ensures
        m.fed(a).timing_with(b) is None,
        m.fed(a).fed(b).held_line is None,
{
    lemma_held_was_counted(m.fed(a).held_line, m.fed(a).lines_with(b));
}

/// A line that is not a data line, and the end marker, count as no token; any
/// other data line counts as one. A carriage return before the newline changes
/// nothing.
pub proof fn law_one_line_counts_at_most_once(line: Seq<u8>)
    requires
        !line.contains(NEWLINE),
    ensures
        SseModel::fresh().tokens_with(line.push(NEWLINE)) == if kind_of(line) is Token {
            1nat
        } else {
            0nat
        },
        SseModel::fresh().done_with(line.push(NEWLINE)) == (kind_of(line) is Done),
        line.len() == 0 || line.last() != CARRIAGE_RETURN ==> kind_of(line.push(CARRIAGE_RETURN))
            == kind_of(line),
{
    let empty = Seq::<Seq<u8>>::empty();
    let bytes = line.push(NEWLINE);
    lemma_no_newline(line);
    assert(SseModel::fresh().partial + bytes == bytes);
    assert(bytes.drop_last() == line);
    assert(complete_lines(bytes) == empty.push(line));
    assert(empty.push(line).drop_last() == empty);
    lemma_has_done_push(empty, line);
    assert(token_lines(empty).len() == 0);
    assert(line.push(CARRIAGE_RETURN).drop_last() == line);
}

/// A new parser has seen nothing.
pub proof fn law_a_new_parser_has_seen_nothing()
    ensures
        SseModel::fresh() == (SseModel {
            partial: Seq::empty(),
            token_count: 0,
            first_token_seen: false,
            held_line: None,
        }),
{
}

/// Bytes that complete no line are kept, and nothing is reported for them.
pub proof fn law_an_unfinished_line_waits(m: SseModel, chunk: Seq<u8>)
    requires
        !(m.partial + chunk).contains(10u8),
    ensures
        m.fed(chunk) == (SseModel { partial: m.partial + chunk, ..m }),
        m.tokens_with(chunk) == 0,
        !m.done_with(chunk),
        m.timing_with(chunk) is None,
{
    lemma_no_newline(m.partial + chunk);
    assert(token_lines(Seq::<Seq<u8>>::empty()).len() == 0);
}

/// What one complete line does, on its bytes.
proof fn lemma_one_line(m: SseModel, chunk: Seq<u8>, line: Seq<u8>)
    requires
        m.partial + chunk == line.push(10u8),
        !line.contains(10u8),
    ensures
        m.lines_with(chunk) == seq![line],
        m.tokens_with(chunk) == if kind_of(line) is Token {
            1nat
        } else {
            0nat
        },
        kind_of(line) is Token ==> token_lines(m.lines_with(chunk)).last() == without_cr(line),
        m.done_with(chunk) == (kind_of(line) is Done),
        m.fed(chunk).partial == Seq::<u8>::empty(),
        m.fed(chunk).held_line == match kind_of(line) {
            LineKind::Token => Some(without_cr(line)),
            LineKind::Done => None,
            LineKind::Ignored => m.held_line,
        },
{
    let empty = Seq::<Seq<u8>>::empty();
    let bytes = line.push(10u8);
    lemma_no_newline(line);
    assert(bytes.drop_last() == line);
    assert(complete_lines(bytes) == empty.push(line));
    assert(empty.push(line) == seq![line]);
    assert(seq![line].drop_last() == empty);
    lemma_has_done_push(empty, line);
    assert(token_lines(empty).len() == 0);
    assert(held_after(m.held_line, empty) == m.held_line);
}

/// A data line counts, whatever it carries. Its payload is what stands between
/// `data: ` and the newline, less one carriage return. Any payload but `[DONE]`
/// is one token and no end of stream, and is held. The payload `[DONE]` is no
/// token and the end, and lets go of what was held.
pub proof fn law_every_data_line_counts(
    m: SseModel,
    chunk: Seq<u8>,
    payload: Seq<u8>,
    with_carriage_return: bool,
)
    requires
        m.partial + chunk == "data: ".spec_bytes() + payload + if with_carriage_return {
            seq![13u8, 10u8]
        } else {
            seq![10u8]
        },
        !payload.contains(10u8),
        with_carriage_return || payload.len() == 0 || payload.last() != 13u8,
    ensures
        payload != "[DONE]".spec_bytes() ==> {
            &&& m.tokens_with(chunk) == 1
            &&& !m.done_with(chunk)
            &&& m.timing_with(chunk) is None
            &&& m.fed(chunk) == (SseModel {
                partial: Seq::empty(),
                token_count: m.token_count + 1,
                first_token_seen: true,
                held_line: Some("data: ".spec_bytes() + payload),
            })
        },
        payload == "[DONE]".spec_bytes() ==> {
            &&& m.tokens_with(chunk) == 0
            &&& m.done_with(chunk)
            &&& m.held_line is None ==> m.timing_with(chunk) is None
            &&& m.held_line is Some ==> m.timing_with(chunk) == timing_in(m.held_line->0)
            &&& m.fed(chunk) == (SseModel { partial: Seq::empty(), held_line: None, ..m })
        },
{
    let prefix = "data: ".spec_bytes();
    lemma_prefix_bytes();
    let bare = prefix + payload;
    let line = if with_carriage_return {
        bare.push(13u8)
    } else {
        bare
    };
    assert(m.partial + chunk == line.push(10u8));
    assert forall|i: int| 0 <= i < bare.len() implies bare[i] != 10u8 by {
        if i >= 6 {
            assert(payload.contains(payload[i - 6]));
        }
    }
    assert(!line.contains(10u8));
    assert(bare.push(13u8).drop_last() == bare);
    assert(without_cr(line) == bare) by {
        if !with_carriage_return {
            assert(bare.last() != 13u8);
        }
    }
    assert(payload_of(bare) == payload);
    assert(prefix.is_prefix_of(bare)) by {
        assert(bare.take(6) == prefix);
    }
    lemma_one_line(m, chunk, line);
}

/// The bytes of the prefix: six, none of which ends a line.
proof fn lemma_prefix_bytes()
    ensures
        "data: ".spec_bytes().len() == 6,
        forall|i: int|
            0 <= i < 6 ==> #[trigger] "data: ".spec_bytes()[i] != 10u8 && "data: ".spec_bytes()[i]
                != 13u8,
{
    reveal_strlit("data: ");
    vstd::utf8::is_ascii_chars_encode_utf8("data: "@);
}

/// Any other line counts for nothing.
pub proof fn law_other_lines_count_for_nothing(m: SseModel, chunk: Seq<u8>, line: Seq<u8>)
    requires
        m.partial + chunk == line.push(10u8),
        !line.contains(10u8),
        !"data: ".spec_bytes().is_prefix_of(line),
    ensures
        m.tokens_with(chunk) == 0,
        !m.done_with(chunk),
        m.timing_with(chunk) is None,
        m.fed(chunk) == (SseModel { partial: Seq::empty(), ..m }),
{
    lemma_prefix_bytes();
    let prefix = "data: ".spec_bytes();
    if prefix.is_prefix_of(without_cr(line)) {
        assert(line.take(6) == without_cr(line).take(6));
    }
    lemma_one_line(m, chunk, line);
}

/// What timing a payload carries: none unless it is UTF-8 and holds the field's
/// name somewhere, and then the number that stands in its JSON under `timings`
/// and there under `predicted_per_token_ms`.
pub proof fn law_where_a_timing_stands(payload: Seq<u8>)
    ensures
        ({
            let name = "predicted_per_token_ms".spec_bytes();
            let timing = timing_in("data: ".spec_bytes() + payload);
            let named = exists|i: int|
                0 <= i <= payload.len() - name.len() && #[trigger] payload.subrange(
                    i,
                    i + name.len(),
                ) == name;
            let value = crate::json::parsed_json(vstd::utf8::decode_utf8(payload));
            let readable = vstd::utf8::valid_utf8(payload) && named && value is Some;
            let timings = crate::json::json_member(value->0, "timings"@);
            let number = crate::json::json_member(timings->0, "predicted_per_token_ms"@);
            let bits = crate::json::json_number_bits(number->0);
            let found = readable && timings is Some && number is Some && bits is Some;
            &&& found ==> timing == Some(Binary64 { bits: bits->0 })
            &&& !found ==> timing is None
        }),
{
    let line = "data: ".spec_bytes() + payload;
    lemma_prefix_bytes();
    assert(line.take(6) == "data: ".spec_bytes());
    assert(payload_of(line) == payload);
    lemma_prefix_keeps_utf8(line);
}

/// The timing in a JSON value is the number under `timings` and there under
/// `predicted_per_token_ms`.
pub proof fn law_where_a_value_holds_its_timing(value: serde_json::Value)
    ensures
        ({
            let timings = crate::json::json_member(value, "timings"@);
            let number = crate::json::json_member(timings->0, "predicted_per_token_ms"@);
            let bits = crate::json::json_number_bits(number->0);
            let found = timings is Some && number is Some && bits is Some;
            &&& found ==> timing_at(Some(value)) == Some(Binary64 { bits: bits->0 })
            &&& !found ==> timing_at(Some(value)) is None
            &&& timing_at(None) is None
        }),
{
}

/// A timing is reported with the marker only, and within a chunk that completes
/// the marker the last token-bearing line decides, also behind the marker.
pub proof fn law_the_last_token_line_decides(m: SseModel, a: Seq<u8>, b: Seq<u8>, payload: Seq<u8>)
    requires
        m.fed(a).partial + b == "data: ".spec_bytes() + payload + seq![10u8],
        !payload.contains(10u8),
        payload.len() == 0 || payload.last() != 13u8,
        payload != "[DONE]".spec_bytes(),
    ensures
        !m.done_with(a) ==> m.timing_with(a) is None,
        m.done_with(a) ==> m.timing_with(a + b) == timing_in("data: ".spec_bytes() + payload),
{
    law_every_data_line_counts(m.fed(a), b, payload, false);
    law_chunk_boundaries_do_not_matter(m, a, b);
    let first = m.partial + a;
    assert(m.partial + (a + b) == first + b);
    lemma_split_in_two(first, b);
    lemma_token_lines_of_two(complete_lines(first), complete_lines(unfinished_line(first) + b));
    let line = "data: ".spec_bytes() + payload;
    lemma_prefix_bytes();
    assert forall|i: int| 0 <= i < line.len() implies line[i] != 10u8 by {
        if i >= 6 {
            assert(payload.contains(payload[i - 6]));
        }
    }
    assert(m.fed(a).partial + b == line.push(10u8));
    assert(!line.contains(10u8));
    assert(without_cr(line) == line);
    assert(payload_of(line) == payload);
    assert(line.take(6) == "data: ".spec_bytes());
    lemma_one_line(m.fed(a), b, line);
    let tokens_b = token_lines(m.fed(a).lines_with(b));
    assert((token_lines(m.lines_with(a)) + tokens_b).last() == tokens_b.last());
}

} // verus!
