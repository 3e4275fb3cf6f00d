//! Relaying HTTP/1 messages: reading heads line by line, finding the end of a
//! body, and answering the client.

use crate::bytes_text::{
    ends_with_crlf, find_byte, first_byte, is_crlf_terminated, lemma_first_byte, strip_crlf,
    utf8_text, without_crlf,
};
use crate::http_proxy::{
    framing_of, header_fields, header_models, lines_of, parse_headers, validate_message_framing,
    HeaderModel, RequestBody, RequestError, MAX_HEADER_BYTES, MAX_HEADER_COUNT,
};
use crate::number::{parse_number, parsed_number};
use crate::text::{chars_are, chars_of, pieces, split, texts, trim, trimmed};
use vstd::prelude::*;
use vstd::slice::*;
use vstd::string::*;
use vstd::utf8::*;

verus! {

/// The bytes that the line in front of a chunk may take.
pub const MAX_CHUNK_LINE_BYTES: usize = 8_192;

/// Why a message could not be relayed.
#[derive(Clone, Copy, Debug, Eq, PartialEq, Structural)]
pub enum RelayError {
    BodyClosedEarly,
    EarlyEof,
    InvalidChunkLine,
    InvalidChunkSize,
    InvalidChunkTerminator,
    TrailersTooLarge,
    TooManyResponseHeaders,
    ResponseHeadersTooLarge,
    MissingStatusLine,
    InvalidStatusLine,
    InvalidStatusCode,
    UnsupportedResponseVersion,
    InvalidResponseHeaders,
    UpgradeRequiresConnect,
    AmbiguousResponseFraming,
}

impl RelayError {
    /// The text for the log.
    pub fn message(self) -> (r: &'static str)
        ensures
            r@ == match self {
                RelayError::BodyClosedEarly => "HTTP request body closed early"@,
                RelayError::EarlyEof => "early eof"@,
                RelayError::InvalidChunkLine => "invalid HTTP chunk line"@,
                RelayError::InvalidChunkSize => "invalid chunk size"@,
                RelayError::InvalidChunkTerminator => "invalid HTTP chunk terminator"@,
                RelayError::TrailersTooLarge => "HTTP chunk trailers are too large"@,
                RelayError::TooManyResponseHeaders => "too many HTTP response headers"@,
                RelayError::ResponseHeadersTooLarge => "HTTP response headers are too large"@,
                RelayError::MissingStatusLine => "missing status line"@,
                RelayError::InvalidStatusLine => "invalid status line"@,
                RelayError::InvalidStatusCode => "invalid status code"@,
                RelayError::UnsupportedResponseVersion => "unsupported HTTP response version"@,
                RelayError::InvalidResponseHeaders => "invalid HTTP response headers"@,
                RelayError::UpgradeRequiresConnect => "HTTP protocol upgrades require CONNECT"@,
                RelayError::AmbiguousResponseFraming => "ambiguous HTTP response framing"@,
            },
    {
        match self {
            RelayError::BodyClosedEarly => "HTTP request body closed early",
            RelayError::EarlyEof => "early eof",
            RelayError::InvalidChunkLine => "invalid HTTP chunk line",
            RelayError::InvalidChunkSize => "invalid chunk size",
            RelayError::InvalidChunkTerminator => "invalid HTTP chunk terminator",
            RelayError::TrailersTooLarge => "HTTP chunk trailers are too large",
            RelayError::TooManyResponseHeaders => "too many HTTP response headers",
            RelayError::ResponseHeadersTooLarge => "HTTP response headers are too large",
            RelayError::MissingStatusLine => "missing status line",
            RelayError::InvalidStatusLine => "invalid status line",
            RelayError::InvalidStatusCode => "invalid status code",
            RelayError::UnsupportedResponseVersion => "unsupported HTTP response version",
            RelayError::InvalidResponseHeaders => "invalid HTTP response headers",
            RelayError::UpgradeRequiresConnect => "HTTP protocol upgrades require CONNECT",
            RelayError::AmbiguousResponseFraming => "ambiguous HTTP response framing",
        }
    }
}

// ---------------------------------------------------------------------------
// Reading a request head
// ---------------------------------------------------------------------------

/// The lines of a request head that were read so far, and their size.
#[derive(Debug)]
pub struct RequestHeadReader {
    pub lines: Vec<Vec<u8>>,
    pub total: usize,
}

pub struct HeadReaderModel {
    pub lines: Seq<Seq<u8>>,
    pub total: nat,
}

impl View for RequestHeadReader {
    type V = HeadReaderModel;

    open spec fn view(&self) -> HeadReaderModel {
        HeadReaderModel { lines: lines_of(self.lines@), total: self.total as nat }
    }
}

/// What reading one more line does: the head is complete, goes on, or is
/// refused. `line` ends behind the first line feed, or with the input.
pub open spec fn head_line_read(before: HeadReaderModel, line: Seq<u8>) -> Result<
    (HeadReaderModel, bool),
    RequestError,
> {
    let total = before.total + line.len();
    if before.lines.len() > MAX_HEADER_COUNT {
        Err(RequestError::HeaderTooLarge)
    } else if line.len() == 0 {
        Err(RequestError::Malformed)
    } else if total > MAX_HEADER_BYTES {
        Err(RequestError::HeaderTooLarge)
    } else if !ends_with_crlf(line) {
        Err(RequestError::Malformed)
    } else if line.len() == 2 {
        Ok((HeadReaderModel { total, ..before }, true))
    } else {
        Ok((HeadReaderModel { lines: before.lines.push(line), total }, false))
    }
}

impl RequestHeadReader {
    /// A reader that has read nothing.
    pub fn new() -> (r: Self)
        ensures
            r@ == (HeadReaderModel { lines: Seq::empty(), total: 0 }),
    {
        let r = RequestHeadReader { lines: Vec::new(), total: 0 };
        assert(r@.lines =~= Seq::empty());
        r
    }

    /// Reads one more line; whether the head is complete.
    pub fn accept_line(&mut self, line: Vec<u8>) -> (r: Result<bool, RequestError>)
        ensures
            match head_line_read(old(self)@, line@) {
                Ok((after, complete)) => r == Ok::<bool, RequestError>(complete) && final(self)@
                    == after,
                Err(error) => r == Err::<bool, RequestError>(error) && final(self)@ == old(self)@,
            },
    {
        if self.lines.len() > MAX_HEADER_COUNT {
            return Err(RequestError::HeaderTooLarge);
        }
        if line.len() == 0 {
            return Err(RequestError::Malformed);
        }
        if line.len() > MAX_HEADER_BYTES || self.total > MAX_HEADER_BYTES - line.len() {
            return Err(RequestError::HeaderTooLarge);
        }
        if !is_crlf_terminated(&line) {
            return Err(RequestError::Malformed);
        }
        self.total = self.total + line.len();
        if line.len() == 2 {
            return Ok(true);
        }
        let ghost before = self.lines@;
        let ghost lm = line@;
        self.lines.push(line);
        assert(lines_of(self.lines@) =~= lines_of(before).push(lm));
        Ok(false)
    }
}

// ---------------------------------------------------------------------------
// Lines and chunks
// ---------------------------------------------------------------------------

/// The length of the first line of the input with its line ending, where it has
/// one within `maximum` bytes.
pub open spec fn body_line(input: Seq<u8>, maximum: nat) -> Option<nat> {
    let feed = first_byte(input, 10);
    if feed < input.len() && 1 <= feed < maximum && input[feed - 1] == 13 {
        Some((feed + 1) as nat)
    } else {
        None
    }
}

/// The size that a chunk line announces: hexadecimal digits in front of any
/// extension.
pub open spec fn chunk_size(line: Seq<u8>) -> Option<nat> {
    let bare = without_crlf(line);
    if valid_utf8(bare) {
        parsed_number(trim(pieces(decode_utf8(bare), ';')[0]), 16, u64::MAX as nat)
    } else {
        None
    }
}

/// The length of the trailer section, given the bytes that it took already.
pub open spec fn trailers_end(input: Seq<u8>, total: nat) -> Result<nat, RelayError>
    decreases input.len(),
{
    match body_line(input, MAX_HEADER_BYTES as nat) {
        None => Err(RelayError::InvalidChunkLine),
        Some(n) => if total + n > MAX_HEADER_BYTES {
            Err(RelayError::TrailersTooLarge)
        } else if n == 2 {
            Ok(2)
        } else if 0 < n <= input.len() {
            match trailers_end(input.skip(n as int), total + n) {
                Ok(rest) => Ok(n + rest),
                Err(error) => Err(error),
            }
        } else {
            Err(RelayError::InvalidChunkLine)
        },
    }
}

/// The length of a chunked body at the start of the input.
pub open spec fn chunked_end(input: Seq<u8>) -> Result<nat, RelayError>
    decreases input.len(),
{
    match body_line(input, MAX_CHUNK_LINE_BYTES as nat) {
        None => Err(RelayError::InvalidChunkLine),
        Some(n) => match chunk_size(input.take(n as int)) {
            None => Err(RelayError::InvalidChunkSize),
            Some(size) => if size == 0 {
                match trailers_end(input.skip(n as int), 0) {
                    Ok(rest) => Ok(n + rest),
                    Err(error) => Err(error),
                }
            } else if input.len() < n + size {
                Err(RelayError::BodyClosedEarly)
            } else if input.len() < n + size + 2 {
                Err(RelayError::EarlyEof)
            } else if !(input[(n + size) as int] == 13 && input[(n + size + 1) as int] == 10) {
                Err(RelayError::InvalidChunkTerminator)
            } else {
                match chunked_end(input.skip((n + size + 2) as int)) {
                    Ok(rest) => Ok(n + size + 2 + rest),
                    Err(error) => Err(error),
                }
            },
        },
    }
}

/// The length of the first line of the input.
pub fn read_body_line(input: &[u8], maximum: usize) -> (r: Result<usize, RelayError>)
    ensures
        match body_line(input@, maximum as nat) {
            Some(n) => r == Ok::<usize, RelayError>(n as usize) && 2 <= n <= input@.len(),
            None => r == Err::<usize, RelayError>(RelayError::InvalidChunkLine),
        },
{
    proof {
        lemma_first_byte(input@, 10);
    }
    match find_byte(input, 10) {
        Some(feed) => if feed >= 1 && feed < maximum && input[feed - 1] == 13 {
            Ok(feed + 1)
        } else {
            Err(RelayError::InvalidChunkLine)
        },
        None => Err(RelayError::InvalidChunkLine),
    }
}

/// The size that a chunk line announces.
pub fn parse_chunk_size(line: &[u8]) -> (r: Result<u64, RelayError>)
    ensures
        match chunk_size(line@) {
            Some(n) => r is Ok && r->Ok_0 == n,
            None => r == Err::<u64, RelayError>(RelayError::InvalidChunkSize),
        },
{
    let bare = strip_crlf(line);
    match utf8_text(bare) {
        Some(text) => {
            let parts = split(&chars_of(text.as_str()), ';');
            assert(texts(parts@)[0] == parts@[0]@);
            match parse_number(&trimmed(&parts[0]), 16, 0xffff_ffff_ffff_ffff) {
                Some(size) => Ok(size),
                None => Err(RelayError::InvalidChunkSize),
            }
        },
        None => Err(RelayError::InvalidChunkSize),
    }
}

fn find_trailers_end(input: &[u8], start: usize) -> (r: Result<usize, RelayError>)
    requires
        start <= input@.len(),
    ensures
        match trailers_end(input@.skip(start as int), 0) {
            Ok(n) => r is Ok && r->Ok_0 == start + n && r->Ok_0 <= input@.len(),
            Err(error) => r == Err::<usize, RelayError>(error),
        },
{
    let n: usize = input.len();
    let mut at: usize = start;
    let mut total: usize = 0;
    loop
        invariant
            start <= at <= n,
            n == input@.len(),
            total <= MAX_HEADER_BYTES,
            trailers_end(input@.skip(start as int), 0) == match trailers_end(
                input@.skip(at as int),
                total as nat,
            ) {
                Ok(m) => Ok::<nat, RelayError>((at - start + m) as nat),
                Err(error) => Err(error),
            },
        decreases n - at,
    {
        let rest = slice_subrange(input, at, n);
        assert(rest@ =~= input@.skip(at as int));
        match read_body_line(rest, MAX_HEADER_BYTES) {
            Err(error) => {
                return Err(error);
            },
            Ok(length) => {
                if total > MAX_HEADER_BYTES - length {
                    return Err(RelayError::TrailersTooLarge);
                }
                if length == 2 {
                    return Ok(at + 2);
                }
                assert(input@.skip(at as int).skip(length as int) =~= input@.skip(at + length));
                total = total + length;
                at = at + length;
            },
        }
    }
}

/// The length of the chunked body at the start of the input.
pub fn find_chunked_end(input: &[u8]) -> (r: Result<usize, RelayError>)
    ensures
        match chunked_end(input@) {
            Ok(n) => r is Ok && r->Ok_0 == n && n <= input@.len(),
            Err(error) => r == Err::<usize, RelayError>(error),
        },
{
    let n: usize = input.len();
    let mut at: usize = 0;
    assert(input@.skip(0) =~= input@);
    loop
        invariant
            at <= n,
            n == input@.len(),
            chunked_end(input@) == match chunked_end(input@.skip(at as int)) {
                Ok(m) => Ok::<nat, RelayError>((at + m) as nat),
                Err(error) => Err(error),
            },
        decreases n - at,
    {
        let rest = slice_subrange(input, at, n);
        let ghost tail = input@.skip(at as int);
        assert(rest@ =~= tail);
        let length: usize = match read_body_line(rest, MAX_CHUNK_LINE_BYTES) {
            Ok(length) => length,
            Err(error) => {
                return Err(error);
            },
        };
        let line = slice_subrange(rest, 0, length);
        assert(line@ =~= tail.take(length as int));
        let size: u64 = match parse_chunk_size(line) {
            Ok(size) => size,
            Err(error) => {
                return Err(error);
            },
        };
        if size == 0 {
            assert(tail.skip(length as int) =~= input@.skip(at + length));
            return find_trailers_end(input, at + length);
        }
        let left: usize = n - at - length;
        if size > left as u64 {
            return Err(RelayError::BodyClosedEarly);
        }
        let body: usize = size as usize;
        if left - body < 2 {
            return Err(RelayError::EarlyEof);
        }
        if !(input[at + length + body] == 13 && input[at + length + body + 1] == 10) {
            return Err(RelayError::InvalidChunkTerminator);
        }
        assert(tail.skip(length + body + 2) =~= input@.skip(at + length + body + 2));
        at = at + length + body + 2;
    }
}

/// How far a chunked body has been read.
#[derive(Clone, Copy, Debug, Eq, PartialEq, Structural)]
pub enum ChunkPhase {
    /// A line with the size of a chunk comes next.
    Size,
    /// This much of a chunk is left.
    Data { left: u64 },
    /// The line ending behind a chunk comes next.
    Terminator,
    /// Trailer lines come next; those before took this many bytes.
    Trailers { total: usize },
    Done,
}

/// What a reader of a chunked body needs next.
#[derive(Clone, Copy, Debug, Eq, PartialEq, Structural)]
pub enum ChunkWant {
    /// A line of at most this many bytes.
    Line { maximum: usize },
    /// This many bytes of data.
    Data { left: u64 },
    Terminator,
    Nothing,
}

pub open spec fn chunk_want(phase: ChunkPhase) -> ChunkWant {
    match phase {
        ChunkPhase::Size => ChunkWant::Line { maximum: MAX_CHUNK_LINE_BYTES },
        ChunkPhase::Data { left } => ChunkWant::Data { left },
        ChunkPhase::Terminator => ChunkWant::Terminator,
        ChunkPhase::Trailers { total } => ChunkWant::Line { maximum: MAX_HEADER_BYTES },
        ChunkPhase::Done => ChunkWant::Nothing,
    }
}

/// What follows a line. The line ends behind the first line feed, or where the
/// input does.
pub open spec fn after_line(phase: ChunkPhase, line: Seq<u8>) -> Result<ChunkPhase, RelayError> {
    match phase {
        ChunkPhase::Size => if body_line(line, MAX_CHUNK_LINE_BYTES as nat) != Some(line.len()) {
            Err(RelayError::InvalidChunkLine)
        } else {
            match chunk_size(line) {
                None => Err(RelayError::InvalidChunkSize),
                Some(size) => Ok(
                    if size == 0 {
                        ChunkPhase::Trailers { total: 0 }
                    } else {
                        ChunkPhase::Data { left: size as u64 }
                    },
                ),
            }
        },
        ChunkPhase::Trailers { total } => if body_line(line, MAX_HEADER_BYTES as nat) != Some(
            line.len(),
        ) {
            Err(RelayError::InvalidChunkLine)
        } else if total + line.len() > MAX_HEADER_BYTES {
            Err(RelayError::TrailersTooLarge)
        } else if line.len() == 2 {
            Ok(ChunkPhase::Done)
        } else {
            Ok(ChunkPhase::Trailers { total: (total + line.len()) as usize })
        },
        _ => Err(RelayError::InvalidChunkLine),
    }
}

/// What follows `n` bytes of data.
pub open spec fn after_data(left: u64, n: u64) -> ChunkPhase {
    if n >= left {
        ChunkPhase::Terminator
    } else {
        ChunkPhase::Data { left: (left - n) as u64 }
    }
}

pub open spec fn shifted(n: nat, end: Result<nat, RelayError>) -> Result<nat, RelayError> {
    match end {
        Ok(m) => Ok(n + m),
        Err(error) => Err(error),
    }
}

/// How much of the input belongs to a body that was read up to a phase.
pub open spec fn rest_of_body(phase: ChunkPhase, input: Seq<u8>) -> Result<nat, RelayError> {
    match phase {
        ChunkPhase::Size => chunked_end(input),
        ChunkPhase::Data { left } => if input.len() < left {
            Err(RelayError::BodyClosedEarly)
        } else {
            shifted(left as nat, behind_chunk(input.skip(left as int)))
        },
        ChunkPhase::Terminator => behind_chunk(input),
        ChunkPhase::Trailers { total } => trailers_end(input, total as nat),
        ChunkPhase::Done => Ok(0),
    }
}

/// How much of the input behind a chunk belongs to the body.
pub open spec fn behind_chunk(input: Seq<u8>) -> Result<nat, RelayError> {
    if input.len() < 2 {
        Err(RelayError::EarlyEof)
    } else if !(input[0] == 13 && input[1] == 10) {
        Err(RelayError::InvalidChunkTerminator)
    } else {
        shifted(2, chunked_end(input.skip(2)))
    }
}

/// Reads a chunked body piece by piece.
#[derive(Clone, Copy, Debug, Eq, PartialEq, Structural)]
pub struct ChunkedReader {
    pub phase: ChunkPhase,
}

impl ChunkedReader {
    /// A reader in front of a body.
    pub fn new() -> (r: Self)
        ensures
            r.phase == ChunkPhase::Size,
    {
        ChunkedReader { phase: ChunkPhase::Size }
    }

    /// What the reader needs next.
    pub fn want(&self) -> (r: ChunkWant)
        ensures
            r == chunk_want(self.phase),
    {
        match self.phase {
            ChunkPhase::Size => ChunkWant::Line { maximum: MAX_CHUNK_LINE_BYTES },
            ChunkPhase::Data { left } => ChunkWant::Data { left },
            ChunkPhase::Terminator => ChunkWant::Terminator,
            ChunkPhase::Trailers { .. } => ChunkWant::Line { maximum: MAX_HEADER_BYTES },
            ChunkPhase::Done => ChunkWant::Nothing,
        }
    }

    /// Reads a line: the size of a chunk, or a trailer.
    pub fn accept_line(&mut self, line: &[u8]) -> (r: Result<(), RelayError>)
        ensures
            match after_line(old(self).phase, line@) {
                Ok(phase) => r is Ok && final(self).phase == phase,
                Err(error) => r == Err::<(), RelayError>(error) && *final(self) == *old(self),
            },
    {
        match self.phase {
            ChunkPhase::Size => {
                match read_body_line(line, MAX_CHUNK_LINE_BYTES) {
                    Ok(n) => if n != line.len() {
                        return Err(RelayError::InvalidChunkLine);
                    },
                    Err(error) => {
                        return Err(error);
                    },
                }
                let size: u64 = match parse_chunk_size(line) {
                    Ok(size) => size,
                    Err(error) => {
                        return Err(error);
                    },
                };
                self.phase =
                if size == 0 {
                    ChunkPhase::Trailers { total: 0 }
                } else {
                    ChunkPhase::Data { left: size }
                };
                Ok(())
            },
            ChunkPhase::Trailers { total } => {
                match read_body_line(line, MAX_HEADER_BYTES) {
                    Ok(n) => if n != line.len() {
                        return Err(RelayError::InvalidChunkLine);
                    },
                    Err(error) => {
                        return Err(error);
                    },
                }
                if line.len() > MAX_HEADER_BYTES || total > MAX_HEADER_BYTES - line.len() {
                    return Err(RelayError::TrailersTooLarge);
                }
                self.phase =
                if line.len() == 2 {
                    ChunkPhase::Done
                } else {
                    ChunkPhase::Trailers { total: total + line.len() }
                };
                Ok(())
            },
            _ => Err(RelayError::InvalidChunkLine),
        }
    }

    /// Reads data of a chunk. No more of it is read than is left.
    pub fn accept_data(&mut self, n: u64)
        ensures
            final(self).phase == match old(self).phase {
                ChunkPhase::Data { left } => after_data(left, n),
                phase => phase,
            },
    {
        if let ChunkPhase::Data { left } = self.phase {
            self.phase =
            if n >= left {
                ChunkPhase::Terminator
            } else {
                ChunkPhase::Data { left: left - n }
            };
        }
    }

    /// Reads the two bytes behind a chunk.
    pub fn accept_terminator(&mut self, first: u8, second: u8) -> (r: Result<(), RelayError>)
        ensures
            if old(self).phase == ChunkPhase::Terminator && first == 13 && second == 10 {
                r is Ok && final(self).phase == ChunkPhase::Size
            } else {
                r == Err::<(), RelayError>(RelayError::InvalidChunkTerminator) && *final(self)
                    == *old(self)
            },
    {
        if self.phase == ChunkPhase::Terminator && first == 13 && second == 10 {
            self.phase = ChunkPhase::Size;
            Ok(())
        } else {
            Err(RelayError::InvalidChunkTerminator)
        }
    }
}

// ---------------------------------------------------------------------------
// Responses
// ---------------------------------------------------------------------------

/// The lines of a response head that were read so far, and their size.
#[derive(Debug)]
pub struct ResponseHeadReader {
    pub lines: Vec<Vec<u8>>,
    pub total: usize,
}

impl View for ResponseHeadReader {
    type V = HeadReaderModel;

    open spec fn view(&self) -> HeadReaderModel {
        HeadReaderModel { lines: lines_of(self.lines@), total: self.total as nat }
    }
}

/// What reading one more line of a response head does. `line` has its line
/// ending.
pub open spec fn response_line_read(before: HeadReaderModel, line: Seq<u8>) -> Result<
    (HeadReaderModel, bool),
    RelayError,
> {
    let total = before.total + line.len();
    if before.lines.len() > MAX_HEADER_COUNT {
        Err(RelayError::TooManyResponseHeaders)
    } else if total > MAX_HEADER_BYTES {
        Err(RelayError::ResponseHeadersTooLarge)
    } else if line.len() == 2 {
        Ok((HeadReaderModel { total, ..before }, true))
    } else {
        Ok((HeadReaderModel { lines: before.lines.push(line), total }, false))
    }
}

impl ResponseHeadReader {
    /// A reader that has read nothing.
    pub fn new() -> (r: Self)
        ensures
            r@ == (HeadReaderModel { lines: Seq::empty(), total: 0 }),
    {
        let r = ResponseHeadReader { lines: Vec::new(), total: 0 };
        assert(r@.lines =~= Seq::empty());
        r
    }

    /// Reads one more line; whether the head is complete.
    pub fn accept_line(&mut self, line: Vec<u8>) -> (r: Result<bool, RelayError>)
        requires
            ends_with_crlf(line@),
        ensures
            match response_line_read(old(self)@, line@) {
                Ok((after, complete)) => r == Ok::<bool, RelayError>(complete) && final(self)@
                    == after,
                Err(error) => r == Err::<bool, RelayError>(error) && final(self)@ == old(self)@,
            },
    {
        if self.lines.len() > MAX_HEADER_COUNT {
            return Err(RelayError::TooManyResponseHeaders);
        }
        if line.len() > MAX_HEADER_BYTES || self.total > MAX_HEADER_BYTES - line.len() {
            return Err(RelayError::ResponseHeadersTooLarge);
        }
        self.total = self.total + line.len();
        if line.len() == 2 {
            return Ok(true);
        }
        let ghost before = self.lines@;
        let ghost lm = line@;
        self.lines.push(line);
        assert(lines_of(self.lines@) =~= lines_of(before).push(lm));
        Ok(false)
    }
}

/// The status code of a response line: the second part, behind a known version.
pub open spec fn status_code(line: Seq<u8>) -> Result<u16, RelayError> {
    let bare = without_crlf(line);
    if !valid_utf8(bare) {
        Err(RelayError::InvalidStatusLine)
    } else {
        let parts = pieces(decode_utf8(bare), ' ');
        let code = if parts.len() >= 2 {
            parsed_number(parts[1], 10, 65535)
        } else {
            None
        };
        if code is None || !(100 <= code->0 <= 599) {
            Err(RelayError::InvalidStatusCode)
        } else if !(parts[0] == "HTTP/1.0"@ || parts[0] == "HTTP/1.1"@) {
            Err(RelayError::UnsupportedResponseVersion)
        } else {
            Ok(code->0 as u16)
        }
    }
}

/// The status and fields of a response head.
pub open spec fn response_head(lines: Seq<Seq<u8>>) -> Result<
    (u16, Seq<HeaderModel>),
    RelayError,
> {
    if lines.len() == 0 {
        Err(RelayError::MissingStatusLine)
    } else {
        match status_code(lines[0]) {
            Err(error) => Err(error),
            Ok(status) => match header_fields(lines.skip(1)) {
                Some(headers) => Ok((status, headers)),
                None => Err(RelayError::InvalidResponseHeaders),
            },
        }
    }
}

/// What follows a response head.
#[derive(Clone, Copy, Debug, Eq, PartialEq, Structural)]
pub enum ResponseBody {
    /// Another head.
    Interim,
    /// Nothing.
    Empty,
    /// Everything up to the end of the connection.
    UntilClose,
    /// A number of bytes.
    Length(u64),
    /// A chunked body.
    Chunked,
}

/// What follows a response head with the given status and fields.
pub open spec fn response_body(status: u16, headers: Seq<HeaderModel>, head_request: bool) -> Result<
    ResponseBody,
    RelayError,
> {
    if status == 101 {
        Err(RelayError::UpgradeRequiresConnect)
    } else if 100 <= status < 200 {
        Ok(ResponseBody::Interim)
    } else {
        match framing_of(headers) {
            None => Err(RelayError::AmbiguousResponseFraming),
            Some(body) => if head_request || status == 204 || status == 304 {
                Ok(ResponseBody::Empty)
            } else {
                match body {
                    RequestBody::Empty => Ok(ResponseBody::UntilClose),
                    RequestBody::ContentLength(n) => Ok(ResponseBody::Length(n)),
                    RequestBody::Chunked => Ok(ResponseBody::Chunked),
                }
            },
        }
    }
}

/// The status code of a response line.
pub fn parse_status_line(line: &[u8]) -> (r: Result<u16, RelayError>)
    ensures
        r == status_code(line@),
{
    let bare = strip_crlf(line);
    let text = match utf8_text(bare) {
        Some(text) => text,
        None => {
            return Err(RelayError::InvalidStatusLine);
        },
    };
    let parts = split(&chars_of(text.as_str()), ' ');
    let ghost all = pieces(text@, ' ');
    assert(all.len() == parts@.len());
    assert(forall|j: int| 0 <= j < parts@.len() ==> all[j] == parts@[j]@);
    if parts.len() < 2 {
        return Err(RelayError::InvalidStatusCode);
    }
    let code: u64 = match parse_number(&parts[1], 10, 65535) {
        Some(code) => code,
        None => {
            return Err(RelayError::InvalidStatusCode);
        },
    };
    if code < 100 || code > 599 {
        return Err(RelayError::InvalidStatusCode);
    }
    if !(chars_are(&parts[0], "HTTP/1.0") || chars_are(&parts[0], "HTTP/1.1")) {
        return Err(RelayError::UnsupportedResponseVersion);
    }
    Ok(code as u16)
}

/// The status and fields of a response head.
pub fn parse_response_head(lines: &[Vec<u8>]) -> (r: Result<
    (u16, Vec<(String, String)>),
    RelayError,
>)
    ensures
        match response_head(lines_of(lines@)) {
            Ok((status, headers)) => r is Ok && r->Ok_0.0 == status && header_models(r->Ok_0.1@)
                == headers,
            Err(error) => r is Err && r->Err_0 == error,
        },
{
    let ghost all = lines_of(lines@);
    if lines.len() == 0 {
        return Err(RelayError::MissingStatusLine);
    }
    assert(all[0] == lines@[0]@);
    let status: u16 = match parse_status_line(&lines[0]) {
        Ok(status) => status,
        Err(error) => {
            return Err(error);
        },
    };
    let rest = slice_subrange(lines, 1, lines.len());
    assert(lines_of(rest@) =~= all.skip(1));
    match parse_headers(rest) {
        Ok(headers) => Ok((status, headers)),
        Err(_) => Err(RelayError::InvalidResponseHeaders),
    }
}

/// What follows a response head.
pub fn plan_response_body(status: u16, headers: &[(String, String)], head_request: bool) -> (r:
    Result<ResponseBody, RelayError>)
    ensures
        r == response_body(status, header_models(headers@), head_request),
{
    if status == 101 {
        return Err(RelayError::UpgradeRequiresConnect);
    }
    if status >= 100 && status < 200 {
        return Ok(ResponseBody::Interim);
    }
    match validate_message_framing(headers) {
        Err(_) => Err(RelayError::AmbiguousResponseFraming),
        Ok(body) => {
            if head_request || status == 204 || status == 304 {
                return Ok(ResponseBody::Empty);
            }
            match body {
                RequestBody::Empty => Ok(ResponseBody::UntilClose),
                RequestBody::ContentLength(n) => Ok(ResponseBody::Length(n)),
                RequestBody::Chunked => Ok(ResponseBody::Chunked),
            }
        },
    }
}

/// The lines in front of the empty line that ends a head, and the length of the
/// head.
pub open spec fn head_lines(input: Seq<u8>, before: HeadReaderModel) -> Result<
    (Seq<Seq<u8>>, nat),
    RelayError,
>
    decreases input.len(),
{
    if before.lines.len() > MAX_HEADER_COUNT {
        Err(RelayError::TooManyResponseHeaders)
    } else {
        match body_line(input, MAX_HEADER_BYTES as nat) {
            None => Err(RelayError::InvalidChunkLine),
            Some(n) => if !(0 < n <= input.len()) {
                Err(RelayError::InvalidChunkLine)
            } else {
                match response_line_read(before, input.take(n as int)) {
                    Err(error) => Err(error),
                    Ok((after, complete)) => if complete {
                        Ok((after.lines, n))
                    } else {
                        match head_lines(input.skip(n as int), after) {
                            Ok((lines, rest)) => Ok((lines, n + rest)),
                            Err(error) => Err(error),
                        }
                    },
                }
            },
        }
    }
}

/// The length of the response at the start of the input, with the interim heads
/// in front of it. A response without framing takes the whole input.
pub open spec fn response_end(input: Seq<u8>, head_request: bool) -> Result<nat, RelayError>
    decreases input.len(),
{
    match head_lines(input, HeadReaderModel { lines: Seq::empty(), total: 0 }) {
        Err(error) => Err(error),
        Ok((lines, n)) => if !(0 < n <= input.len()) {
            Err(RelayError::InvalidChunkLine)
        } else {
            match response_head(lines) {
                Err(error) => Err(error),
                Ok((status, headers)) => match response_body(status, headers, head_request) {
                    Err(error) => Err(error),
                    Ok(ResponseBody::Interim) => match response_end(
                        input.skip(n as int),
                        head_request,
                    ) {
                        Ok(rest) => Ok(n + rest),
                        Err(error) => Err(error),
                    },
                    Ok(ResponseBody::Empty) => Ok(n),
                    Ok(ResponseBody::UntilClose) => Ok(input.len()),
                    Ok(ResponseBody::Length(length)) => if input.len() < n + length {
                        Err(RelayError::BodyClosedEarly)
                    } else {
                        Ok(n + length as nat)
                    },
                    Ok(ResponseBody::Chunked) => match chunked_end(input.skip(n as int)) {
                        Ok(rest) => Ok(n + rest),
                        Err(error) => Err(error),
                    },
                },
            }
        },
    }
}

fn read_head_lines(input: &[u8], start: usize) -> (r: Result<(Vec<Vec<u8>>, usize), RelayError>)
    requires
        start <= input@.len(),
    ensures
        match head_lines(
            input@.skip(start as int),
            (HeadReaderModel { lines: Seq::empty(), total: 0 }),
        ) {
            Ok((lines, n)) => r is Ok && lines_of(r->Ok_0.0@) == lines && r->Ok_0.1 == start + n
                && start < r->Ok_0.1 <= input@.len(),
            Err(error) => r is Err && r->Err_0 == error,
        },
{
    let n: usize = input.len();
    let ghost whole = head_lines(
        input@.skip(start as int),
        HeadReaderModel { lines: Seq::empty(), total: 0 },
    );
    let mut reader = ResponseHeadReader::new();
    let mut at: usize = start;
    loop
        invariant
            start <= at <= n,
            n == input@.len(),
            whole == match head_lines(input@.skip(at as int), reader@) {
                Ok((lines, m)) => Ok::<(Seq<Seq<u8>>, nat), RelayError>(
                    (lines, (at - start + m) as nat),
                ),
                Err(error) => Err(error),
            },
            whole == head_lines(
                input@.skip(start as int),
                (HeadReaderModel { lines: Seq::empty(), total: 0 }),
            ),
        decreases n - at,
    {
        if reader.lines.len() > MAX_HEADER_COUNT {
            return Err(RelayError::TooManyResponseHeaders);
        }
        let rest = slice_subrange(input, at, n);
        let ghost tail = input@.skip(at as int);
        assert(rest@ =~= tail);
        let length: usize = match read_body_line(rest, MAX_HEADER_BYTES) {
            Ok(length) => length,
            Err(error) => {
                return Err(error);
            },
        };
        let line = crate::bytes_text::copy_bytes(rest, 0, length);
        assert(line@ =~= tail.take(length as int));
        proof {
            lemma_first_byte(tail, 10);
        }
        match reader.accept_line(line) {
            Err(error) => {
                return Err(error);
            },
            Ok(complete) => {
                if complete {
                    return Ok((reader.lines, at + length));
                }
                assert(tail.skip(length as int) =~= input@.skip(at + length));
                at = at + length;
            },
        }
    }
}

/// The number of bytes that relaying the response at the start of the input
/// passes on.
pub fn find_response_end(input: &[u8], head_request: bool) -> (r: Result<usize, RelayError>)
    ensures
        match response_end(input@, head_request) {
            Ok(n) => r is Ok && r->Ok_0 == n && n <= input@.len(),
            Err(error) => r == Err::<usize, RelayError>(error),
        },
{
    let n: usize = input.len();
    let mut at: usize = 0;
    assert(input@.skip(0) =~= input@);
    loop
        invariant
            at <= n,
            n == input@.len(),
            response_end(input@, head_request) == match response_end(
                input@.skip(at as int),
                head_request,
            ) {
                Ok(m) => Ok::<nat, RelayError>((at + m) as nat),
                Err(error) => Err(error),
            },
        decreases n - at,
    {
        let ghost tail = input@.skip(at as int);
        let (lines, end) = match read_head_lines(input, at) {
            Ok(p) => p,
            Err(error) => {
                return Err(error);
            },
        };
        let (status, headers) = match parse_response_head(&lines) {
            Ok(p) => p,
            Err(error) => {
                return Err(error);
            },
        };
        assert(tail.skip(end - at) =~= input@.skip(end as int));
        match plan_response_body(status, &headers, head_request) {
            Err(error) => {
                return Err(error);
            },
            Ok(body) => match body {
                ResponseBody::Interim => {
                    at = end;
                },
                ResponseBody::Empty => {
                    return Ok(end);
                },
                ResponseBody::UntilClose => {
                    return Ok(n);
                },
                ResponseBody::Length(length) => {
                    if length > (n - end) as u64 {
                        return Err(RelayError::BodyClosedEarly);
                    }
                    return Ok(end + length as usize);
                },
                ResponseBody::Chunked => {
                    let rest = slice_subrange(input, end, n);
                    assert(rest@ =~= input@.skip(end as int));
                    return match find_chunked_end(rest) {
                        Ok(length) => Ok(end + length),
                        Err(error) => Err(error),
                    };
                },
            },
        }
    }
}

/// The number of bytes that relaying a request body passes on.
pub open spec fn request_body_end(input: Seq<u8>, body: RequestBody) -> Result<nat, RelayError> {
    match body {
        RequestBody::Empty => Ok(0),
        RequestBody::ContentLength(n) => if input.len() < n {
            Err(RelayError::BodyClosedEarly)
        } else {
            Ok(n as nat)
        },
        RequestBody::Chunked => chunked_end(input),
    }
}

/// The number of bytes that relaying a request body passes on.
pub fn find_request_body_end(input: &[u8], body: RequestBody) -> (r: Result<usize, RelayError>)
    ensures
        match request_body_end(input@, body) {
            Ok(n) => r is Ok && r->Ok_0 == n && n <= input@.len(),
            Err(error) => r == Err::<usize, RelayError>(error),
        },
{
    match body {
        RequestBody::Empty => Ok(0),
        RequestBody::ContentLength(length) => if length > input.len() as u64 {
            Err(RelayError::BodyClosedEarly)
        } else {
            Ok(length as usize)
        },
        RequestBody::Chunked => find_chunked_end(input),
    }
}

// ---------------------------------------------------------------------------
// Answers to the client
// ---------------------------------------------------------------------------

/// The answer of the proxy itself with a status.
pub open spec fn proxy_response_text(status: u16) -> Seq<char> {
    if status == 200 {
        "HTTP/1.1 200 Connection Established\r\nProxy-Agent: LinkLake\r\n\r\n"@
    } else if status == 400 {
        "HTTP/1.1 400 Bad Request\r\nConnection: close\r\nContent-Length: 0\r\n\r\n"@
    } else if status == 407 {
        "HTTP/1.1 407 Proxy Authentication Required\r\nProxy-Authenticate: Basic realm=\"LinkLake\"\r\nConnection: close\r\nContent-Length: 0\r\n\r\n"@
    } else if status == 502 {
        "HTTP/1.1 502 Bad Gateway\r\nConnection: close\r\nContent-Length: 0\r\n\r\n"@
    } else if status == 503 {
        "HTTP/1.1 503 Service Unavailable\r\nConnection: close\r\nContent-Length: 0\r\n\r\n"@
    } else if status == 504 {
        "HTTP/1.1 504 Gateway Timeout\r\nConnection: close\r\nContent-Length: 0\r\n\r\n"@
    } else {
        "HTTP/1.1 500 Internal Server Error\r\nConnection: close\r\nContent-Length: 0\r\n\r\n"@
    }
}

/// The answer of the proxy itself with a status.
pub fn proxy_response(status: u16) -> (r: &'static str)
    ensures
        r@ == proxy_response_text(status),
{
    if status == 200 {
        "HTTP/1.1 200 Connection Established\r\nProxy-Agent: LinkLake\r\n\r\n"
    } else if status == 400 {
        "HTTP/1.1 400 Bad Request\r\nConnection: close\r\nContent-Length: 0\r\n\r\n"
    } else if status == 407 {
        "HTTP/1.1 407 Proxy Authentication Required\r\nProxy-Authenticate: Basic realm=\"LinkLake\"\r\nConnection: close\r\nContent-Length: 0\r\n\r\n"
    } else if status == 502 {
        "HTTP/1.1 502 Bad Gateway\r\nConnection: close\r\nContent-Length: 0\r\n\r\n"
    } else if status == 503 {
        "HTTP/1.1 503 Service Unavailable\r\nConnection: close\r\nContent-Length: 0\r\n\r\n"
    } else if status == 504 {
        "HTTP/1.1 504 Gateway Timeout\r\nConnection: close\r\nContent-Length: 0\r\n\r\n"
    } else {
        "HTTP/1.1 500 Internal Server Error\r\nConnection: close\r\nContent-Length: 0\r\n\r\n"
    }
}

// ---------------------------------------------------------------------------
// Laws
// ---------------------------------------------------------------------------

proof fn lemma_first_byte_prefix(a: Seq<u8>, b: Seq<u8>, x: u8)
    requires
        first_byte(a, x) < a.len(),
    ensures
        first_byte(a + b, x) == first_byte(a, x),
{
    lemma_first_byte(a, x);
    let i = first_byte(a, x);
    assert((a + b)[i] == a[i]);
    assert forall|j: int| 0 <= j < i implies (a + b)[j] != x by {
        assert((a + b)[j] == a[j]);
    }
    crate::bytes_text::lemma_first_byte_unique(a + b, x, i);
}

proof fn lemma_trailers_prefix(a: Seq<u8>, b: Seq<u8>, total: nat)
    requires
        trailers_end(a, total) is Ok,
    ensures
        trailers_end(a + b, total) == trailers_end(a, total),
        trailers_end(a, total)->Ok_0 <= a.len(),
    decreases a.len(),
{
    lemma_first_byte(a, 10);
    lemma_first_byte_prefix(a, b, 10);
    let n = body_line(a, MAX_HEADER_BYTES as nat)->0;
    assert((a + b)[n - 2] == a[n - 2]);
    if n != 2 {
        lemma_trailers_prefix(a.skip(n as int), b, total + n);
        assert((a + b).skip(n as int) =~= a.skip(n as int) + b);
    }
}

/// Where a chunked body ends does not depend on what follows it.
pub proof fn law_chunked_bodies_end_on_their_own(a: Seq<u8>, b: Seq<u8>)
    requires
        chunked_end(a) is Ok,
    ensures
        chunked_end(a + b) == chunked_end(a),
        chunked_end(a)->Ok_0 <= a.len(),
    decreases a.len(),
{
    lemma_first_byte(a, 10);
    lemma_first_byte_prefix(a, b, 10);
    let n = body_line(a, MAX_CHUNK_LINE_BYTES as nat)->0;
    assert((a + b)[n - 2] == a[n - 2]);
    assert((a + b).take(n as int) =~= a.take(n as int));
    let size = chunk_size(a.take(n as int))->0;
    if size == 0 {
        lemma_trailers_prefix(a.skip(n as int), b, 0);
        assert((a + b).skip(n as int) =~= a.skip(n as int) + b);
    } else {
        let k = n + size + 2;
        assert((a + b)[(n + size) as int] == a[(n + size) as int]);
        assert((a + b)[(n + size + 1) as int] == a[(n + size + 1) as int]);
        law_chunked_bodies_end_on_their_own(a.skip(k as int), b);
        assert((a + b).skip(k as int) =~= a.skip(k as int) + b);
    }
}

proof fn lemma_line_alone(input: Seq<u8>, maximum: nat)
    requires
        body_line(input, maximum) is Some,
    ensures
        ({
            let n = body_line(input, maximum)->0;
            2 <= n <= input.len() && body_line(input.take(n as int), maximum) == Some(n)
        }),
{
    lemma_first_byte(input, 10);
    let n = body_line(input, maximum)->0;
    let line = input.take(n as int);
    assert(line[n - 1] == 10);
    assert forall|j: int| 0 <= j < n - 1 implies line[j] != 10 by {
        assert(line[j] == input[j]);
    }
    lemma_first_byte(line, 10);
    let k = first_byte(line, 10);
    assert(k <= n - 1);
    if k < n - 1 {
        assert(line[k] == 10);
    }
}

/// Reading a body piece by piece finds the same end as looking at it whole:
/// after a line, the rest of the body is what is left of it.
pub proof fn law_chunk_lines_follow_the_body(phase: ChunkPhase, input: Seq<u8>)
    requires
        chunk_want(phase) is Line,
    ensures
        ({
            let maximum = chunk_want(phase)->maximum as nat;
            match body_line(input, maximum) {
                None => rest_of_body(phase, input) == Err::<nat, RelayError>(
                    RelayError::InvalidChunkLine,
                ),
                Some(n) => n <= input.len() && match after_line(phase, input.take(n as int)) {
                    Ok(next) => rest_of_body(phase, input) == shifted(
                        n,
                        rest_of_body(next, input.skip(n as int)),
                    ),
                    Err(error) => rest_of_body(phase, input) == Err::<nat, RelayError>(error),
                },
            }
        }),
{
    let maximum = chunk_want(phase)->maximum as nat;
    if body_line(input, maximum) is Some {
        let n = body_line(input, maximum)->0;
        lemma_line_alone(input, maximum);
        let line = input.take(n as int);
        let rest = input.skip(n as int);
        if phase == ChunkPhase::Size && chunk_size(line) is Some && chunk_size(line)->0 > 0 {
            let size = chunk_size(line)->0;
            assert(size <= u64::MAX);
            if input.len() >= n + size {
                let behind = rest.skip(size as int);
                if behind.len() >= 2 {
                    assert(behind[0] == input[(n + size) as int]);
                    assert(behind[1] == input[(n + size + 1) as int]);
                    assert(behind.skip(2) =~= input.skip((n + size + 2) as int));
                }
            }
        }
    }
}

/// Data and line endings of chunks follow the body likewise.
pub proof fn law_chunk_data_follows_the_body(left: u64, k: u64, input: Seq<u8>)
    requires
        k <= left,
        k <= input.len(),
    ensures
        rest_of_body(ChunkPhase::Data { left }, input) == shifted(
            k as nat,
            rest_of_body(after_data(left, k), input.skip(k as int)),
        ),
        input.len() >= 2 && input[0] == 13 && input[1] == 10 ==> rest_of_body(
            ChunkPhase::Terminator,
            input,
        ) == shifted(2, rest_of_body(ChunkPhase::Size, input.skip(2))),
{
    let rest = input.skip(k as int);
    if k < left && input.len() >= left {
        assert(rest.skip(left - k) =~= input.skip(left as int));
    }
}

/// A line of a request head is taken exactly if it ends the way lines do, no more than
/// 200 lines came before, and all lines together have at most 65536 bytes. An empty
/// line ends the head; every other is kept.
pub proof fn law_request_heads_are_bounded(before: HeadReaderModel, line: Seq<u8>)
    ensures
        ({
            let r = head_line_read(before, line);
            let many = before.lines.len() > 200;
            let big = before.total + line.len() > 65536;
            let ends = line.len() >= 2 && line[line.len() - 2] == 13 && line[line.len() - 1] == 10;
            &&& r is Ok <==> !many && !big && ends
            &&& r is Err && many ==> r->Err_0 is HeaderTooLarge
            &&& r is Err && !many && line.len() == 0 ==> r->Err_0 is Malformed
            &&& r is Err && !many && line.len() > 0 && big ==> r->Err_0 is HeaderTooLarge
            &&& r is Err && !many && !big ==> r->Err_0 is Malformed
            &&& r is Ok ==> {
                let (after, complete) = r->Ok_0;
                &&& complete <==> line.len() == 2
                &&& after.total == before.total + line.len()
                &&& complete ==> after.lines == before.lines
                &&& !complete ==> after.lines == before.lines.push(line)
            }
        }),
{
}

/// A response head has at most as many lines and bytes as a request head, and ends the
/// same way.
pub proof fn law_response_heads_are_bounded(before: HeadReaderModel, line: Seq<u8>)
    ensures
        ({
            let r = response_line_read(before, line);
            let many = before.lines.len() > 200;
            let big = before.total + line.len() > 65536;
            &&& r is Ok <==> !many && !big
            &&& many ==> r->Err_0 is TooManyResponseHeaders
            &&& !many && big ==> r->Err_0 is ResponseHeadersTooLarge
            &&& r is Ok ==> {
                let (after, complete) = r->Ok_0;
                &&& complete <==> line.len() == 2
                &&& after.total == before.total + line.len()
                &&& complete ==> after.lines == before.lines
                &&& !complete ==> after.lines == before.lines.push(line)
            }
        }),
{
}

/// A line of a body reaches to the first line feed, which a carriage return stands
/// before, and is no longer than the maximum.
pub proof fn law_body_lines_end_at_the_first_feed(input: Seq<u8>, maximum: nat, n: nat)
    ensures
        body_line(input, maximum) == Some(n) <==> 2 <= n <= maximum && n <= input.len() && input[n
            - 1] == 10 && input[n - 2] == 13 && forall|i: int|
            0 <= i < n - 1 ==> (#[trigger] input[i]) != 10,
{
    lemma_first_byte(input, 10);
    let feed = first_byte(input, 10);
    if 2 <= n <= maximum && n <= input.len() && input[n - 1] == 10 && input[n - 2] == 13 && (forall|
        i: int,
    |
        0 <= i < n - 1 ==> (#[trigger] input[i]) != 10) {
        if feed < n - 1 {
            assert(input[feed] != 10);
        }
        if n - 1 < feed {
            assert(input[n - 1] != 10);
        }
    }
}

/// The size of a chunk is the hexadecimal number before the first semicolon of its
/// line.
pub proof fn law_chunk_sizes_are_hexadecimal(line: Seq<u8>)
    ensures
        ({
            let bare = without_crlf(line);
            let text = trim(pieces(decode_utf8(bare), ';')[0]);
            &&& chunk_size(line) is Some <==> valid_utf8(bare) && parsed_number(
                text,
                16,
                0xffff_ffff_ffff_ffff,
            ) is Some
            &&& chunk_size(line) is Some ==> chunk_size(line) == parsed_number(
                text,
                16,
                0xffff_ffff_ffff_ffff,
            )
        }),
{
}

/// A chunked body is a line with a size, that many bytes and a line ending, again and
/// again; a size of zero ends it, with the trailers behind.
pub proof fn law_chunks_are_framed_by_their_size(input: Seq<u8>)
    ensures
        ({
            let r = chunked_end(input);
            let line = body_line(input, 8192);
            let n = line->0;
            let size = chunk_size(input.take(n as int));
            let s = size->0;
            let rest = input.skip((n + s + 2) as int);
            &&& line is None ==> r is Err && r->Err_0 is InvalidChunkLine
            &&& line is Some && size is None ==> r is Err && r->Err_0 is InvalidChunkSize
            &&& line is Some && size == Some(0nat) ==> (r is Ok <==> trailers_end(
                input.skip(n as int),
                0,
            ) is Ok) && (r is Ok ==> r->Ok_0 == n + trailers_end(input.skip(n as int), 0)->Ok_0)
            &&& line is Some && size is Some && s > 0 && input.len() < n + s ==> r is Err
                && r->Err_0 is BodyClosedEarly
            &&& line is Some && size is Some && s > 0 && n + s <= input.len() < n + s + 2 ==> r
                is Err && r->Err_0 is EarlyEof
            &&& line is Some && size is Some && s > 0 && input.len() >= n + s + 2 ==> {
                let ended = input[(n + s) as int] == 13 && input[(n + s + 1) as int] == 10;
                &&& !ended ==> r is Err && r->Err_0 is InvalidChunkTerminator
                &&& ended ==> (r is Ok <==> chunked_end(rest) is Ok)
                &&& ended && r is Ok ==> r->Ok_0 == n + s + 2 + chunked_end(rest)->Ok_0
            }
        }),
{
}

/// Trailers are lines up to an empty one, and have at most as many bytes as a head.
pub proof fn law_trailers_end_at_an_empty_line(input: Seq<u8>, total: nat)
    ensures
        ({
            let r = trailers_end(input, total);
            let line = body_line(input, 65536);
            let n = line->0;
            &&& line is None ==> r is Err && r->Err_0 is InvalidChunkLine
            &&& line is Some && total + n > 65536 ==> r is Err && r->Err_0 is TrailersTooLarge
            &&& line is Some && total + n <= 65536 && n == 2 ==> r == Ok::<nat, RelayError>(2)
            &&& line is Some && total + n <= 65536 && n > 2 ==> {
                let rest = trailers_end(input.skip(n as int), total + n);
                &&& r is Ok <==> rest is Ok
                &&& r is Ok ==> r->Ok_0 == n + rest->Ok_0
                &&& r is Err ==> r->Err_0 == rest->Err_0
            }
        }),
{
    if body_line(input, 65536) is Some {
        law_body_lines_end_at_the_first_feed(input, 65536, body_line(input, 65536)->0);
    }
}

/// A reader of a chunked body wants what the body holds next: a line, the rest of a
/// chunk, a line ending, or nothing once it is done.
pub proof fn law_chunk_readers_want_what_comes_next(phase: ChunkPhase, line: Seq<u8>)
    ensures
        phase is Size ==> chunk_want(phase) == (ChunkWant::Line { maximum: 8192 }),
        phase is Trailers ==> chunk_want(phase) is Line && chunk_want(phase)->maximum == 65536,
        phase is Data ==> chunk_want(phase) is Data && chunk_want(phase)->left == phase->left,
        phase is Terminator <==> chunk_want(phase) is Terminator,
        phase is Done <==> chunk_want(phase) is Nothing,
        phase is Size && after_line(phase, line) is Ok ==> {
            let size = chunk_size(line)->0;
            &&& chunk_size(line) is Some
            &&& size == 0 ==> after_line(phase, line)->Ok_0 == (ChunkPhase::Trailers { total: 0 })
            &&& size > 0 ==> after_line(phase, line)->Ok_0 is Data && after_line(
                phase,
                line,
            )->Ok_0->left == size
        },
        phase is Trailers && after_line(phase, line) is Ok ==> phase->total + line.len()
            <= 65536 && (after_line(phase, line)->Ok_0 is Done <==> line.len() == 2),
        !(phase is Size) && !(phase is Trailers) ==> after_line(phase, line) is Err,
{
    lemma_size_fits(line);
}

proof fn lemma_size_fits(line: Seq<u8>)
    ensures
        chunk_size(line) is Some ==> chunk_size(line)->0 <= 0xffff_ffff_ffff_ffff,
{
}

/// The rest of a chunk shrinks by what was read, and the line ending follows it.
pub proof fn law_chunks_are_read_to_their_end(left: u64, n: u64)
    ensures
        n < left ==> after_data(left, n) == (ChunkPhase::Data { left: (left - n) as u64 }),
        n >= left ==> after_data(left, n) is Terminator,
{
}

/// A status line is accepted exactly if its second word is a number from 100 to 599
/// and its first is HTTP/1.0 or HTTP/1.1.
pub proof fn law_status_lines_name_version_and_code(line: Seq<u8>)
    ensures
        ({
            let r = status_code(line);
            let text = valid_utf8(without_crlf(line));
            let parts = pieces(decode_utf8(without_crlf(line)), ' ');
            let code = parsed_number(parts[1], 10, 65535);
            let sound = parts.len() >= 2 && code is Some && 100 <= code->0 <= 599;
            let version = parts[0] == "HTTP/1.0"@ || parts[0] == "HTTP/1.1"@;
            &&& r is Ok <==> text && sound && version
            &&& r is Ok ==> r->Ok_0 == code->0
            &&& !text ==> r->Err_0 is InvalidStatusLine
            &&& text && !sound ==> r->Err_0 is InvalidStatusCode
            &&& text && sound && !version ==> r->Err_0 is UnsupportedResponseVersion
        }),
{
}

/// A response head is a status line and header fields.
pub proof fn law_response_heads_are_status_and_fields(lines: Seq<Seq<u8>>)
    ensures
        ({
            let r = response_head(lines);
            let status = status_code(lines[0]);
            let fields = header_fields(lines.skip(1));
            &&& r is Ok <==> lines.len() > 0 && status is Ok && fields is Some
            &&& r is Ok ==> r->Ok_0.0 == status->Ok_0 && r->Ok_0.1 == fields->0
            &&& lines.len() == 0 ==> r->Err_0 is MissingStatusLine
            &&& lines.len() > 0 && status is Err ==> r->Err_0 == status->Err_0
            &&& lines.len() > 0 && status is Ok && fields is None ==> r->Err_0
                is InvalidResponseHeaders
        }),
{
}

/// A response to a HEAD request, and one without content, has no body; one without
/// framing reaches to the end of the connection. Interim responses are followed by
/// another head, and upgrades are refused.
pub proof fn law_response_bodies_follow_their_head(
    status: u16,
    headers: Seq<HeaderModel>,
    head_request: bool,
)
    ensures
        ({
            let r = response_body(status, headers, head_request);
            let f = framing_of(headers);
            let bare = head_request || status == 204 || status == 304;
            let interim = 100 <= status <= 199;
            &&& status == 101 <==> r is Err && r->Err_0 is UpgradeRequiresConnect
            &&& r is Ok && r->Ok_0 is Interim <==> interim && status != 101
            &&& r is Err && r->Err_0 is AmbiguousResponseFraming <==> !interim && f is None
            &&& !interim && f is Some ==> {
                &&& r is Ok
                &&& r->Ok_0 is Empty <==> bare
                &&& r->Ok_0 is UntilClose <==> !bare && f->0 is Empty
                &&& r->Ok_0 is Chunked <==> !bare && f->0 is Chunked
                &&& r->Ok_0 is Length <==> !bare && f->0 is ContentLength
                &&& r->Ok_0 is Length ==> r->Ok_0->Length_0 == f->0->ContentLength_0
            }
        }),
{
}

/// A response ends behind its head and its body: at once, after its length, after its
/// last chunk, at the end of the connection, or after the response behind an interim
/// one.
pub proof fn law_responses_end_behind_their_body(input: Seq<u8>, head_request: bool)
    requires
        head_lines(input, HeadReaderModel { lines: Seq::empty(), total: 0 }) is Ok,
        ({
            let (lines, n) = head_lines(
                input,
                HeadReaderModel { lines: Seq::empty(), total: 0 },
            )->Ok_0;
            &&& 0 < n <= input.len()
            &&& response_head(lines) is Ok
            &&& response_body(
                response_head(lines)->Ok_0.0,
                response_head(lines)->Ok_0.1,
                head_request,
            ) is Ok
        }),
    ensures
        ({
            let (lines, n) = head_lines(
                input,
                HeadReaderModel { lines: Seq::empty(), total: 0 },
            )->Ok_0;
            let (status, headers) = response_head(lines)->Ok_0;
            let body = response_body(status, headers, head_request)->Ok_0;
            let r = response_end(input, head_request);
            &&& body is Empty ==> r == Ok::<nat, RelayError>(n)
            &&& body is UntilClose ==> r == Ok::<nat, RelayError>(input.len())
            &&& body is Length && n + body->Length_0 <= input.len() ==> r is Ok && r->Ok_0 == n
                + body->Length_0
            &&& body is Length && n + body->Length_0 > input.len() ==> r is Err
                && r->Err_0 is BodyClosedEarly
            &&& body is Chunked ==> r == shifted(n, chunked_end(input.skip(n as int)))
            &&& body is Interim ==> r == shifted(
                n,
                response_end(input.skip(n as int), head_request),
            )
        }),
{
}

/// The body of a request ends at once, after its length, or after its last chunk.
pub proof fn law_request_bodies_end_where_framed(input: Seq<u8>, body: RequestBody)
    ensures
        body is Empty ==> request_body_end(input, body) == Ok::<nat, RelayError>(0),
        body is ContentLength && body->ContentLength_0 <= input.len() ==> request_body_end(
            input,
            body,
        ) is Ok && request_body_end(input, body)->Ok_0 == body->ContentLength_0,
        body is ContentLength && body->ContentLength_0 > input.len() ==> request_body_end(
            input,
            body,
        ) is Err && request_body_end(input, body)->Err_0 is BodyClosedEarly,
        body is Chunked ==> request_body_end(input, body) == chunked_end(input),
{
}

/// A chunk has to be ended by a line ending, and another size follows it.
pub proof fn law_chunks_end_with_a_line(
    reader: &mut ChunkedReader,
    first: u8,
    second: u8,
    r: Result<(), RelayError>,
)
    requires
        call_ensures(ChunkedReader::accept_terminator, (reader, first, second), r),
    ensures
        r is Ok <==> old(reader).phase is Terminator && first == 13 && second == 10,
        r is Ok ==> final(reader).phase is Size,
        r is Err ==> r->Err_0 is InvalidChunkTerminator && *final(reader) == *old(reader),
{
}

/// What was read of a chunk is taken off what is left of it, and ignored elsewhere.
pub proof fn law_data_is_taken_off_the_chunk(reader: &mut ChunkedReader, n: u64)
    requires
        call_ensures(ChunkedReader::accept_data, (reader, n), ()),
    ensures
        ({
            let left = old(reader).phase->left;
            &&& !(old(reader).phase is Data) ==> final(reader).phase == old(reader).phase
            &&& old(reader).phase is Data && n < left ==> final(reader).phase is Data && final(reader).phase->left == left - n
            &&& old(reader).phase is Data && n >= left ==> final(reader).phase is Terminator
        }),
{
}

} // verus!
