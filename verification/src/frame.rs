//! Framing: a header that gives the byte length of a body, a blank line, and the body.

use crate::error::VcsError;
use crate::text::{
    characters, decimal, decimal_text, number_problem, parse_unsigned, same_ignoring_case,
    starts_with_word, trim_bounds, trimmed, unsigned_value, utf8_problem, utf8_text,
};
use vstd::prelude::*;
use vstd::utf8::*;

verus! {

/// The longest body that either side sends.
pub const MAX_MESSAGE_BYTES: usize = 32 * 1024 * 1024;

/// The longest header, its line ends included.
pub const MAX_HEADER_BYTES: usize = 8192;

/// What has been read of a header: its bytes so far, and the body length once it was given.
#[derive(Clone, Copy, Debug, PartialEq, Eq, Structural)]
pub struct FrameHeader {
    pub bytes: usize,
    pub length: Option<usize>,
}

/// What follows a header line: another line, or a body of the given length.
#[derive(Clone, Copy, Debug, PartialEq, Eq)]
pub enum HeaderStep {
    More,
    Body(usize),
}

/// `text` without the line ends (`\r\n`) that it ends with.
pub open spec fn without_line_end(text: Seq<char>) -> Seq<char>
    decreases text.len(),
{
    if text.len() >= 2 && text[text.len() - 2] == '\r' && text[text.len() - 1] == '\n' {
        without_line_end(text.take(text.len() - 2))
    } else {
        text
    }
}

/// The body length after a header field, given the length known before it. Only the field
/// `Content-Length`, in any case, counts.
pub open spec fn field_length(known: Option<usize>, field: Seq<char>) -> Result<
    Option<usize>,
    VcsError,
> {
    match field.index_of_first(':') {
        None => Err(VcsError::InvalidHeader),
        Some(colon) => if !same_ignoring_case(field.take(colon), "Content-Length"@) {
            Ok(known)
        } else if known is Some {
            Err(VcsError::DuplicateLength)
        } else {
            let text = trimmed(field.skip(colon + 1));
            match unsigned_value(text) {
                Some(value) if value <= usize::MAX => Ok(Some(value as usize)),
                _ => Err(VcsError::InvalidLength(number_problem(text))),
            }
        },
    }
}

/// What a header line does to a header, and what follows it. An empty line is the end of the
/// stream.
pub open spec fn header_line(header: FrameHeader, line: Seq<u8>) -> Result<
    (HeaderStep, FrameHeader),
    VcsError,
> {
    let bytes = header.bytes + line.len();
    if line.len() == 0 {
        Err(VcsError::ClosedStdout)
    } else if bytes > MAX_HEADER_BYTES {
        Err(VcsError::HeaderTooLarge)
    } else if line == seq![13u8, 10u8] {
        match header.length {
            None => Err(VcsError::MissingLength),
            Some(length) => if length > MAX_MESSAGE_BYTES {
                Err(VcsError::MessageTooLarge)
            } else {
                Ok((HeaderStep::Body(length), FrameHeader { bytes: bytes as usize, ..header }))
            },
        }
    } else if !valid_utf8(line) {
        Err(VcsError::InvalidHeaderText(utf8_problem(line)))
    } else {
        match field_length(header.length, without_line_end(decode_utf8(line))) {
            Ok(length) => Ok((HeaderStep::More, FrameHeader { bytes: bytes as usize, length })),
            Err(error) => Err(error),
        }
    }
}

/// The end of `chars` once the line ends that it ends with are taken off.
fn line_content_end(chars: &[char]) -> (end: usize)
    ensures
        end <= chars@.len(),
        chars@.take(end as int) == without_line_end(chars@),
{
    let mut end: usize = chars.len();
    assert(chars@.take(end as int) == chars@);
    while end >= 2 && chars[end - 2] == '\r' && chars[end - 1] == '\n'
        invariant
            end <= chars@.len(),
            without_line_end(chars@.take(end as int)) == without_line_end(chars@),
        decreases end,
    {
        assert(chars@.take(end as int).take(end - 2) == chars@.take(end - 2));
        end -= 2;
    }
    end
}

/// Reads one header field from the first `end` characters of `chars`.
fn read_field(known: Option<usize>, chars: &[char], end: usize) -> (length: Result<
    Option<usize>,
    VcsError,
>)
    requires
        end <= chars@.len(),
    ensures
        length == field_length(known, chars@.take(end as int)),
{
    let ghost field = chars@.take(end as int);
    let mut colon: usize = 0;
    while colon < end && chars[colon] != ':'
        invariant
            colon <= end <= chars@.len(),
            field == chars@.take(end as int),
            forall|j: int| 0 <= j < colon ==> field[j] != ':',
        decreases end - colon,
    {
        colon += 1;
    }
    proof {
        field.index_of_first_ensures(':');
    }
    if colon == end {
        return Err(VcsError::InvalidHeader);
    }
    proof {
        crate::text::lemma_first_position(field, ':', colon as int);
        assert(field.take(colon as int) == chars@.take(colon as int));
        assert(field.skip(colon + 1) == chars@.subrange(colon + 1, end as int));
    }
    if !starts_with_word(chars, colon, "Content-Length") {
        return Ok(known);
    }
    if known.is_some() {
        return Err(VcsError::DuplicateLength);
    }
    let (from, to) = trim_bounds(chars, colon + 1, end);
    match parse_unsigned(chars, from, to) {
        Ok(length) => Ok(Some(length)),
        Err(problem) => Err(VcsError::InvalidLength(problem)),
    }
}

impl FrameHeader {
    /// A header of which nothing has been read.
    pub fn new() -> (header: FrameHeader)
        ensures
            header == (FrameHeader { bytes: 0, length: None }),
    {
        FrameHeader { bytes: 0, length: None }
    }

    /// Takes the next line of the header, its line end included; an empty one where the stream
    /// has ended. A line that is refused leaves the header as it was.
    pub fn accept(&mut self, line: &[u8]) -> (step: Result<HeaderStep, VcsError>)
        ensures
            match header_line(*old(self), line@) {
                Ok((next, header)) => step == Ok::<HeaderStep, VcsError>(next) && *final(self)
                    == header,
                Err(error) => step == Err::<HeaderStep, VcsError>(error) && *final(self) == *old(self),
            },
    {
        if line.len() == 0 {
            return Err(VcsError::ClosedStdout);
        }
        if self.bytes > MAX_HEADER_BYTES || line.len() > MAX_HEADER_BYTES - self.bytes {
            return Err(VcsError::HeaderTooLarge);
        }
        let bytes: usize = self.bytes + line.len();
        if line.len() == 2 && line[0] == 13u8 && line[1] == 10u8 {
            assert(line@ == seq![13u8, 10u8]);
            return match self.length {
                None => Err(VcsError::MissingLength),
                Some(length) => if length > MAX_MESSAGE_BYTES {
                    Err(VcsError::MessageTooLarge)
                } else {
                    self.bytes = bytes;
                    Ok(HeaderStep::Body(length))
                },
            };
        }
        match utf8_text(line) {
            Err(problem) => Err(VcsError::InvalidHeaderText(problem)),
            Ok(text) => {
                let chars: Vec<char> = characters(&text);
                let end: usize = line_content_end(&chars);
                match read_field(self.length, &chars, end) {
                    Ok(length) => {
                        self.bytes = bytes;
                        self.length = length;
                        Ok(HeaderStep::More)
                    },
                    Err(error) => Err(error),
                }
            },
        }
    }
}

/// The most bytes that are read in search of a line end.
pub const MAX_LINE_BYTES: usize = 8193;

/// The length of the first line of `input`, its line feed included: up to the first line feed,
/// the end of the input, or the longest line that is read.
pub open spec fn line_length(input: Seq<u8>) -> int {
    let limit = if input.len() < MAX_LINE_BYTES {
        input.len() as int
    } else {
        MAX_LINE_BYTES as int
    };
    match input.index_of_first(10u8) {
        Some(i) => if i < limit {
            i + 1
        } else {
            limit
        },
        None => limit,
    }
}

/// Reads header lines from `input`: the length of the body, and how many bytes the header took.
pub open spec fn read_header(header: FrameHeader, input: Seq<u8>) -> Result<(usize, int), VcsError>
    decreases input.len(),
{
    let line = line_length(input);
    match header_line(header, input.take(line)) {
        Err(error) => Err(error),
        Ok((HeaderStep::Body(length), _)) => Ok((length, line)),
        Ok((HeaderStep::More, next)) => if 0 < line <= input.len() {
            after(line, read_header(next, input.skip(line)))
        } else {
            Err(VcsError::ClosedStdout)
        },
    }
}

/// The outcome of reading a header when `skipped` more bytes stood before it.
pub open spec fn after(skipped: int, header: Result<(usize, int), VcsError>) -> Result<
    (usize, int),
    VcsError,
> {
    match header {
        Ok((length, taken)) => Ok((length, skipped + taken)),
        Err(error) => Err(error),
    }
}

/// The first frame of `input`: its body, and how many bytes header and body take.
pub open spec fn first_frame(input: Seq<u8>) -> Result<(Seq<u8>, int), VcsError> {
    match read_header(FrameHeader { bytes: 0, length: None }, input) {
        Err(error) => Err(error),
        Ok((length, taken)) => if taken + length > input.len() {
            Err(VcsError::TruncatedBody)
        } else {
            Ok((input.subrange(taken, taken + length), taken + length))
        },
    }
}

/// The length of the first line of what follows `start` in `input`.
fn find_line(input: &[u8], start: usize) -> (length: usize)
    requires
        start <= input@.len(),
    ensures
        length == line_length(input@.skip(start as int)),
        length <= input@.len() - start,
        length == 0 ==> start == input@.len(),
{
    let ghost rest = input@.skip(start as int);
    let available: usize = input.len() - start;
    let limit: usize = if available < MAX_LINE_BYTES {
        available
    } else {
        MAX_LINE_BYTES
    };
    let mut i: usize = 0;
    proof {
        rest.index_of_first_ensures(10u8);
    }
    while i < limit
        invariant
            i <= limit <= available == input@.len() - start,
            start <= input@.len() <= usize::MAX,
            rest == input@.skip(start as int),
            forall|j: int| 0 <= j < i ==> rest[j] != 10u8,
            limit == if available < MAX_LINE_BYTES { available } else { MAX_LINE_BYTES },
            match rest.index_of_first(10u8) {
                Some(index) => 0 <= index < rest.len() && rest[index] == 10u8 && forall|j: int|
                    0 <= j < index ==> rest[j] != 10u8,
                None => !rest.contains(10u8),
            },
        decreases limit - i,
    {
        if input[start + i] == 10u8 {
            assert(rest[i as int] == 10u8);
            assert(rest.contains(10u8));
            assert(rest.index_of_first(10u8) == Some(i as int));
            return i + 1;
        }
        i += 1;
    }
    limit
}

/// A frame taken off the front of some bytes: its body, and how many bytes it took.
pub struct Frame {
    pub body: Vec<u8>,
    pub taken: usize,
}

/// Takes the first frame off `input`.
pub fn read_frame(input: &[u8]) -> (frame: Result<Frame, VcsError>)
    ensures
        match first_frame(input@) {
            Ok((body, taken)) => frame matches Ok(frame) && frame.body@ == body && frame.taken
                == taken,
            Err(error) => frame matches Err(e) && e == error,
        },
{
    let mut header: FrameHeader = FrameHeader::new();
    let mut start: usize = 0;
    let total: usize = input.len();
    let ghost begin = FrameHeader { bytes: 0, length: None };
    assert(input@.skip(0) == input@);
    proof {
        let whole = read_header(begin, input@);
        assert(after(0, whole) == whole);
    }
    loop
        invariant
            start <= total == input@.len(),
            begin == (FrameHeader { bytes: 0, length: None }),
            read_header(begin, input@) == after(
                start as int,
                read_header(header, input@.skip(start as int)),
            ),
        decreases input@.len() - start,
    {
        let ghost before = header;
        let ghost rest = input@.skip(start as int);
        let length: usize = find_line(input, start);
        let line: &[u8] = vstd::slice::slice_subrange(input, start, start + length);
        assert(line@ == rest.take(length as int));
        match header.accept(line) {
            Err(error) => {
                return Err(error);
            },
            Ok(HeaderStep::Body(body)) => {
                let taken: usize = start + length;
                if body > total - taken {
                    return Err(VcsError::TruncatedBody);
                }
                let bytes: &[u8] = vstd::slice::slice_subrange(input, taken, taken + body);
                return Ok(Frame { body: vstd::slice::slice_to_vec(bytes), taken: taken + body });
            },
            Ok(HeaderStep::More) => {
                assert(rest.skip(length as int) == input@.skip(start + length));
                start += length;
            },
        }
    }
}

/// The header of a body of `length` bytes.
pub open spec fn frame_header(length: nat) -> Seq<char> {
    "Content-Length: "@ + decimal(length) + "\r\n\r\n"@
}

/// The frame of `body`: its header, then its bytes.
pub open spec fn frame_bytes(body: Seq<u8>) -> Seq<u8> {
    encode_utf8(frame_header(body.len())) + body
}

/// Puts `body` in a frame; a body longer than the limit is refused.
pub fn write_frame(body: &[u8]) -> (frame: Result<Vec<u8>, VcsError>)
    ensures
        if body@.len() > MAX_MESSAGE_BYTES {
            frame == Err::<Vec<u8>, VcsError>(VcsError::RequestTooLarge)
        } else {
            frame matches Ok(bytes) && bytes@ == frame_bytes(body@)
        },
{
    if body.len() > MAX_MESSAGE_BYTES {
        return Err(VcsError::RequestTooLarge);
    }
    let mut header: String = "Content-Length: ".to_owned();
    header.append(&decimal_text(body.len() as u64));
    header.append("\r\n\r\n");
    let mut bytes: Vec<u8> = header.as_str().as_bytes_vec();
    let mut tail: Vec<u8> = vstd::slice::slice_to_vec(body);
    bytes.append(&mut tail);
    Ok(bytes)
}

/// Decimal notation of a body length takes few characters.
proof fn lemma_length_digits(n: nat)
    requires
        n <= MAX_MESSAGE_BYTES,
    ensures
        decimal(n).len() <= 8,
{
    reveal_with_fuel(decimal, 8);
}

/// The header of a frame is read as the length it was written for, whatever follows it.
proof fn lemma_header_read_back(length: nat, rest: Seq<u8>)
    requires
        length <= MAX_MESSAGE_BYTES,
    ensures
        read_header(
            FrameHeader { bytes: 0, length: None },
            encode_utf8(frame_header(length)) + rest,
        ) == Ok::<(usize, int), VcsError>(
            (length as usize, encode_utf8(frame_header(length)).len() as int),
        ),
{
    let begin = FrameHeader { bytes: 0, length: None };
    let digits = decimal(length);
    let text = frame_header(length);
    let input = encode_utf8(text) + rest;
    let field = "Content-Length: "@ + digits;
    let line = field + "\r\n"@;
    reveal_strlit("Content-Length: ");
    reveal_strlit("Content-Length");
    reveal_strlit("\r\n");
    reveal_strlit("\r\n\r\n");
    lemma_length_digits(length);
    crate::text::law_decimal_is_read_back(length);
    assert(forall|i: int| 0 <= i < digits.len() ==> crate::text::is_digit(#[trigger] digits[i]));
    assert(is_ascii_chars(text));
    assert(is_ascii_chars(line));
    is_ascii_chars_encode_utf8(text);
    is_ascii_chars_encode_utf8(line);
    let k = line.len() as int;
    // The first line is the field, the second is blank.
    assert(text.len() == k + 2);
    assert forall|j: int| 0 <= j < k - 1 implies input[j] != 10u8 by {
        assert(input[j] == text[j] as u8);
        if 16 <= j < 16 + digits.len() {
            assert(text[j] == digits[j - 16]);
        }
    }
    assert(input[k - 1] == text[k - 1] as u8);
    assert(line_length(input) == k) by {
        input.index_of_first_ensures(10u8);
        assert(input.contains(input[k - 1]));
    }
    assert(input.take(k) == encode_utf8(line)) by {
        assert forall|j: int| 0 <= j < k implies input.take(k)[j] == encode_utf8(line)[j] by {
            assert(input[j] == text[j] as u8);
            assert(text[j] == line[j]);
        }
    }
    encode_utf8_decode_utf8(line);
    encode_utf8_valid_utf8(line);
    assert(encode_utf8(line) != seq![13u8, 10u8]) by {
        assert(encode_utf8(line)[0] == line[0] as u8);
        assert(line[0] == 'C');
    }
    // The field gives the length.
    assert(without_line_end(line) == field) by {
        reveal_with_fuel(without_line_end, 2);
        assert(line.take(k - 2) == field);
        assert(field[field.len() - 1] == digits[digits.len() - 1]);
    }
    crate::text::lemma_first_position(field, ':', 14);
    assert(field.take(14) == "Content-Length"@);
    let value = field.skip(15);
    assert(value == seq![' '] + digits);
    assert(trimmed(value) == digits) by {
        reveal_with_fuel(crate::text::trim_start, 2);
        assert(value.skip(1) == digits);
    }
    let read = FrameHeader { bytes: k as usize, length: Some(length as usize) };
    assert(header_line(begin, input.take(k)) == Ok::<(HeaderStep, FrameHeader), VcsError>(
        (HeaderStep::More, read),
    ));
    // The blank line ends the header.
    let second = input.skip(k);
    assert(second[0] == 13u8 && second[1] == 10u8) by {
        assert(input[k] == text[k] as u8);
        assert(input[k + 1] == text[k + 1] as u8);
    }
    assert(line_length(second) == 2) by {
        second.index_of_first_ensures(10u8);
        assert(second.contains(second[1]));
    }
    assert(second.take(2) == seq![13u8, 10u8]);
    assert(read_header(read, second) == Ok::<(usize, int), VcsError>((length as usize, 2)));
}

/// Reading gives back what was written: a body in its frame, followed by anything, is read as
/// that body, and exactly the frame is taken.
pub proof fn law_frame_is_read_back(body: Seq<u8>, rest: Seq<u8>)
    requires
        body.len() <= MAX_MESSAGE_BYTES,
    ensures
        first_frame(frame_bytes(body) + rest) == Ok::<(Seq<u8>, int), VcsError>(
            (body, frame_bytes(body).len() as int),
        ),
{
    let header = encode_utf8(frame_header(body.len()));
    let input = frame_bytes(body) + rest;
    assert(input == header + (body + rest));
    lemma_header_read_back(body.len(), body + rest);
    let taken = header.len() as int;
    assert(input.subrange(taken, taken + body.len()) == body);
}

/// A header takes no more than its limit, and announces no body beyond its own.
pub proof fn law_header_is_bounded(header: FrameHeader, input: Seq<u8>)
    ensures
        read_header(header, input) matches Ok((length, taken)) ==> {
            &&& 0 < taken <= input.len()
            &&& header.bytes + taken <= MAX_HEADER_BYTES
            &&& length <= MAX_MESSAGE_BYTES
        },
    decreases input.len(),
{
    let line = line_length(input);
    input.index_of_first_ensures(10u8);
    if let Ok((HeaderStep::More, next)) = header_line(header, input.take(line)) {
        if 0 < line <= input.len() {
            law_header_is_bounded(next, input.skip(line));
        }
    }
}

/// Line ends at the end of a line do not count, and nothing else is taken off it.
pub proof fn law_line_ends_are_taken_off(text: Seq<char>)
    ensures
        without_line_end(text + seq!['\r', '\n']) == without_line_end(text),
        text.len() < 2 || text[text.len() - 2] != '\r' || text.last() != '\n' ==> without_line_end(
            text,
        ) == text,
{
    let ended = text + seq!['\r', '\n'];
    assert(ended.take(ended.len() - 2) =~= text);
}

/// A field is a name and a value with a colon between. The name `Content-Length`, in any case, gives
/// the length of the body as the number that its value is, and only once; any other name changes
/// nothing.
pub proof fn law_fields_give_the_length_once(
    known: Option<usize>,
    name: Seq<char>,
    value: Seq<char>,
)
    requires
        !name.contains(':'),
    ensures
        field_length(known, name) == Err::<Option<usize>, VcsError>(VcsError::InvalidHeader),
        !same_ignoring_case(name, "Content-Length"@) ==> field_length(
            known,
            name + seq![':'] + value,
        ) == Ok::<Option<usize>, VcsError>(known),
        same_ignoring_case(name, "Content-Length"@) ==> {
            let length = field_length(known, name + seq![':'] + value);
            let number = unsigned_value(trimmed(value));
            &&& known is Some ==> length == Err::<Option<usize>, VcsError>(
                VcsError::DuplicateLength,
            )
            &&& known is None ==> {
                &&& length is Ok <==> number is Some && number->0 <= usize::MAX
                &&& length matches Ok(length) ==> length is Some && length->0 == number->0
                &&& length matches Err(error) ==> error == VcsError::InvalidLength(
                    number_problem(trimmed(value)),
                )
            }
        },
{
    let field = name + seq![':'] + value;
    let colon = name.len() as int;
    name.index_of_first_ensures(':');
    assert(field[colon] == ':');
    assert forall|j: int| 0 <= j < colon implies field[j] != ':' by {
        assert(name.contains(name[j]));
    }
    crate::text::lemma_first_position(field, ':', colon);
    assert(field.take(colon) =~= name);
    assert(field.skip(colon + 1) =~= value);
}

/// A header ends at a blank line, and with the length that was given before it. Every line counts
/// with all of its bytes, of which there are at most 8192, and gives at most 32 MiB as the length.
pub proof fn law_headers_end_at_a_blank_line(header: FrameHeader, line: Seq<u8>)
    ensures
        header_line(header, line) matches Ok((step, next)) ==> {
            &&& line.len() > 0
            &&& next.bytes == header.bytes + line.len() <= 8192
            &&& step is Body <==> line == seq![13u8, 10u8]
            &&& step matches HeaderStep::Body(length) ==> header.length == Some(length) && next.length
                == header.length && length <= 33554432
            &&& header.length is Some ==> next.length == header.length
        },
        line.len() == 0 ==> header_line(header, line) == Err::<(HeaderStep, FrameHeader), VcsError>(
            VcsError::ClosedStdout,
        ),
        line.len() > 0 && header.bytes + line.len() > 8192 ==> header_line(header, line) == Err::<
            (HeaderStep, FrameHeader),
            VcsError,
        >(VcsError::HeaderTooLarge),
        line == seq![13u8, 10u8] && header.bytes + 2 <= 8192 ==> match header.length {
            None => header_line(header, line) == Err::<(HeaderStep, FrameHeader), VcsError>(
                VcsError::MissingLength,
            ),
            Some(length) => if length > 33554432 {
                header_line(header, line) == Err::<(HeaderStep, FrameHeader), VcsError>(
                    VcsError::MessageTooLarge,
                )
            } else {
                header_line(header, line) is Ok
            },
        },
        line.len() > 0 && line != seq![13u8, 10u8] && header.bytes + line.len() <= 8192
            && valid_utf8(line) ==> (header_line(header, line) is Ok <==> field_length(
            header.length,
            without_line_end(decode_utf8(line)),
        ) is Ok),
{
}

/// A line goes to the first line feed, which belongs to it.
pub proof fn law_lines_end_at_their_line_feed(line: Seq<u8>, rest: Seq<u8>)
    requires
        !line.contains(10u8),
        line.len() < 8193,
    ensures
        line_length(line + seq![10u8] + rest) == line.len() + 1,
        line_length(line) == line.len(),
{
    let input = line + seq![10u8] + rest;
    let at = line.len() as int;
    line.index_of_first_ensures(10u8);
    input.index_of_first_ensures(10u8);
    assert(input[at] == 10u8);
    assert(input.contains(10u8));
    assert forall|j: int| 0 <= j < at implies input[j] != 10u8 by {
        assert(line.contains(line[j]));
    }
}

proof fn lemma_header_is_the_same(header: FrameHeader, input: Seq<u8>, rest: Seq<u8>)
    requires
        read_header(header, input) is Ok,
    ensures
        read_header(header, input + rest) == read_header(header, input),
    decreases input.len(),
{
    let whole = input + rest;
    let line = line_length(input);
    input.index_of_first_ensures(10u8);
    whole.index_of_first_ensures(10u8);
    match header_line(header, input.take(line)) {
        Ok((HeaderStep::Body(_), _)) => {
            assert(input.take(line)[1] == 10u8);
            assert(input[1] == 10u8 && input[0] == 13u8);
            assert(whole[1] == 10u8 && whole[0] == 13u8);
            assert(whole.contains(10u8));
            assert(line_length(whole) == 2);
            assert(whole.take(2) =~= input.take(2));
        },
        Ok((HeaderStep::More, next)) => {
            law_header_is_bounded(next, input.skip(line));
            if line == input.len() {
                assert(false);
            }
            assert(header.bytes + line <= MAX_HEADER_BYTES);
            let at = line - 1;
            assert(input[at] == 10u8);
            assert(whole[at] == 10u8);
            assert(whole.contains(10u8));
            assert forall|j: int| 0 <= j < at implies whole[j] != 10u8 by {
                assert(whole[j] == input[j]);
            }
            assert(line_length(whole) == line);
            assert(whole.take(line) =~= input.take(line));
            assert(whole.skip(line) =~= input.skip(line) + rest);
            lemma_header_is_the_same(next, input.skip(line), rest);
        },
        Err(_) => {},
    }
}

/// A frame is read from the front of what there is: its body is the last of the bytes that it takes,
/// and what follows them makes no difference.
pub proof fn law_frames_stand_first(input: Seq<u8>, rest: Seq<u8>)
    ensures
        first_frame(input) matches Ok((body, taken)) ==> {
            &&& body.len() < taken <= input.len()
            &&& body == input.subrange(taken - body.len(), taken)
            &&& first_frame(input + rest) == first_frame(input)
        },
{
    let begin = FrameHeader { bytes: 0, length: None };
    law_header_is_bounded(begin, input);
    if let Ok((body, taken)) = first_frame(input) {
        lemma_header_is_the_same(begin, input, rest);
        assert((input + rest).subrange(taken - body.len(), taken) =~= input.subrange(
            taken - body.len(),
            taken,
        ));
    }
}

} // verus!
