//! The request codec: from the bytes of one read to a `Request`.
//!
//! A request is cut into lines. A line ends with a carriage return and a
//! line feed, or with either of the two alone, so requests in both styles
//! are read alike. The first line names the method and the path. The lines
//! after it, up to the first empty one, are header fields. The body is what
//! follows the first `\r\n\r\n` in the bytes themselves, whatever the lines
//! were.

use crate::headers::HeaderMap;
use crate::text::{
    chars_of, decimal_usize, decode_lossy, decoded, find_char, is_space, lemma_find_char,
    lemma_skip_space, lemma_skip_word, lemma_trimmed, lowercase, lowered, parse_usize, scan_char,
    scan_space, scan_word, skip_space, skip_word, trim, trimmed,
};
use vstd::prelude::*;
use vstd::slice::{slice_subrange, slice_to_vec};
use vstd::string::{StrSliceExecFns, StringExecFns};
use vstd::utf8::{decode_utf8, encode_utf8, valid_utf8};

verus! {

/// A parsed request.
#[derive(Debug)]
pub struct Request {
    /// The method token of the request line.
    pub method: String,
    /// The path token of the request line, taken as it stands.
    pub path: String,
    /// The header fields, by lower-cased name.
    pub header_fields: HeaderMap,
    /// The body: empty unless a `content-length` field is there.
    pub body: Vec<u8>,
}

/// A request as a contract sees it.
pub struct RequestView {
    pub method: Seq<char>,
    pub path: Seq<char>,
    pub header_fields: Map<Seq<char>, Seq<char>>,
    pub body: Seq<u8>,
}

impl View for Request {
    type V = RequestView;

    open spec fn view(&self) -> RequestView {
        RequestView {
            method: self.method@,
            path: self.path@,
            header_fields: self.header_fields@,
            body: self.body@,
        }
    }
}

/// Why a request could not be parsed, or a header could not be given.
#[derive(Debug)]
pub enum RequestError {
    /// The request has no header of this name.
    HeaderNotFound(String),
    /// The request holds no bytes at all.
    EmptyRequest,
    /// The first line holds no token.
    MissingMethod,
    /// The first line holds one token only.
    MissingPath,
    /// This header line is not indented and holds no colon.
    MalformedHeaderLine(String),
    /// The `content-length` field does not spell a number.
    InvalidContentLength,
}

/// A `RequestError` as a contract sees it.
pub enum RequestErrorView {
    HeaderNotFound(Seq<char>),
    EmptyRequest,
    MissingMethod,
    MissingPath,
    MalformedHeaderLine(Seq<char>),
    InvalidContentLength,
}

impl View for RequestError {
    type V = RequestErrorView;

    open spec fn view(&self) -> RequestErrorView {
        match self {
            RequestError::HeaderNotFound(name) => RequestErrorView::HeaderNotFound(name@),
            RequestError::EmptyRequest => RequestErrorView::EmptyRequest,
            RequestError::MissingMethod => RequestErrorView::MissingMethod,
            RequestError::MissingPath => RequestErrorView::MissingPath,
            RequestError::MalformedHeaderLine(line) => RequestErrorView::MalformedHeaderLine(line@),
            RequestError::InvalidContentLength => RequestErrorView::InvalidContentLength,
        }
    }
}

/// Whether `b` is a carriage return or a line feed.
pub open spec fn is_line_break(b: u8) -> bool {
    b == 13 || b == 10
}

/// The first position at or after `i` that holds a line break, or the length
/// of `bytes` where none follows.
pub open spec fn line_end(bytes: Seq<u8>, i: int) -> int
    decreases bytes.len() - i,
{
    if 0 <= i < bytes.len() && !is_line_break(bytes[i]) {
        line_end(bytes, i + 1)
    } else {
        i
    }
}

/// Whether a carriage return with a line feed behind it stands at position
/// `i`.
pub open spec fn crlf_at(bytes: Seq<u8>, i: int) -> bool {
    0 <= i && i + 1 < bytes.len() && bytes[i] == 13 && bytes[i + 1] == 10
}

/// Where the next line starts, given that a line ends at position `end`:
/// behind the carriage return and line feed that stand there, or behind the
/// one line break.
pub open spec fn next_line(bytes: Seq<u8>, end: int) -> int {
    if crlf_at(bytes, end) {
        end + 2
    } else {
        end + 1
    }
}

/// The lines of `bytes` from position `start` on. A line end at the very
/// end is followed by one more, empty line.
pub open spec fn lines_from(bytes: Seq<u8>, start: int) -> Seq<Seq<u8>>
    decreases bytes.len() - start,
{
    let end = line_end(bytes, start);
    if 0 <= start <= end < bytes.len() {
        seq![bytes.subrange(start, end)] + lines_from(bytes, next_line(bytes, end))
    } else {
        seq![bytes.subrange(start, bytes.len() as int)]
    }
}

/// The lines of `bytes`: there is always one at least.
pub open spec fn split_lines(bytes: Seq<u8>) -> Seq<Seq<u8>> {
    lines_from(bytes, 0)
}

/// What the first line of a request says: the method and the path, which are
/// its first two words. What follows them is not looked at.
pub open spec fn request_line(line: Seq<char>) -> Result<(Seq<char>, Seq<char>), RequestErrorView> {
    let method_start = skip_space(line, 0);
    let method_end = skip_word(line, method_start);
    let path_start = skip_space(line, method_end);
    let path_end = skip_word(line, path_start);
    if method_start >= line.len() {
        Err(RequestErrorView::MissingMethod)
    } else if path_start >= line.len() {
        Err(RequestErrorView::MissingPath)
    } else {
        Ok((line.subrange(method_start, method_end), line.subrange(path_start, path_end)))
    }
}

/// What one line of the header section is.
#[derive(Debug)]
pub enum HeaderLine {
    /// A line that starts with a space or a tab: it continues the field
    /// before it. The text is the line, trimmed.
    Continuation(String),
    /// A field: what stands before the first colon, trimmed, and what stands
    /// after it, trimmed. The name is not yet lower-cased.
    Field(String, String),
    /// Neither of the two.
    Malformed,
}

/// A `HeaderLine` as a contract sees it.
pub enum HeaderLineView {
    Continuation(Seq<char>),
    Field(Seq<char>, Seq<char>),
    Malformed,
}

impl View for HeaderLine {
    type V = HeaderLineView;

    open spec fn view(&self) -> HeaderLineView {
        match self {
            HeaderLine::Continuation(text) => HeaderLineView::Continuation(text@),
            HeaderLine::Field(name, value) => HeaderLineView::Field(name@, value@),
            HeaderLine::Malformed => HeaderLineView::Malformed,
        }
    }
}

/// Whether `line` starts with a space or a tab.
pub open spec fn is_indented(line: Seq<char>) -> bool {
    line.len() > 0 && (line[0] == ' ' || line[0] == '\t')
}

/// What the decoded header line `line` is.
pub open spec fn header_line(line: Seq<char>) -> HeaderLineView {
    let colon = find_char(line, ':', 0);
    if is_indented(line) {
        HeaderLineView::Continuation(trimmed(line))
    } else if 0 <= colon < line.len() {
        HeaderLineView::Field(trimmed(line.take(colon)), trimmed(line.skip(colon + 1)))
    } else {
        HeaderLineView::Malformed
    }
}

/// The header fields read so far, and the name of the last field read.
pub struct HeaderState {
    pub fields: Map<Seq<char>, Seq<char>>,
    pub current: Option<Seq<char>>,
}

/// The state before the first header line.
pub open spec fn no_headers() -> HeaderState {
    HeaderState { fields: Map::empty(), current: None }
}

/// The state after one more header line, `None` where the line is malformed.
/// A field sets its lower-cased name to its value, also where the name was
/// there before. A continuation appends a space and its text to the value of
/// the last field read, and is dropped where no field came before it.
pub open spec fn header_step(state: HeaderState, line: Seq<char>) -> Option<HeaderState> {
    match header_line(line) {
        HeaderLineView::Continuation(text) => match state.current {
            Some(name) if state.fields.contains_key(name) => Some(
                HeaderState {
                    fields: state.fields.insert(name, state.fields[name] + seq![' '] + text),
                    current: state.current,
                },
            ),
            _ => Some(state),
        },
        HeaderLineView::Field(name, value) => Some(
            HeaderState {
                fields: state.fields.insert(lowered(name), value),
                current: Some(lowered(name)),
            },
        ),
        HeaderLineView::Malformed => None,
    }
}

/// The header fields that the lines from place `i` on add to `state`: the
/// section ends before the first empty line, or with the last line. The
/// error is the first malformed line, decoded.
pub open spec fn header_section(lines: Seq<Seq<u8>>, i: int, state: HeaderState) -> Result<
    Map<Seq<char>, Seq<char>>,
    Seq<char>,
>
    decreases lines.len() - i,
{
    if 0 <= i < lines.len() && lines[i].len() > 0 {
        match header_step(state, decoded(lines[i])) {
            Some(next) => header_section(lines, i + 1, next),
            None => Err(decoded(lines[i])),
        }
    } else {
        Ok(state.fields)
    }
}

/// Whether `\r\n\r\n` stands at position `i` of `bytes`.
pub open spec fn blank_line_at(bytes: Seq<u8>, i: int) -> bool {
    &&& 0 <= i
    &&& i + 4 <= bytes.len()
    &&& bytes[i] == 13
    &&& bytes[i + 1] == 10
    &&& bytes[i + 2] == 13
    &&& bytes[i + 3] == 10
}

/// Where the body starts, looking from position `i` on: behind the first
/// `\r\n\r\n`, or at the end of `bytes` where there is none.
pub open spec fn body_start(bytes: Seq<u8>, i: int) -> int
    decreases bytes.len() - i,
{
    if i < 0 || i + 4 > bytes.len() {
        bytes.len() as int
    } else if blank_line_at(bytes, i) {
        i + 4
    } else {
        body_start(bytes, i + 1)
    }
}

/// The bytes behind the first `\r\n\r\n` of `bytes`.
pub open spec fn body_of(bytes: Seq<u8>) -> Seq<u8> {
    bytes.skip(body_start(bytes, 0))
}

/// The name under which the length of the body is declared.
pub open spec fn content_length() -> Seq<char> {
    "content-length"@
}

/// What parsing makes of `bytes`.
pub open spec fn parse(bytes: Seq<u8>) -> Result<RequestView, RequestErrorView> {
    let lines = split_lines(bytes);
    if bytes.len() == 0 {
        Err(RequestErrorView::EmptyRequest)
    } else {
        match request_line(decoded(lines[0])) {
            Err(e) => Err(e),
            Ok((method, path)) => match header_section(lines, 1, no_headers()) {
                Err(line) => Err(RequestErrorView::MalformedHeaderLine(line)),
                Ok(fields) => if !fields.contains_key(content_length()) {
                    Ok(
                        RequestView {
                            method,
                            path,
                            header_fields: fields,
                            body: Seq::<u8>::empty(),
                        },
                    )
                } else if decimal_usize(fields[content_length()]) is None {
                    Err(RequestErrorView::InvalidContentLength)
                } else {
                    Ok(RequestView { method, path, header_fields: fields, body: body_of(bytes) })
                },
            },
        }
    }
}

/// What `line_end` returns, said without recursion.
pub proof fn lemma_line_end(bytes: Seq<u8>, i: int)
    requires
        0 <= i <= bytes.len(),
    ensures
        i <= line_end(bytes, i) <= bytes.len(),
        forall|k: int| i <= k < line_end(bytes, i) ==> !is_line_break(#[trigger] bytes[k]),
        line_end(bytes, i) < bytes.len() ==> is_line_break(bytes[line_end(bytes, i)]),
    decreases bytes.len() - i,
{
    if i < bytes.len() && !is_line_break(bytes[i]) {
        lemma_line_end(bytes, i + 1);
    }
}

/// The number of line ends at or after position `i`, where a carriage
/// return and the line feed behind it are one line end.
pub open spec fn line_ends_from(bytes: Seq<u8>, i: int) -> nat
    decreases bytes.len() - i,
{
    if 0 <= i < bytes.len() {
        if is_line_break(bytes[i]) {
            1 + line_ends_from(bytes, next_line(bytes, i))
        } else {
            line_ends_from(bytes, i + 1)
        }
    } else {
        0
    }
}

/// The lines from a position on are one more than the line ends from there
/// on, and no line holds a line break.
pub proof fn lemma_lines(bytes: Seq<u8>, start: int)
    requires
        0 <= start <= bytes.len(),
    ensures
        lines_from(bytes, start).len() == 1 + line_ends_from(bytes, start),
        forall|i: int, k: int|
            0 <= i < lines_from(bytes, start).len() && 0 <= k < lines_from(bytes, start)[i].len()
                ==> !is_line_break(#[trigger] lines_from(bytes, start)[i][k]),
    decreases bytes.len() - start,
{
    let end = line_end(bytes, start);
    lemma_line_end(bytes, start);
    lemma_line_ends_skip(bytes, start, end);
    let line = bytes.subrange(start, end);
    let lines = lines_from(bytes, start);
    if end < bytes.len() {
        lemma_lines(bytes, next_line(bytes, end));
        let rest = lines_from(bytes, next_line(bytes, end));
        assert(lines == seq![line] + rest);
        assert forall|i: int, k: int| 0 <= i < lines.len() && 0 <= k < lines[i].len() implies
            !is_line_break(#[trigger] lines[i][k]) by {
            if i > 0 {
                assert(lines[i] == rest[i - 1]);
            }
        }
    }
}

/// Bytes that are no line breaks hold no line end.
proof fn lemma_line_ends_skip(bytes: Seq<u8>, i: int, j: int)
    requires
        0 <= i <= j <= bytes.len(),
        forall|k: int| i <= k < j ==> !is_line_break(#[trigger] bytes[k]),
    ensures
        line_ends_from(bytes, i) == line_ends_from(bytes, j),
    decreases j - i,
{
    if i < j {
        assert(!is_line_break(bytes[i]));
        lemma_line_ends_skip(bytes, i + 1, j);
    }
}

/// What holds of the parts of a field line: the name holds no colon, and
/// neither the name nor the value starts or ends with white space.
pub proof fn lemma_field_parts(line: Seq<char>)
    requires
        header_line(line) is Field,
    ensures
        ({
            let name = header_line(line)->Field_0;
            let value = header_line(line)->Field_1;
            &&& forall|i: int| 0 <= i < name.len() ==> #[trigger] name[i] != ':'
            &&& name.len() > 0 ==> !is_space(name[0]) && !is_space(name.last())
            &&& value.len() > 0 ==> !is_space(value[0]) && !is_space(value.last())
        }),
{
    let colon = find_char(line, ':', 0);
    let before = line.take(colon);
    let name = trimmed(before);
    lemma_find_char(line, ':', 0);
    lemma_trimmed(before);
    lemma_trimmed(line.skip(colon + 1));
    let lo = skip_space(before, 0);
    assert forall|i: int| 0 <= i < name.len() implies #[trigger] name[i] != ':' by {
        assert(name[i] == line[lo + i]);
    }
}

/// A header line and an indented line behind it make one field: its value
/// is what stood behind the colon, trimmed, then a space, then the
/// indented line, trimmed.
pub proof fn lemma_folded_header(state: HeaderState, line: Seq<char>, continuation: Seq<char>)
    requires
        header_line(line) is Field,
        is_indented(continuation),
    ensures
        ({
            let name = lowered(header_line(line)->Field_0);
            let value = header_line(line)->Field_1;
            header_step(header_step(state, line)->Some_0, continuation) == Some(
                HeaderState {
                    fields: state.fields.insert(name, value + seq![' '] + trimmed(continuation)),
                    current: Some(name),
                },
            )
        }),
{
    let name = lowered(header_line(line)->Field_0);
    let value = header_line(line)->Field_1;
    let after = header_step(state, line)->Some_0;
    assert(after.fields.contains_key(name));
    assert(after.fields.insert(name, after.fields[name] + seq![' '] + trimmed(continuation))
        =~= state.fields.insert(name, value + seq![' '] + trimmed(continuation)));
}

/// What holds of every request that parses: the method and the path are
/// words, so not empty and free of white space; a `content-length` field,
/// where there is one, spells a number; and the body is what stands behind
/// the first `\r\n\r\n` where there is such a field, and empty where not.
pub proof fn lemma_parsed(bytes: Seq<u8>)
    requires
        parse(bytes) is Ok,
    ensures
        ({
            let r = parse(bytes)->Ok_0;
            &&& r.method.len() > 0
            &&& r.path.len() > 0
            &&& forall|i: int| 0 <= i < r.method.len() ==> !is_space(#[trigger] r.method[i])
            &&& forall|i: int| 0 <= i < r.path.len() ==> !is_space(#[trigger] r.path[i])
            &&& r.header_fields.contains_key(content_length()) ==> decimal_usize(
                r.header_fields[content_length()],
            ) is Some
            &&& r.body == if r.header_fields.contains_key(content_length()) {
                body_of(bytes)
            } else {
                Seq::<u8>::empty()
            }
        }),
{
    let line = decoded(split_lines(bytes)[0]);
    let method_start = skip_space(line, 0);
    let method_end = skip_word(line, method_start);
    let path_start = skip_space(line, method_end);
    let path_end = skip_word(line, path_start);
    lemma_skip_space(line, 0);
    lemma_skip_word(line, method_start);
    lemma_skip_space(line, method_end);
    lemma_skip_word(line, path_start);
    let r = parse(bytes)->Ok_0;
    assert(r.method == line.subrange(method_start, method_end));
    assert(r.path == line.subrange(path_start, path_end));
    assert forall|i: int| 0 <= i < r.method.len() implies !is_space(#[trigger] r.method[i]) by {
        assert(r.method[i] == line[method_start + i]);
    }
    assert forall|i: int| 0 <= i < r.path.len() implies !is_space(#[trigger] r.path[i]) by {
        assert(r.path[i] == line[path_start + i]);
    }
}

/// A request whose `content-length` field does not spell a number is
/// rejected for that, whatever else it holds, once its first line and its
/// header section were read.
pub proof fn lemma_invalid_content_length(bytes: Seq<u8>)
    requires
        bytes.len() > 0,
        request_line(decoded(split_lines(bytes)[0])) is Ok,
        header_section(split_lines(bytes), 1, no_headers()) is Ok,
        header_section(split_lines(bytes), 1, no_headers())->Ok_0.contains_key(content_length()),
        decimal_usize(
            header_section(split_lines(bytes), 1, no_headers())->Ok_0[content_length()],
        ) is None,
    ensures
        parse(bytes) == Err::<RequestView, RequestErrorView>(
            RequestErrorView::InvalidContentLength,
        ),
{
}

/// The contents of the slices in `lines`.
pub open spec fn contents(lines: Seq<&[u8]>) -> Seq<Seq<u8>> {
    Seq::new(lines.len(), |i: int| lines[i]@)
}

/// Cuts `bytes` into its lines.
pub fn cut_lines<'a>(bytes: &'a [u8]) -> (lines: Vec<&'a [u8]>)
    ensures
        contents(lines@) == split_lines(bytes@),
        lines@.len() > 0,
{
    let mut lines: Vec<&'a [u8]> = Vec::new();
    let mut start: usize = 0;
    loop
        invariant_except_break
            start <= bytes.len(),
            split_lines(bytes@) == contents(lines@) + lines_from(bytes@, start as int),
        ensures
            contents(lines@) == split_lines(bytes@),
            lines@.len() > 0,
        decreases bytes.len() - start,
    {
        let mut end: usize = start;
        while end < bytes.len() && !(bytes[end] == 13 || bytes[end] == 10)
            invariant
                start <= end <= bytes.len(),
                line_end(bytes@, start as int) == line_end(bytes@, end as int),
            decreases bytes.len() - end,
        {
            end += 1;
        }
        let ghost before = contents(lines@);
        lines.push(slice_subrange(bytes, start, end));
        assert(contents(lines@) =~= before + seq![bytes@.subrange(start as int, end as int)]);
        if end < bytes.len() {
            let next: usize = if bytes[end] == 13 && end + 1 < bytes.len() && bytes[end + 1] == 10 {
                end + 2
            } else {
                end + 1
            };
            assert(split_lines(bytes@) =~= contents(lines@) + lines_from(bytes@, next as int));
            start = next;
        } else {
            assert(split_lines(bytes@) =~= contents(lines@));
            break;
        }
    }
    lines
}

/// Reads the method and the path off the decoded first line.
pub fn parse_request_line(line: &str) -> (parsed: Result<(String, String), RequestError>)
    ensures
        match parsed {
            Ok((method, path)) => request_line(line@) == Ok::<
                (Seq<char>, Seq<char>),
                RequestErrorView,
            >((method@, path@)) && method@.len() > 0 && path@.len() > 0,
            Err(e) => request_line(line@) == Err::<(Seq<char>, Seq<char>), RequestErrorView>(e@),
        },
{
    let chars = chars_of(line);
    let method_start = scan_space(chars.as_slice(), 0);
    if method_start >= chars.len() {
        return Err(RequestError::MissingMethod);
    }
    let method_end = scan_word(chars.as_slice(), method_start);
    let path_start = scan_space(chars.as_slice(), method_end);
    if path_start >= chars.len() {
        return Err(RequestError::MissingPath);
    }
    let path_end = scan_word(chars.as_slice(), path_start);
    proof {
        lemma_skip_space(line@, 0);
        lemma_skip_word(line@, method_start as int);
        lemma_skip_space(line@, method_end as int);
        lemma_skip_word(line@, path_start as int);
    }
    let method = String::from_str(line.substring_char(method_start, method_end));
    let path = String::from_str(line.substring_char(path_start, path_end));
    Ok((method, path))
}

/// Tells what the decoded header line `line` is.
pub fn parse_header_line(line: &str) -> (parsed: HeaderLine)
    ensures
        parsed@ == header_line(line@),
{
    let chars = chars_of(line);
    if chars.len() > 0 && (chars[0] == ' ' || chars[0] == '\t') {
        return HeaderLine::Continuation(String::from_str(trim(line)));
    }
    let colon = scan_char(chars.as_slice(), ':', 0);
    if colon < chars.len() {
        let name = trim(line.substring_char(0, colon));
        let value = trim(line.substring_char(colon + 1, chars.len()));
        HeaderLine::Field(String::from_str(name), String::from_str(value))
    } else {
        HeaderLine::Malformed
    }
}

/// Reads the header section: the lines after the first, up to the first
/// empty one. The error is the first malformed line, decoded.
pub fn parse_header_section(lines: &Vec<&[u8]>) -> (parsed: Result<HeaderMap, String>)
    ensures
        match parsed {
            Ok(fields) => header_section(contents(lines@), 1, no_headers()) == Ok::<
                Map<Seq<char>, Seq<char>>,
                Seq<char>,
            >(fields@),
            Err(line) => header_section(contents(lines@), 1, no_headers()) == Err::<
                Map<Seq<char>, Seq<char>>,
                Seq<char>,
            >(line@),
        },
{
    let mut fields = HeaderMap::new();
    let mut current: Option<String> = None;
    let mut i: usize = 1;
    while i < lines.len() && lines[i].len() > 0
        invariant
            1 <= i,
            header_section(contents(lines@), 1, no_headers()) == header_section(
                contents(lines@),
                i as int,
                HeaderState {
                    fields: fields@,
                    current: match current {
                        Some(name) => Some(name@),
                        None => None,
                    },
                },
            ),
        decreases lines.len() - i,
    {
        let text = decode_lossy(lines[i]);
        match parse_header_line(text.as_str()) {
            HeaderLine::Continuation(more) => {
                if let Some(name) = &current {
                    fields.append_to(name.as_str(), " ", more.as_str());
                    proof {
                        reveal_strlit(" ");
                        assert(" "@ =~= seq![' ']);
                    }
                }
            },
            HeaderLine::Field(name, value) => {
                let key = lowercase(name.as_str());
                fields.insert(key.clone(), value);
                current = Some(key);
            },
            HeaderLine::Malformed => {
                return Err(text);
            },
        }
        i += 1;
    }
    Ok(fields)
}

/// Finds where the body starts: behind the first `\r\n\r\n`.
pub fn find_body(bytes: &[u8]) -> (start: usize)
    ensures
        start == body_start(bytes@, 0),
        start <= bytes.len(),
{
    if bytes.len() < 4 {
        return bytes.len();
    }
    let mut i: usize = 0;
    while i <= bytes.len() - 4
        invariant
            bytes.len() >= 4,
            i <= bytes.len() - 3,
            body_start(bytes@, 0) == body_start(bytes@, i as int),
        decreases bytes.len() - i,
    {
        if bytes[i] == 13 && bytes[i + 1] == 10 && bytes[i + 2] == 13 && bytes[i + 3] == 10 {
            return i + 4;
        }
        i += 1;
    }
    bytes.len()
}

impl Request {
    /// Parses the bytes of a request.
    ///
    /// The result is what `parse` says of the bytes, and the error says
    /// which rule the bytes broke. A request that parses has a method and a
    /// path that are not empty.
    pub fn from_bytes(request: &[u8]) -> (parsed: Result<Request, RequestError>)
        ensures
            match parsed {
                Ok(r) => parse(request@) == Ok::<RequestView, RequestErrorView>(r@)
                    && r.method@.len() > 0 && r.path@.len() > 0,
                Err(e) => parse(request@) == Err::<RequestView, RequestErrorView>(e@),
            },
    {
        if request.len() == 0 {
            return Err(RequestError::EmptyRequest);
        }
        let lines = cut_lines(request);
        let first = decode_lossy(lines[0]);
        let (method, path) = match parse_request_line(first.as_str()) {
            Ok(words) => words,
            Err(e) => {
                return Err(e);
            },
        };
        let header_fields = match parse_header_section(&lines) {
            Ok(fields) => fields,
            Err(line) => {
                return Err(RequestError::MalformedHeaderLine(line));
            },
        };
        proof {
            reveal_strlit("content-length");
        }
        let body = match header_fields.get("content-length") {
            Some(declared) => {
                if parse_usize(declared).is_none() {
                    return Err(RequestError::InvalidContentLength);
                }
                let start = find_body(request);
                slice_to_vec(slice_subrange(request, start, request.len()))
            },
            None => Vec::new(),
        };
        Ok(Request { method, path, header_fields, body })
    }
}


/// The error that strict UTF-8 decoding gives; nothing is said of what it holds.
#[verifier::external_type_specification]
#[verifier::external_body]
pub struct ExUtf8Error(std::str::Utf8Error);

/// Decodes `bytes` with `std::str::from_utf8`, which succeeds on valid
/// UTF-8, and only there, and then gives the text that the bytes encode.
#[verifier::external_body]
pub(crate) fn decode_strict(bytes: &[u8]) -> (text: Result<&str, std::str::Utf8Error>)
    ensures
        match text {
            Ok(t) => valid_utf8(bytes@) && t@ == decode_utf8(bytes@),
            Err(_) => !valid_utf8(bytes@),
        },
{
    std::str::from_utf8(bytes)
}

/// What `error` says in words.
pub open spec fn error_text(error: RequestErrorView) -> Seq<char> {
    match error {
        RequestErrorView::HeaderNotFound(name) => "Header '"@ + name + "' not found"@,
        RequestErrorView::EmptyRequest => "Invalid request: Empty request"@,
        RequestErrorView::MissingMethod => "Invalid request: Missing HTTP method"@,
        RequestErrorView::MissingPath => "Invalid request: Missing request path"@,
        RequestErrorView::MalformedHeaderLine(line) => "Invalid request: Invalid header line: "@
            + line,
        RequestErrorView::InvalidContentLength => "Invalid request: Invalid Content-Length value"@,
    }
}

impl RequestError {
    /// The error in words.
    pub fn to_string(&self) -> (text: String)
        ensures
            text@ == error_text(self@),
    {
        match self {
            RequestError::HeaderNotFound(name) => {
                let mut text = String::from_str("Header '");
                text.append(name.as_str());
                text.append("' not found");
                text
            },
            RequestError::EmptyRequest => String::from_str("Invalid request: Empty request"),
            RequestError::MissingMethod => String::from_str("Invalid request: Missing HTTP method"),
            RequestError::MissingPath => String::from_str("Invalid request: Missing request path"),
            RequestError::MalformedHeaderLine(line) => {
                let mut text = String::from_str("Invalid request: Invalid header line: ");
                text.append(line.as_str());
                text
            },
            RequestError::InvalidContentLength => String::from_str(
                "Invalid request: Invalid Content-Length value",
            ),
        }
    }
}

impl Default for Request {
    /// A request without method, path, header fields or body.
    fn default() -> (r: Request)
        ensures
            r.method@.len() == 0,
            r.path@.len() == 0,
            r.header_fields@ == Map::<Seq<char>, Seq<char>>::empty(),
            r.body@.len() == 0,
    {
        Request {
            method: String::new(),
            path: String::new(),
            header_fields: HeaderMap::new(),
            body: Vec::new(),
        }
    }
}

impl Request {
    /// Parses a request given as text: the bytes are those of its UTF-8 form.
    pub fn from_string(request: &str) -> (parsed: Result<Request, RequestError>)
        ensures
            match parsed {
                Ok(r) => parse(encode_utf8(request@)) == Ok::<RequestView, RequestErrorView>(r@)
                    && r.method@.len() > 0 && r.path@.len() > 0,
                Err(e) => parse(encode_utf8(request@)) == Err::<RequestView, RequestErrorView>(e@),
            },
    {
        Request::from_bytes(request.as_bytes())
    }

    /// The value of the header called `header_name`, whatever the case of
    /// the letters in the name asked for.
    pub fn get_header_value<'a>(&'a self, header_name: &str) -> (value: Result<
        &'a str,
        RequestError,
    >)
        ensures
            match value {
                Ok(v) => self.header_fields@.contains_key(lowered(header_name@)) && v@
                    == self.header_fields@[lowered(header_name@)],
                Err(e) => !self.header_fields@.contains_key(lowered(header_name@)) && e@
                    == RequestErrorView::HeaderNotFound(header_name@),
            },
    {
        let name = lowercase(header_name);
        match self.header_fields.get(name.as_str()) {
            Some(v) => Ok(v),
            None => Err(RequestError::HeaderNotFound(String::from_str(header_name))),
        }
    }

    /// The value of the header called `header_name`, or `default` where the
    /// request has no such header.
    pub fn get_header_value_or_default<'a>(&'a self, header_name: &str, default: &'a str) -> (value:
        &'a str)
        ensures
            value@ == if self.header_fields@.contains_key(lowered(header_name@)) {
                self.header_fields@[lowered(header_name@)]
            } else {
                default@
            },
    {
        let name = lowercase(header_name);
        match self.header_fields.get(name.as_str()) {
            Some(v) => v,
            None => default,
        }
    }

    /// The body of the request.
    pub fn get_body(&self) -> (body: &[u8])
        ensures
            body@ == self.body@,
    {
        self.body.as_slice()
    }

    /// The body as text: an error where it is not valid UTF-8.
    pub fn get_body_as_str(&self) -> (text: Result<&str, std::str::Utf8Error>)
        ensures
            match text {
                Ok(t) => valid_utf8(self.body@) && t@ == decode_utf8(self.body@),
                Err(_) => !valid_utf8(self.body@),
            },
    {
        decode_strict(self.body.as_slice())
    }
}

} // verus!
