//! The response codec: from a `Response` to the bytes that go on the wire.

use crate::headers::{lemma_position_is, with_field, Field, HeaderMap};
use crate::mime::Mime;
use crate::status::StatusCode;
use crate::text::{
    decimal_text, lemma_lowered_twice, lowercase, lowered, push_decimal, same_text,
};
use vstd::prelude::*;
use vstd::slice::slice_to_vec;
use vstd::string::StringExecFns;
use vstd::utf8::{encode_utf8, is_ascii_chars};

verus! {

/// A response in the making.
#[derive(Debug)]
pub struct Response {
    /// The number of the status line.
    pub status_code: u16,
    /// The reason phrase of the status line.
    pub status_message: String,
    /// The header fields, written out in the order in which their names came.
    pub header_fields: HeaderMap,
    /// The body, sent as it stands.
    pub body: Vec<u8>,
}

/// A response as a contract sees it.
pub struct ResponseView {
    pub status_code: u16,
    pub status_message: Seq<char>,
    pub header_fields: Seq<Field>,
    pub body: Seq<u8>,
}

impl View for Response {
    type V = ResponseView;

    open spec fn view(&self) -> ResponseView {
        ResponseView {
            status_code: self.status_code,
            status_message: self.status_message@,
            header_fields: self.header_fields.fields(),
            body: self.body@,
        }
    }
}

/// What can be wrong with the parts of a response.
#[derive(Debug)]
pub enum ResponseError {
    /// The number is no status code.
    InvalidStatusCode(u16),
    /// The header field cannot be sent.
    InvalidHeader(String),
}

/// The status line: version, number, reason phrase, line end.
pub open spec fn status_line(code: u16, message: Seq<char>) -> Seq<char> {
    "HTTP/1.1 "@ + decimal_text(code as nat) + " "@ + message + "\r\n"@
}

/// One header line: name, colon, space, value, line end.
pub open spec fn header_text(field: Field) -> Seq<char> {
    field.0 + ": "@ + field.1 + "\r\n"@
}

/// The header lines of `fields`, one after the other.
pub open spec fn headers_text(fields: Seq<Field>) -> Seq<char>
    decreases fields.len(),
{
    if fields.len() == 0 {
        Seq::<char>::empty()
    } else {
        headers_text(fields.drop_last()) + header_text(fields.last())
    }
}

/// All that stands before the body: the status line, the header lines and
/// the empty line that ends them.
pub open spec fn head_text(r: ResponseView) -> Seq<char> {
    status_line(r.status_code, r.status_message) + headers_text(r.header_fields) + "\r\n"@
}

/// The bytes of a response: its head in UTF-8, then the body untouched.
pub open spec fn wire(r: ResponseView) -> Seq<u8> {
    encode_utf8(head_text(r)) + r.body
}

/// The response that `response_ok` builds.
pub open spec fn ok_response(body: Seq<u8>, mime: Mime) -> ResponseView {
    ResponseView {
        status_code: 200,
        status_message: "OK"@,
        header_fields: seq![("Content-Type"@, mime.name())],
        body,
    }
}

/// The response that `response_error` builds.
pub open spec fn error_response(error: Seq<char>, code: StatusCode) -> ResponseView {
    ResponseView {
        status_code: code.code(),
        status_message: code.reason(),
        header_fields: seq![("Content-Type"@, "text/plain"@)],
        body: encode_utf8(error),
    }
}

/// What a `ResponseError` says in words.
pub open spec fn response_error_text(error: ResponseError) -> Seq<char> {
    match error {
        ResponseError::InvalidStatusCode(code) => "Invalid status code: "@ + decimal_text(
            code as nat,
        ),
        ResponseError::InvalidHeader(header) => "Invalid header: "@ + header@,
    }
}

impl ResponseError {
    /// The error in words.
    pub fn to_string(&self) -> (text: String)
        ensures
            text@ == response_error_text(*self),
    {
        match self {
            ResponseError::InvalidStatusCode(code) => {
                let mut text = String::from_str("Invalid status code: ");
                push_decimal(&mut text, *code);
                text
            },
            ResponseError::InvalidHeader(header) => {
                let mut text = String::from_str("Invalid header: ");
                text.append(header.as_str());
                text
            },
        }
    }
}

impl Default for Response {
    /// A response with status 0, no reason phrase, no header fields and no body.
    fn default() -> (r: Response)
        ensures
            r@ == (ResponseView {
                status_code: 0,
                status_message: Seq::<char>::empty(),
                header_fields: Seq::<Field>::empty(),
                body: Seq::<u8>::empty(),
            }),
    {
        Response {
            status_code: 0,
            status_message: String::new(),
            header_fields: HeaderMap::new(),
            body: Vec::new(),
        }
    }
}

impl Response {
    /// A response with the given status line, no header fields and no body.
    pub fn new(status_code: u16, status_message: &str) -> (r: Response)
        ensures
            r@ == (ResponseView {
                status_code,
                status_message: status_message@,
                header_fields: Seq::<Field>::empty(),
                body: Seq::<u8>::empty(),
            }),
    {
        Response {
            status_code,
            status_message: String::from_str(status_message),
            header_fields: HeaderMap::new(),
            body: Vec::new(),
        }
    }

    /// Sets the header called `key`, as it is written, to `value`; a value
    /// that the name had before is lost.
    pub fn set_header(&mut self, key: &str, value: &str)
        ensures
            final(self)@ == (ResponseView {
                header_fields: with_field(old(self)@.header_fields, key@, value@),
                ..old(self)@
            }),
            final(self).header_fields@ == old(self).header_fields@.insert(key@, value@),
    {
        self.header_fields.insert(String::from_str(key), String::from_str(value));
    }

    /// The place of the header called `key`, whatever the case of the
    /// letters in its name and in `key`: the first such place, or the
    /// number of headers where there is none.
    pub fn find_header(&self, key: &str) -> (at: usize)
        ensures
            at == place_ignoring_case(self@.header_fields, key@, 0),
            at <= self@.header_fields.len(),
    {
        let wanted = lowercase(key);
        let n = self.header_fields.len();
        let mut i: usize = 0;
        while i < n
            invariant
                i <= n,
                n == self.header_fields.fields().len(),
                wanted@ == lowered(key@),
                place_ignoring_case(self@.header_fields, key@, 0) == place_ignoring_case(
                    self@.header_fields,
                    key@,
                    i as int,
                ),
            decreases n - i,
        {
            let name = lowercase(self.header_fields.name_at(i));
            if same_text(name.as_str(), wanted.as_str()) {
                return i;
            }
            i += 1;
        }
        n
    }

    /// Adds `value` to the header called `key`, whatever the case of the
    /// letters in its name and in `key`. Where there is such a header, the
    /// first of them keeps its place and its name, and `value` follows its
    /// value after a comma and a space. Where there is none, the header
    /// called `key` in lower case is set to `value`, at the end.
    pub fn add_header(&mut self, key: &str, value: &str)
        ensures
            final(self)@ == (ResponseView {
                header_fields: with_added(old(self)@.header_fields, key@, value@),
                ..old(self)@
            }),
            final(self).header_fields@ == ({
                let fields = old(self)@.header_fields;
                let at = place_ignoring_case(fields, key@, 0);
                if at < fields.len() {
                    old(self).header_fields@.insert(fields[at].0, fields[at].1 + ", "@ + value@)
                } else {
                    old(self).header_fields@.insert(lowered(key@), value@)
                }
            }),
    {
        let at = self.find_header(key);
        if at < self.header_fields.len() {
            self.header_fields.append_at(at, ", ", value);
        } else {
            self.header_fields.insert(lowercase(key), String::from_str(value));
        }
    }

    /// Sets the body.
    pub fn set_body(&mut self, body: Vec<u8>)
        ensures
            final(self)@ == (ResponseView { body: body@, ..old(self)@ }),
    {
        self.body = body;
    }

    /// Sets the body to the UTF-8 form of `body`.
    pub fn set_body_from_str(&mut self, body: &str)
        ensures
            final(self)@ == (ResponseView { body: encode_utf8(body@), ..old(self)@ }),
    {
        self.body = slice_to_vec(body.as_bytes());
    }

    /// The bytes that go on the wire: the status line, one line for each
    /// header field, an empty line, and the body.
    pub fn to_bytes(&self) -> (bytes: Vec<u8>)
        ensures
            bytes@ == wire(self@),
    {
        let mut head = String::from_str("HTTP/1.1 ");
        push_decimal(&mut head, self.status_code);
        head.append(" ");
        head.append(self.status_message.as_str());
        head.append("\r\n");
        let n = self.header_fields.len();
        let mut i: usize = 0;
        while i < n
            invariant
                i <= n,
                n == self.header_fields.fields().len(),
                head@ == status_line(self.status_code, self.status_message@) + headers_text(
                    self.header_fields.fields().take(i as int),
                ),
            decreases n - i,
        {
            let ghost before = head@;
            head.append(self.header_fields.name_at(i));
            head.append(": ");
            head.append(self.header_fields.value_at(i));
            head.append("\r\n");
            proof {
                let fields = self.header_fields.fields();
                assert(fields.take(i + 1).drop_last() =~= fields.take(i as int));
                assert(head@ =~= before + header_text(fields[i as int]));
            }
            i += 1;
        }
        assert(self.header_fields.fields().take(i as int) =~= self.header_fields.fields());
        head.append("\r\n");
        let mut bytes = slice_to_vec(head.as_str().as_bytes());
        let mut k: usize = 0;
        while k < self.body.len()
            invariant
                k <= self.body.len(),
                bytes@ == encode_utf8(head@) + self.body@.take(k as int),
            decreases self.body.len() - k,
        {
            bytes.push(self.body[k]);
            assert(self.body@.take(k + 1) =~= self.body@.take(k as int).push(self.body@[k as int]));
            k += 1;
        }
        assert(self.body@.take(k as int) =~= self.body@);
        bytes
    }

    /// The response to a request that was served: status 200, the media
    /// type in the `Content-Type` field, and `body` as it stands.
    pub fn response_ok(body: Vec<u8>, mime: Mime) -> (r: Response)
        ensures
            r@ == ok_response(body@, mime),
    {
        let code = StatusCode::OK.to_code();
        let msg = StatusCode::OK.to_msg();
        let mut response = Response::new(code, msg);
        response.set_header("Content-Type", mime.to_string());
        response.set_body(body);
        assert(response@.header_fields =~= seq![("Content-Type"@, mime.name())]);
        response
    }

    /// The response to a request that was not served: the status `code`,
    /// plain text as the media type, and the text `error` as the body.
    pub fn response_error(error: String, code: StatusCode) -> (r: Response)
        ensures
            r@ == error_response(error@, code),
    {
        let mut response = Response::new(code.to_code(), code.to_msg());
        response.set_header("Content-Type", Mime::TextPlain.to_string());
        response.set_body(slice_to_vec(error.as_str().as_bytes()));
        assert(response@.header_fields =~= seq![("Content-Type"@, "text/plain"@)]);
        response
    }
}

/// Whether `text` ends with a line end.
pub open spec fn ends_line(text: Seq<char>) -> bool {
    text.len() >= 2 && text[text.len() - 2] == '\r' && text[text.len() - 1] == '\n'
}

/// The header lines of a response are empty or end with a line end.
pub proof fn lemma_headers_end_line(fields: Seq<Field>)
    ensures
        fields.len() == 0 ==> headers_text(fields).len() == 0,
        fields.len() > 0 ==> ends_line(headers_text(fields)),
    decreases fields.len(),
{
    reveal_strlit("\r\n");
    if fields.len() > 0 {
        let text = headers_text(fields);
        let last = header_text(fields.last());
        assert(text == headers_text(fields.drop_last()) + last);
        assert(last.len() >= 2);
        assert(last[last.len() - 2] == '\r');
        assert(last[last.len() - 1] == '\n');
    }
}

/// The head of every response ends with an empty line: the end of the
/// status line or of the last header line, and one line end more. The body
/// follows it at once, whether it is empty or not.
pub proof fn lemma_blank_line_before_body(r: ResponseView)
    ensures
        head_text(r).len() >= 4,
        head_text(r).subrange(head_text(r).len() - 4, head_text(r).len() as int) == "\r\n\r\n"@,
        wire(r).subrange(0, encode_utf8(head_text(r)).len() as int) == encode_utf8(head_text(r)),
        wire(r).skip(encode_utf8(head_text(r)).len() as int) == r.body,
{
    reveal_strlit("\r\n");
    reveal_strlit("\r\n\r\n");
    let status = status_line(r.status_code, r.status_message);
    let lines = headers_text(r.header_fields);
    let head = head_text(r);
    lemma_headers_end_line(r.header_fields);
    assert(ends_line(status));
    assert(ends_line(status + lines)) by {
        if r.header_fields.len() == 0 {
            assert(status + lines =~= status);
        } else {
            assert((status + lines)[status.len() + lines.len() - 2] == lines[lines.len() - 2]);
            assert((status + lines)[status.len() + lines.len() - 1] == lines[lines.len() - 1]);
        }
    }
    assert(head.subrange(head.len() - 4, head.len() as int) =~= "\r\n\r\n"@);
    assert(wire(r).subrange(0, encode_utf8(head).len() as int) =~= encode_utf8(head));
    assert(wire(r).skip(encode_utf8(head).len() as int) =~= r.body);
}

/// The first place at or after `i` whose field is called `key`, whatever
/// the case of the letters in its name and in `key`, or the length of
/// `fields` where none follows.
pub open spec fn place_ignoring_case(fields: Seq<Field>, key: Seq<char>, i: int) -> int
    decreases fields.len() - i,
{
    if 0 <= i < fields.len() && lowered(fields[i].0) != lowered(key) {
        place_ignoring_case(fields, key, i + 1)
    } else {
        i
    }
}

/// `fields` after `value` is added under `key`. The first field that is
/// called `key`, whatever the case of the letters, keeps its place and its
/// name, and `value` follows its value after a comma and a space. Without
/// such a field, the field called `key` in lower case is set to `value`.
pub open spec fn with_added(fields: Seq<Field>, key: Seq<char>, value: Seq<char>) -> Seq<Field> {
    let at = place_ignoring_case(fields, key, 0);
    if at < fields.len() {
        fields.update(at, (fields[at].0, fields[at].1 + ", "@ + value))
    } else {
        with_field(fields, lowered(key), value)
    }
}

/// What `place_ignoring_case` returns, said without recursion.
pub proof fn lemma_place_ignoring_case(fields: Seq<Field>, key: Seq<char>, i: int)
    requires
        0 <= i <= fields.len(),
    ensures
        i <= place_ignoring_case(fields, key, i) <= fields.len(),
        forall|k: int|
            i <= k < place_ignoring_case(fields, key, i) ==> lowered((#[trigger] fields[k]).0)
                != lowered(key),
        place_ignoring_case(fields, key, i) < fields.len() ==> lowered(
            fields[place_ignoring_case(fields, key, i)].0,
        ) == lowered(key),
    decreases fields.len() - i,
{
    if i < fields.len() && lowered(fields[i].0) != lowered(key) {
        lemma_place_ignoring_case(fields, key, i + 1);
    }
}

/// Adding never makes a field more than one: the fields are as many as
/// before, or one more where no field was called `key`, whatever the case
/// of the letters. For a `key` that is all ASCII, the new field is then the
/// last one.
pub proof fn lemma_added(fields: Seq<Field>, key: Seq<char>, value: Seq<char>)
    ensures
        place_ignoring_case(fields, key, 0) < fields.len() ==> with_added(fields, key, value).len()
            == fields.len(),
        place_ignoring_case(fields, key, 0) >= fields.len() && is_ascii_chars(key) ==> with_added(
            fields,
            key,
            value,
        ) == fields.push((lowered(key), value)),
{
    lemma_place_ignoring_case(fields, key, 0);
    if place_ignoring_case(fields, key, 0) >= fields.len() && is_ascii_chars(key) {
        let name = lowered(key);
        lemma_lowered_twice(key);
        assert forall|k: int| 0 <= k < fields.len() implies (#[trigger] fields[k]).0 != name by {
            if fields[k].0 == name {
                assert(lowered(fields[k].0) == lowered(key));
            }
        }
        lemma_position_is(fields, name, fields.len() as int);
    }
}

/// A header that was set under a new name and then added to is one field:
/// it has the name as it was set, and the first value, a comma, a space and
/// the second value.
pub proof fn lemma_added_after_set(
    fields: Seq<Field>,
    key: Seq<char>,
    first: Seq<char>,
    second: Seq<char>,
)
    requires
        place_ignoring_case(fields, key, 0) >= fields.len(),
    ensures
        with_added(with_field(fields, key, first), key, second) == fields.push(
            (key, first + ", "@ + second),
        ),
{
    lemma_place_ignoring_case(fields, key, 0);
    assert forall|k: int| 0 <= k < fields.len() implies (#[trigger] fields[k]).0 != key by {
        if fields[k].0 == key {
            assert(lowered(fields[k].0) == lowered(key));
        }
    }
    lemma_position_is(fields, key, fields.len() as int);
    let set = with_field(fields, key, first);
    assert(set == fields.push((key, first)));
    lemma_place_ignoring_case(set, key, 0);
    let at = place_ignoring_case(set, key, 0);
    if at < fields.len() {
        assert(set[at] == fields[at]);
    }
    assert(set[fields.len() as int] == (key, first));
    assert(at == fields.len());
    assert(with_added(set, key, second) =~= fields.push((key, first + ", "@ + second)));
}

} // verus!
