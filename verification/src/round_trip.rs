//! Writing a request out and parsing it again gives the request back.
//!
//! The written form is that of HTTP/1.1: every line of the head ends with
//! `\r\n`, an empty line closes the head, and the body stands behind it.
//! The head is written in UTF-8, whatever characters it holds.

use crate::headers::Field;
use crate::request::{
    blank_line_at, body_of, body_start, content_length, crlf_at, header_line, header_section,
    header_step, is_indented, is_line_break, line_end, lines_from, next_line, no_headers, parse,
    request_line, split_lines, HeaderLineView, HeaderState, RequestErrorView, RequestView,
};
use crate::text::{
    decimal_text, decoded, is_space, lemma_decimal_round_trip, lemma_find_char_to,
    lemma_skip_space_to, lemma_skip_word_to, lemma_trimmed_to, lowered,
};
use vstd::prelude::*;
use vstd::utf8::{
    char_is_scalar, char_u32_cast, encode_scalar, encode_utf8, encode_utf8_decode_utf8,
    encode_utf8_valid_utf8, is_ascii_chars_encode_utf8, is_scalar,
};

verus! {

/// Whether `s` can stand as a method or as a path: it is not empty and
/// holds no white space.
pub open spec fn is_token(s: Seq<char>) -> bool {
    s.len() > 0 && forall|i: int| 0 <= i < s.len() ==> !is_space(#[trigger] s[i])
}

/// Whether `s` can stand as the name of a header field: it holds neither
/// white space nor a colon.
pub open spec fn is_field_name(s: Seq<char>) -> bool {
    forall|i: int| 0 <= i < s.len() ==> !is_space(#[trigger] s[i]) && s[i] != ':'
}

/// Whether `s` can stand as the value of a header field: it holds neither
/// a carriage return nor a line feed, and neither starts nor ends with
/// white space.
pub open spec fn is_field_value(s: Seq<char>) -> bool {
    &&& forall|i: int| 0 <= i < s.len() ==> #[trigger] s[i] != '\r' && s[i] != '\n'
    &&& s.len() > 0 ==> !is_space(s[0]) && !is_space(s.last())
}

/// The map that `map` becomes when `fields` are set in it one after the
/// other, each under its name in lower case. Of two fields whose names
/// differ in case only, the later one stays.
pub open spec fn collected_into(map: Map<Seq<char>, Seq<char>>, fields: Seq<Field>) -> Map<
    Seq<char>,
    Seq<char>,
>
    decreases fields.len(),
{
    if fields.len() == 0 {
        map
    } else {
        collected_into(map.insert(lowered(fields[0].0), fields[0].1), fields.drop_first())
    }
}

/// The header fields of a request that was written with `fields`.
pub open spec fn collected(fields: Seq<Field>) -> Map<Seq<char>, Seq<char>> {
    collected_into(Map::empty(), fields)
}

/// Whether no two of `fields` have the same name, whatever the case of the
/// letters.
pub open spec fn distinct_ignoring_case(fields: Seq<Field>) -> bool {
    forall|i: int, j: int|
        0 <= i < j < fields.len() ==> lowered(fields[i].0) != lowered(fields[j].0)
}

/// The first line of a written request.
pub open spec fn first_line(method: Seq<char>, path: Seq<char>) -> Seq<char> {
    method + " "@ + path + " HTTP/1.1"@
}

/// The line of one header field.
pub open spec fn field_line(field: Field) -> Seq<char> {
    field.0 + ": "@ + field.1
}

/// The lines of `fields`, each behind the end of the line before it.
pub open spec fn field_lines(fields: Seq<Field>) -> Seq<char>
    decreases fields.len(),
{
    if fields.len() == 0 {
        Seq::<char>::empty()
    } else {
        "\r\n"@ + field_line(fields[0]) + field_lines(fields.drop_first())
    }
}

/// The head of a written request: the first line, the lines of the header
/// fields, the end of the last line and an empty line.
pub open spec fn request_head(method: Seq<char>, path: Seq<char>, fields: Seq<Field>) -> Seq<char> {
    first_line(method, path) + field_lines(fields) + "\r\n\r\n"@
}

/// A request as it is written: its head in UTF-8, then its body.
pub open spec fn request_wire(
    method: Seq<char>,
    path: Seq<char>,
    fields: Seq<Field>,
    body: Seq<u8>,
) -> Seq<u8> {
    encode_utf8(request_head(method, path, fields)) + body
}

/// Whether every field of `fields` has a name and a value that can stand
/// as such.
pub open spec fn are_fields(fields: Seq<Field>) -> bool {
    forall|i: int|
        0 <= i < fields.len() ==> is_field_name((#[trigger] fields[i]).0) && is_field_value(
            fields[i].1,
        )
}

/// Whether the parts make a well-formed request with a body: method and
/// path are tokens, the fields are fields, and the `content-length` field
/// is there and gives the length of the body.
pub open spec fn well_formed(
    method: Seq<char>,
    path: Seq<char>,
    fields: Seq<Field>,
    body: Seq<u8>,
) -> bool {
    &&& is_token(method)
    &&& is_token(path)
    &&& are_fields(fields)
    &&& body.len() <= usize::MAX
    &&& collected(fields).contains_key(content_length())
    &&& collected(fields)[content_length()] == decimal_text(body.len())
}

/// The bytes of a written request from the end of a line on, where
/// `fields` are the fields that are still to come.
spec fn rest_bytes(fields: Seq<Field>, body: Seq<u8>) -> Seq<u8> {
    encode_utf8(field_lines(fields) + "\r\n\r\n"@) + body
}

/// Whether `s` holds neither a carriage return nor a line feed.
spec fn is_one_line(s: Seq<char>) -> bool {
    forall|i: int| 0 <= i < s.len() ==> #[trigger] s[i] != '\r' && s[i] != '\n'
}

/// Whether `bytes` hold no line break.
spec fn no_breaks(bytes: Seq<u8>) -> bool {
    forall|i: int| 0 <= i < bytes.len() ==> !is_line_break(#[trigger] bytes[i])
}

/// Whether every carriage return in `bytes` has, two places on, a byte
/// that is none: no empty line starts in `bytes`.
spec fn no_empty_line(bytes: Seq<u8>) -> bool {
    forall|i: int|
        0 <= i < bytes.len() && #[trigger] bytes[i] == 13 ==> i + 2 < bytes.len() && bytes[i + 2]
            != 13
}

/// The bytes of one character: the character itself where it is ASCII, and
/// bytes above the ASCII range where not.
proof fn lemma_scalar_bytes(v: u32)
    requires
        is_scalar(v),
    ensures
        1 <= encode_scalar(v).len() <= 4,
        v < 128 ==> encode_scalar(v) == seq![v as u8],
        v >= 128 ==> forall|i: int|
            0 <= i < encode_scalar(v).len() ==> #[trigger] encode_scalar(v)[i] >= 128,
{
    assert(v <= 0x7F ==> (v & 0x7F) as u8 == v as u8) by (bit_vector);
    assert(0xC0u8 | ((v >> 6) & 0x1F) as u8 >= 128) by (bit_vector);
    assert(0xE0u8 | ((v >> 12) & 0x0F) as u8 >= 128) by (bit_vector);
    assert(0xF0u8 | ((v >> 18) & 0x7) as u8 >= 128) by (bit_vector);
    assert(0x80u8 | (v & 0x3F) as u8 >= 128) by (bit_vector);
    assert(0x80u8 | ((v >> 6) & 0x3F) as u8 >= 128) by (bit_vector);
    assert(0x80u8 | ((v >> 12) & 0x3F) as u8 >= 128) by (bit_vector);
    if v < 128 {
        assert(encode_scalar(v) =~= seq![v as u8]);
    }
}

/// The bytes of two texts in a row are the bytes of the one, then the
/// bytes of the other.
proof fn lemma_encode_concat(a: Seq<char>, b: Seq<char>)
    ensures
        encode_utf8(a + b) == encode_utf8(a) + encode_utf8(b),
    decreases a.len(),
{
    if a.len() == 0 {
        assert(a + b =~= b);
        assert(encode_utf8(a) + encode_utf8(b) =~= encode_utf8(b));
    } else {
        assert((a + b).drop_first() =~= a.drop_first() + b);
        lemma_encode_concat(a.drop_first(), b);
        assert(encode_utf8(a + b) =~= encode_utf8(a) + encode_utf8(b));
    }
}

/// An ASCII character that is not in a text gives no byte of the text.
proof fn lemma_encode_without(s: Seq<char>, c: char)
    requires
        (c as u32) < 128,
        forall|k: int| 0 <= k < s.len() ==> #[trigger] s[k] != c,
    ensures
        forall|i: int| 0 <= i < encode_utf8(s).len() ==> #[trigger] encode_utf8(s)[i] != c as u8,
    decreases s.len(),
{
    if s.len() > 0 {
        let first = encode_scalar(s[0] as u32);
        let rest = encode_utf8(s.drop_first());
        char_is_scalar(s[0]);
        lemma_scalar_bytes(s[0] as u32);
        assert forall|k: int| 0 <= k < s.drop_first().len() implies #[trigger] s.drop_first()[k]
            != c by {
            assert(s.drop_first()[k] == s[k + 1]);
        }
        lemma_encode_without(s.drop_first(), c);
        assert(s[0] != c);
        char_u32_cast(s[0], s[0] as u32);
        char_u32_cast(c, c as u32);
        assert(s[0] as u32 != c as u32);
        assert(encode_utf8(s) == first + rest);
        assert forall|i: int| 0 <= i < encode_utf8(s).len() implies #[trigger] encode_utf8(s)[i]
            != c as u8 by {
            if i < first.len() {
                assert(encode_utf8(s)[i] == first[i]);
                if (s[0] as u32) < 128 {
                    assert(first[i] == s[0] as u32 as u8);
                } else {
                    assert(first[i] >= 128);
                }
            } else {
                assert(encode_utf8(s)[i] == rest[i - first.len()]);
            }
        }
    }
}

/// The bytes of a text without line breaks hold no line break, and decode
/// to the text.
proof fn lemma_encoded_line(s: Seq<char>)
    requires
        is_one_line(s),
    ensures
        no_breaks(encode_utf8(s)),
        decoded(encode_utf8(s)) == s,
{
    lemma_encode_without(s, '\r');
    lemma_encode_without(s, '\n');
    encode_utf8_valid_utf8(s);
    encode_utf8_decode_utf8(s);
}

/// The bytes of the line ends and of what stands between a name and its
/// value.
proof fn lemma_mark_bytes()
    ensures
        encode_utf8("\r\n"@) == seq![13u8, 10u8],
        encode_utf8("\r\n\r\n"@) == seq![13u8, 10u8, 13u8, 10u8],
        encode_utf8(": "@) == seq![58u8, 32u8],
{
    reveal_strlit("\r\n");
    reveal_strlit("\r\n\r\n");
    reveal_strlit(": ");
    is_ascii_chars_encode_utf8("\r\n"@);
    is_ascii_chars_encode_utf8("\r\n\r\n"@);
    is_ascii_chars_encode_utf8(": "@);
    assert(encode_utf8("\r\n"@) =~= seq![13u8, 10u8]);
    assert(encode_utf8("\r\n\r\n"@) =~= seq![13u8, 10u8, 13u8, 10u8]);
    assert(encode_utf8(": "@) =~= seq![58u8, 32u8]);
}

proof fn lemma_line_end_to(bytes: Seq<u8>, i: int, j: int)
    requires
        0 <= i <= j <= bytes.len(),
        forall|k: int| i <= k < j ==> !is_line_break(#[trigger] bytes[k]),
        j < bytes.len() ==> is_line_break(bytes[j]),
    ensures
        line_end(bytes, i) == j,
    decreases j - i,
{
    if i < j {
        assert(!is_line_break(bytes[i]));
        lemma_line_end_to(bytes, i + 1, j);
    }
}

proof fn lemma_body_start_to(bytes: Seq<u8>, i: int, j: int)
    requires
        0 <= i <= j,
        blank_line_at(bytes, j),
        forall|k: int| i <= k < j ==> !blank_line_at(bytes, k),
    ensures
        body_start(bytes, i) == j + 4,
    decreases j - i,
{
    if i < j {
        lemma_body_start_to(bytes, i + 1, j);
    }
}

proof fn lemma_header_section_shift(
    first: Seq<u8>,
    rest: Seq<Seq<u8>>,
    i: int,
    state: HeaderState,
)
    requires
        0 <= i,
    ensures
        header_section(seq![first] + rest, i + 1, state) == header_section(rest, i, state),
    decreases rest.len() - i,
{
    let lines = seq![first] + rest;
    if i < rest.len() {
        assert(lines[i + 1] == rest[i]);
        if rest[i].len() > 0 {
            match header_step(state, decoded(rest[i])) {
                Some(next) => {
                    lemma_header_section_shift(first, rest, i + 1, next);
                },
                None => {},
            }
        }
    }
}

/// The line of a field is one line, is not empty, and is read as the field.
proof fn lemma_field_line(field: Field)
    requires
        is_field_name(field.0),
        is_field_value(field.1),
    ensures
        is_one_line(field_line(field)),
        encode_utf8(field_line(field)).len() >= 2,
        header_line(field_line(field)) == HeaderLineView::Field(field.0, field.1),
{
    reveal_strlit(": ");
    let name = field.0;
    let value = field.1;
    let line = field_line(field);
    let colon = name.len() as int;
    assert(line.len() == name.len() + 2 + value.len());
    assert(line[colon] == ':');
    assert(line[colon + 1] == ' ');
    assert forall|i: int| 0 <= i < line.len() implies #[trigger] line[i] != '\r' && line[i]
        != '\n' by {
        if i < name.len() {
            assert(line[i] == name[i]);
            assert(!is_space(name[i]));
        } else if i >= name.len() + 2 {
            assert(line[i] == value[i - name.len() - 2]);
        }
    }
    assert(!is_indented(line)) by {
        if name.len() > 0 {
            assert(line[0] == name[0]);
            assert(!is_space(name[0]));
        }
    }
    assert forall|k: int| 0 <= k < colon implies #[trigger] line[k] != ':' by {
        assert(line[k] == name[k]);
    }
    lemma_find_char_to(line, ':', 0, colon);
    assert(line.take(colon) =~= name);
    if name.len() > 0 {
        assert(!is_space(name[0]));
        assert(!is_space(name[name.len() - 1]));
    }
    lemma_trimmed_to(name, 0, name.len() as int);
    assert(name.subrange(0, name.len() as int) =~= name);
    let after = line.skip(colon + 1);
    assert(after =~= seq![' '] + value);
    if value.len() > 0 {
        assert(after[1] == value[0]);
        assert(after[after.len() - 1] == value.last());
    }
    lemma_trimmed_to(after, 1, after.len() as int);
    assert(after.subrange(1, after.len() as int) =~= value);
    lemma_mark_bytes();
    lemma_encode_concat(name + ": "@, value);
    lemma_encode_concat(name, ": "@);
}

/// The first line is one line, and is read as the method and the path.
proof fn lemma_first_line(method: Seq<char>, path: Seq<char>)
    requires
        is_token(method),
        is_token(path),
    ensures
        is_one_line(first_line(method, path)),
        request_line(first_line(method, path)) == Ok::<(Seq<char>, Seq<char>), RequestErrorView>(
            (method, path),
        ),
{
    reveal_strlit(" ");
    reveal_strlit(" HTTP/1.1");
    let line = first_line(method, path);
    let m = method.len() as int;
    let p = m + 1 + path.len();
    assert(line.len() == p + 9);
    assert forall|k: int| 0 <= k < m implies !is_space(#[trigger] line[k]) by {
        assert(line[k] == method[k]);
    }
    assert forall|k: int| m + 1 <= k < p implies !is_space(#[trigger] line[k]) by {
        assert(line[k] == path[k - m - 1]);
    }
    assert forall|i: int| 0 <= i < line.len() implies #[trigger] line[i] != '\r' && line[i]
        != '\n' by {
        if i < m {
            assert(!is_space(line[i]));
        } else if m < i < p {
            assert(!is_space(line[i]));
        } else if i >= p {
            assert(line[i] == " HTTP/1.1"@[i - p]);
        }
    }
    assert(line[m] == ' ');
    assert(line[p] == ' ');
    lemma_skip_space_to(line, 0, 0);
    lemma_skip_word_to(line, 0, m);
    lemma_skip_space_to(line, m, m + 1);
    lemma_skip_word_to(line, m + 1, p);
    assert(line.subrange(0, m) =~= method);
    assert(line.subrange(m + 1, p) =~= path);
}

/// The fields that are left of some fields are fields.
proof fn lemma_later_fields(fields: Seq<Field>)
    requires
        are_fields(fields),
        fields.len() > 0,
    ensures
        are_fields(fields.drop_first()),
{
    let later = fields.drop_first();
    assert forall|i: int| 0 <= i < later.len() implies is_field_name((#[trigger] later[i]).0)
        && is_field_value(later[i].1) by {
        assert(later[i] == fields[i + 1]);
    }
}

/// What stands behind the end of a line: the empty line and the body, or
/// the end of that line, the next field and what stands behind it.
proof fn lemma_rest_bytes(fields: Seq<Field>, body: Seq<u8>)
    ensures
        fields.len() == 0 ==> rest_bytes(fields, body) == seq![13u8, 10u8, 13u8, 10u8] + body,
        fields.len() > 0 ==> rest_bytes(fields, body) == seq![13u8, 10u8] + encode_utf8(
            field_line(fields[0]),
        ) + rest_bytes(fields.drop_first(), body),
        rest_bytes(fields, body).len() >= 4,
        rest_bytes(fields, body)[0] == 13,
        rest_bytes(fields, body)[1] == 10,
    decreases fields.len(),
{
    lemma_mark_bytes();
    if fields.len() == 0 {
        assert(field_lines(fields) + "\r\n\r\n"@ =~= "\r\n\r\n"@);
    } else {
        let line = field_line(fields[0]);
        let later = field_lines(fields.drop_first()) + "\r\n\r\n"@;
        assert(field_lines(fields) + "\r\n\r\n"@ =~= ("\r\n"@ + line) + later);
        lemma_encode_concat("\r\n"@ + line, later);
        lemma_encode_concat("\r\n"@, line);
        lemma_rest_bytes(fields.drop_first(), body);
        assert(rest_bytes(fields, body) =~= seq![13u8, 10u8] + encode_utf8(line) + rest_bytes(
            fields.drop_first(),
            body,
        ));
    }
}

/// No empty line starts in the lines of fields.
proof fn lemma_field_lines_no_empty_line(fields: Seq<Field>)
    requires
        are_fields(fields),
    ensures
        no_empty_line(encode_utf8(field_lines(fields))),
    decreases fields.len(),
{
    lemma_mark_bytes();
    if fields.len() > 0 {
        let later = fields.drop_first();
        lemma_later_fields(fields);
        lemma_field_lines_no_empty_line(later);
        lemma_field_line(fields[0]);
        let line = encode_utf8(field_line(fields[0]));
        lemma_encoded_line(field_line(fields[0]));
        let rest = encode_utf8(field_lines(later));
        let all = encode_utf8(field_lines(fields));
        lemma_encode_concat("\r\n"@ + field_line(fields[0]), field_lines(later));
        lemma_encode_concat("\r\n"@, field_line(fields[0]));
        assert(all =~= seq![13u8, 10u8] + line + rest);
        let first = 2 + line.len();
        assert forall|i: int| 0 <= i < all.len() && #[trigger] all[i] == 13 implies i + 2
            < all.len() && all[i + 2] != 13 by {
            if i == 0 {
                assert(all[2] == line[0]);
            } else if i == 1 {
            } else if i < first {
                assert(all[i] == line[i - 2]);
            } else {
                assert(all[i] == rest[i - first]);
                assert(all[i + 2] == rest[i - first + 2]);
            }
        }
    }
}

/// Reading the header section from the end of a line on, with `fields`
/// still to come, sets `fields` one after the other.
proof fn lemma_header_section_of(
    bytes: Seq<u8>,
    at: int,
    fields: Seq<Field>,
    body: Seq<u8>,
    state: HeaderState,
)
    requires
        0 <= at <= bytes.len(),
        bytes.skip(at) == rest_bytes(fields, body),
        are_fields(fields),
    ensures
        crlf_at(bytes, at),
        header_section(lines_from(bytes, at + 2), 0, state) == Ok::<
            Map<Seq<char>, Seq<char>>,
            Seq<char>,
        >(collected_into(state.fields, fields)),
    decreases fields.len(),
{
    let rest = rest_bytes(fields, body);
    lemma_rest_bytes(fields, body);
    assert forall|k: int| at <= k < bytes.len() implies #[trigger] bytes[k] == rest[k - at] by {
        assert(bytes.skip(at)[k - at] == bytes[k]);
    }
    assert(bytes[at] == rest[0]);
    assert(bytes[at + 1] == rest[1]);
    if fields.len() == 0 {
        assert(rest[2] == 13);
        assert(bytes[at + 2] == rest[2]);
        lemma_line_end_to(bytes, at + 2, at + 2);
        let lines = lines_from(bytes, at + 2);
        assert(lines[0] =~= Seq::<u8>::empty());
    } else {
        let field = fields[0];
        let later = fields.drop_first();
        let text = field_line(field);
        let line = encode_utf8(text);
        lemma_field_line(field);
        lemma_encoded_line(text);
        lemma_later_fields(fields);
        let next = rest_bytes(later, body);
        lemma_rest_bytes(later, body);
        let start = at + 2;
        let end = start + line.len();
        assert forall|k: int| start <= k < end implies !is_line_break(#[trigger] bytes[k]) by {
            assert(bytes[k] == rest[k - at]);
            assert(rest[k - at] == line[k - start]);
        }
        assert(bytes[end] == rest[end - at]);
        assert(rest[end - at] == next[0]);
        assert(bytes[end + 1] == rest[end + 1 - at]);
        assert(rest[end + 1 - at] == next[1]);
        lemma_line_end_to(bytes, start, end);
        assert(next_line(bytes, end) == end + 2);
        let lines = lines_from(bytes, start);
        let tail = lines_from(bytes, end + 2);
        assert(lines == seq![bytes.subrange(start, end)] + tail);
        assert(bytes.subrange(start, end) =~= line) by {
            assert forall|k: int| 0 <= k < line.len() implies bytes.subrange(start, end)[k]
                == line[k] by {
                assert(bytes[start + k] == rest[2 + k]);
            }
        }
        assert(lines[0] == line);
        let after = HeaderState {
            fields: state.fields.insert(lowered(field.0), field.1),
            current: Some(lowered(field.0)),
        };
        assert(header_step(state, text) == Some(after));
        lemma_header_section_shift(line, tail, 0, after);
        assert(bytes.skip(end) =~= next) by {
            assert(bytes.len() - end == next.len());
            assert forall|k: int| 0 <= k < next.len() implies bytes.skip(end)[k] == next[k] by {
                assert(bytes[end + k] == rest[2 + line.len() + k]);
            }
        }
        lemma_header_section_of(bytes, end, later, body, after);
    }
}

/// A well-formed request with a body, written out and parsed, is the
/// request again: the same method, path and body, whatever characters and
/// bytes they hold, and the header fields under their names in lower case.
pub proof fn lemma_round_trip(
    method: Seq<char>,
    path: Seq<char>,
    fields: Seq<Field>,
    body: Seq<u8>,
)
    requires
        well_formed(method, path, fields, body),
    ensures
        parse(request_wire(method, path, fields, body)) == Ok::<RequestView, RequestErrorView>(
            RequestView { method, path, header_fields: collected(fields), body },
        ),
{
    let first = first_line(method, path);
    let middle = field_lines(fields);
    let head = request_head(method, path, fields);
    let bytes = request_wire(method, path, fields, body);
    let line = encode_utf8(first);
    let at = line.len() as int;
    lemma_mark_bytes();
    lemma_first_line(method, path);
    lemma_encoded_line(first);
    let rest = rest_bytes(fields, body);
    lemma_rest_bytes(fields, body);
    assert(head =~= first + (middle + "\r\n\r\n"@));
    lemma_encode_concat(first, middle + "\r\n\r\n"@);
    assert(bytes =~= line + rest);
    assert(bytes.skip(at) =~= rest);
    assert forall|k: int| 0 <= k < at implies !is_line_break(#[trigger] bytes[k]) by {
        assert(bytes[k] == line[k]);
    }
    lemma_header_section_of(bytes, at, fields, body, no_headers());
    lemma_line_end_to(bytes, 0, at);
    let lines = split_lines(bytes);
    let tail = lines_from(bytes, at + 2);
    assert(lines == seq![bytes.subrange(0, at)] + tail);
    assert(bytes.subrange(0, at) =~= line);
    assert(lines[0] == line);
    lemma_header_section_shift(line, tail, 0, no_headers());
    assert(header_section(lines, 1, no_headers()) == Ok::<Map<Seq<char>, Seq<char>>, Seq<char>>(
        collected(fields),
    ));
    lemma_decimal_round_trip(body.len());
    // The body starts behind the empty line that closes the head, and no
    // empty line starts before that one.
    let lead = encode_utf8(first + middle);
    let between = encode_utf8(middle);
    lemma_encode_concat(first, middle);
    lemma_encode_concat(first + middle, "\r\n\r\n"@);
    lemma_field_lines_no_empty_line(fields);
    assert(head =~= (first + middle) + "\r\n\r\n"@);
    assert(bytes =~= lead + seq![13u8, 10u8, 13u8, 10u8] + body);
    let blank = lead.len() as int;
    assert(blank_line_at(bytes, blank));
    assert forall|k: int| 0 <= k < blank implies !blank_line_at(bytes, k) by {
        assert(bytes[k] == lead[k]);
        if k < at {
            assert(lead[k] == line[k]);
        } else {
            assert(lead[k] == between[k - at]);
            if between[k - at] == 13 {
                assert(lead[k + 2] == between[k - at + 2]);
                assert(bytes[k + 2] == lead[k + 2]);
            }
        }
    }
    lemma_body_start_to(bytes, 0, blank);
    assert(body_of(bytes) =~= body);
}

/// Setting fields with names that are new, and that differ from one
/// another whatever the case of the letters, keeps what the map held, and
/// holds each field under its name in lower case.
proof fn lemma_collected_into(map: Map<Seq<char>, Seq<char>>, fields: Seq<Field>)
    requires
        map.dom().finite(),
        distinct_ignoring_case(fields),
        forall|i: int| 0 <= i < fields.len() ==> !map.contains_key(lowered((#[trigger] fields[i]).0)),
    ensures
        collected_into(map, fields).dom().finite(),
        collected_into(map, fields).len() == map.len() + fields.len(),
        forall|name: Seq<char>| #[trigger]
            map.contains_key(name) ==> collected_into(map, fields).contains_key(name)
                && collected_into(map, fields)[name] == map[name],
        forall|i: int|
            0 <= i < fields.len() ==> collected_into(map, fields).contains_key(
                lowered((#[trigger] fields[i]).0),
            ) && collected_into(map, fields)[lowered(fields[i].0)] == fields[i].1,
    decreases fields.len(),
{
    if fields.len() > 0 {
        let name = lowered(fields[0].0);
        let next = map.insert(name, fields[0].1);
        let later = fields.drop_first();
        assert(!map.contains_key(lowered(fields[0].0)));
        assert(next.dom() =~= map.dom().insert(name));
        assert forall|i: int, j: int| 0 <= i < j < later.len() implies lowered(later[i].0)
            != lowered(later[j].0) by {
            assert(later[i] == fields[i + 1]);
            assert(later[j] == fields[j + 1]);
        }
        assert forall|i: int| 0 <= i < later.len() implies !next.contains_key(
            lowered((#[trigger] later[i]).0),
        ) by {
            assert(later[i] == fields[i + 1]);
            assert(lowered(fields[0].0) != lowered(fields[i + 1].0));
            assert(!map.contains_key(lowered(fields[i + 1].0)));
        }
        lemma_collected_into(next, later);
        let all = collected_into(map, fields);
        assert(all == collected_into(next, later));
        assert(next.contains_key(name));
        assert forall|name: Seq<char>| #[trigger] map.contains_key(name) implies all.contains_key(
            name,
        ) && all[name] == map[name] by {
            assert(next.contains_key(name));
        }
        assert forall|i: int| 0 <= i < fields.len() implies all.contains_key(
            lowered((#[trigger] fields[i]).0),
        ) && all[lowered(fields[i].0)] == fields[i].1 by {
            if i > 0 {
                assert(later[i - 1] == fields[i]);
            }
        }
    }
}

/// Of fields whose names differ from one another, whatever the case of the
/// letters, each is held under its name in lower case with its own value,
/// and nothing else is held.
pub proof fn lemma_collected(fields: Seq<Field>)
    requires
        distinct_ignoring_case(fields),
    ensures
        collected(fields).dom().finite(),
        collected(fields).len() == fields.len(),
        forall|i: int|
            0 <= i < fields.len() ==> collected(fields).contains_key(
                lowered((#[trigger] fields[i]).0),
            ) && collected(fields)[lowered(fields[i].0)] == fields[i].1,
{
    lemma_collected_into(Map::empty(), fields);
}

/// The header fields of a well-formed request come back one by one: where
/// the names differ from one another, whatever the case of the letters, the
/// parsed request has as many fields as were written, and each is found
/// under its name in lower case with the value that was written.
pub proof fn lemma_round_trip_fields(
    method: Seq<char>,
    path: Seq<char>,
    fields: Seq<Field>,
    body: Seq<u8>,
)
    requires
        well_formed(method, path, fields, body),
        distinct_ignoring_case(fields),
    ensures
        parse(request_wire(method, path, fields, body)) is Ok,
        ({
            let parsed = parse(request_wire(method, path, fields, body))->Ok_0;
            &&& parsed.method == method
            &&& parsed.path == path
            &&& parsed.body == body
            &&& parsed.header_fields.dom().finite()
            &&& parsed.header_fields.len() == fields.len()
            &&& forall|i: int|
                0 <= i < fields.len() ==> parsed.header_fields.contains_key(
                    lowered((#[trigger] fields[i]).0),
                ) && parsed.header_fields[lowered(fields[i].0)] == fields[i].1
        }),
{
    lemma_round_trip(method, path, fields, body);
    lemma_collected(fields);
}

} // verus!
