use std::collections::HashMap;

use smnview::request::{Request, RequestError};
use smnview::response::Response;

/// A small generator of numbers that look random and are the same on every run.
struct Numbers(u64);

impl Numbers {
    fn next(&mut self) -> u64 {
        self.0 ^= self.0 << 13;
        self.0 ^= self.0 >> 7;
        self.0 ^= self.0 << 17;
        self.0
    }

    fn below(&mut self, n: usize) -> usize {
        (self.next() % n as u64) as usize
    }
}

const PIECES: [&[u8]; 30] = [
    b" ",
    b" ",
    b"\t",
    b"\r",
    b"\n",
    b"\n",
    b"\n",
    b"\r\n",
    b"\r\n\r\n",
    b":",
    b":",
    b": ",
    b"GET",
    b"/",
    b"a",
    b"B",
    b"Content-Length",
    b"content-length",
    b"0",
    b"12",
    b"+",
    b"-",
    b"x y",
    b"\xc2\xa0",
    b"\xe2\x80\x83",
    b"\xc3\x89",
    b"\xef\xbc\xa1",
    b"\xff",
    b"\xc3",
    b"\x0b",
];

fn some_bytes(numbers: &mut Numbers) -> Vec<u8> {
    let mut bytes = Vec::new();
    for _ in 0..numbers.below(14) {
        bytes.extend_from_slice(PIECES[numbers.below(PIECES.len())]);
    }
    bytes
}

#[derive(Debug, PartialEq)]
enum Refusal {
    Empty,
    Method,
    Path,
    Line(String),
    Length,
}

type Parts = (String, String, HashMap<String, String>, Vec<u8>);

/// The rules of the request codec, written with the functions of std.
fn by_std(request: &[u8]) -> Result<Parts, Refusal> {
    if request.is_empty() {
        return Err(Refusal::Empty);
    }
    // `\r\n` is one line end: with a line feed in its place, every line end is one byte
    let mut one_byte_ends = Vec::new();
    let mut rest = request;
    while let Some((&byte, behind)) = rest.split_first() {
        if byte == b'\r' && behind.first() == Some(&b'\n') {
            rest = &behind[1..];
        } else {
            rest = behind;
        }
        one_byte_ends.push(byte);
    }
    let mut lines = one_byte_ends.split(|&b| b == b'\r' || b == b'\n');
    let first = String::from_utf8_lossy(lines.next().unwrap_or(b""));
    let mut words = first.split_whitespace();
    let method = words.next().ok_or(Refusal::Method)?.to_string();
    let path = words.next().ok_or(Refusal::Path)?.to_string();
    let mut fields: HashMap<String, String> = HashMap::new();
    let mut current: Option<String> = None;
    for line in &mut lines {
        if line.is_empty() {
            break;
        }
        let text = String::from_utf8_lossy(line);
        if text.starts_with(' ') || text.starts_with('\t') {
            if let Some(value) = current.as_ref().and_then(|name| fields.get_mut(name)) {
                value.push(' ');
                value.push_str(text.trim());
            }
        } else if let Some((name, value)) = text.split_once(':') {
            let name = name.trim().to_lowercase();
            fields.insert(name.clone(), value.trim().to_string());
            current = Some(name);
        } else {
            return Err(Refusal::Line(text.into_owned()));
        }
    }
    let body = match fields.get("content-length") {
        Some(declared) => {
            declared.parse::<usize>().map_err(|_| Refusal::Length)?;
            let start = request
                .windows(4)
                .position(|window| window == b"\r\n\r\n")
                .map(|at| at + 4)
                .unwrap_or(request.len());
            request[start..].to_vec()
        }
        None => Vec::new(),
    };
    Ok((method, path, fields, body))
}

fn by_codec(request: &[u8]) -> Result<Parts, Refusal> {
    match Request::from_bytes(request) {
        Ok(parsed) => {
            let mut fields = HashMap::new();
            for i in 0..parsed.header_fields.len() {
                let name = parsed.header_fields.name_at(i).to_string();
                let value = parsed.header_fields.value_at(i).to_string();
                assert!(fields.insert(name, value).is_none(), "a name came twice");
            }
            Ok((parsed.method, parsed.path, fields, parsed.body))
        }
        Err(RequestError::EmptyRequest) => Err(Refusal::Empty),
        Err(RequestError::MissingMethod) => Err(Refusal::Method),
        Err(RequestError::MissingPath) => Err(Refusal::Path),
        Err(RequestError::MalformedHeaderLine(line)) => Err(Refusal::Line(line)),
        Err(RequestError::InvalidContentLength) => Err(Refusal::Length),
        Err(RequestError::HeaderNotFound(name)) => panic!("no header was asked for: {}", name),
    }
}

/// A request that is built like one, with pieces that are not in order here and there.
fn some_request(numbers: &mut Numbers) -> Vec<u8> {
    let ends: [&[u8]; 4] = [b"\n", b"\n", b"\r", b"\r\n"];
    let names: [&[u8]; 6] = [b"Host", b"Content-Length", b"content-length ", b"X-A", b"x-a", b""];
    let values: [&[u8]; 8] = [b"x", b" 12 ", b"+3", b"0", b"", b"a:b", b"twelve", b"\xc3\x89 \xff"];
    let mut request = Vec::new();
    request.extend(some_bytes(numbers).into_iter().take(numbers.below(3)));
    request.extend_from_slice(b"GET /p HTTP/1.1");
    for _ in 0..numbers.below(5) {
        request.extend_from_slice(ends[numbers.below(ends.len())]);
        match numbers.below(8) {
            0 => request.extend_from_slice(b" folded  "),
            1 => request.extend_from_slice(b"\tfolded\tagain"),
            2 => request.extend(some_bytes(numbers)),
            _ => {
                request.extend_from_slice(names[numbers.below(names.len())]);
                request.extend_from_slice(b":");
                request.extend_from_slice(values[numbers.below(values.len())]);
            }
        }
    }
    if numbers.below(3) > 0 {
        request.extend_from_slice(b"\r\n\r\n");
    } else {
        request.extend_from_slice(b"\n\n");
    }
    request.extend(some_bytes(numbers));
    request
}

#[test]
fn codec_agrees_with_the_rules_written_with_std() {
    let mut numbers = Numbers(0x2545_f491_4f6c_dd1d);
    let mut parsed = 0;
    let mut refused = 0;
    let mut with_body = 0;
    let mut folded = 0;
    for round in 0..60_000 {
        let request =
            if round % 2 == 0 { some_bytes(&mut numbers) } else { some_request(&mut numbers) };
        let expected = by_std(&request);
        assert_eq!(by_codec(&request), expected, "{:?}", String::from_utf8_lossy(&request));
        match expected {
            Ok((_, _, fields, body)) => {
                parsed += 1;
                if !body.is_empty() {
                    with_body += 1;
                }
                if fields.values().any(|value| value.contains("folded")) {
                    folded += 1;
                }
            }
            Err(_) => refused += 1,
        }
    }
    // the inputs reach the parts of the codec that matter
    assert!(parsed > 10_000, "{}", parsed);
    assert!(refused > 10_000, "{}", refused);
    assert!(with_body > 1_000, "{}", with_body);
    assert!(folded > 1_000, "{}", folded);
}

#[test]
fn codec_agrees_with_std_on_every_short_mix_of_separators() {
    let alphabet: [&[u8]; 7] = [b" ", b"\t", b"\r", b"\n", b":", b"a", b"\xc2\xa0"];
    let mut request = Vec::new();
    for length in 0..=6usize {
        let count = alphabet.len().pow(length as u32);
        for mut code in 0..count {
            request.clear();
            for _ in 0..length {
                request.extend_from_slice(alphabet[code % alphabet.len()]);
                code /= alphabet.len();
            }
            assert_eq!(by_codec(&request), by_std(&request), "{:?}", request);
        }
    }
}

#[test]
fn header_lookup_agrees_with_std_lower_casing() {
    let request = Request::from_bytes(
        "GET / HTTP/1.1\nX-\u{130}: dotted\n\u{3a3}\u{391}\u{3a3}: sigma\nSTRASSE: street\n\n".as_bytes(),
    )
    .unwrap();
    for name in ["X-\u{130}", "\u{3a3}\u{391}\u{3a3}", "STRASSE", "strasse", "Strasse"] {
        let expected = request.header_fields.get(&name.to_lowercase());
        assert!(expected.is_some(), "{}", name);
        assert_eq!(request.get_header_value(name).ok(), expected);
        assert_eq!(request.get_header_value_or_default(name, "none"), expected.unwrap());
    }
    assert_eq!(request.get_header_value_or_default("stra\u{df}e", "none"), "none");
}

#[test]
fn response_bytes_agree_with_std_formatting() {
    let mut numbers = Numbers(0x9e37_79b9_7f4a_7c15);
    let names = ["Content-Type", "content-type", "X-A", "x-a", "Vary", "\u{c9}tat", ""];
    let values = ["", "a", "text/html", "a, b", "\u{e9}", " spaced "];
    for _ in 0..2_000 {
        let code = (numbers.next() % 65_536) as u16;
        let message = values[numbers.below(values.len())];
        let mut response = Response::new(code, message);
        let mut fields: Vec<(String, String)> = Vec::new();
        for _ in 0..numbers.below(6) {
            let name = names[numbers.below(names.len())];
            let value = values[numbers.below(values.len())];
            if numbers.below(2) == 0 {
                response.set_header(name, value);
                match fields.iter_mut().find(|field| field.0 == name) {
                    Some(field) => field.1 = value.to_string(),
                    None => fields.push((name.to_string(), value.to_string())),
                }
            } else {
                response.add_header(name, value);
                let name = name.to_lowercase();
                match fields.iter_mut().find(|field| field.0.to_lowercase() == name) {
                    Some(field) => {
                        field.1.push_str(", ");
                        field.1.push_str(value);
                    }
                    None => fields.push((name, value.to_string())),
                }
            }
        }
        let body = some_bytes(&mut numbers);
        response.set_body(body.clone());
        let mut expected = format!("HTTP/1.1 {} {}\r\n", code, message).into_bytes();
        for (name, value) in &fields {
            expected.extend_from_slice(format!("{}: {}\r\n", name, value).as_bytes());
        }
        expected.extend_from_slice(b"\r\n");
        expected.extend_from_slice(&body);
        assert_eq!(response.to_bytes(), expected);
    }
}
