//! The media types that a response can declare.

use crate::text::same_text;
use vstd::prelude::*;

verus! {

/// A media type.
#[derive(Clone, Copy, Debug, PartialEq, Eq, Structural)]
pub enum Mime {
    TextPlain,
    TextHtml,
    ApplicationJson,
    CSS,
    JavaScript,
}

impl Mime {
    /// The name of the media type, as a `content-type` field gives it.
    pub open spec fn name(self) -> Seq<char> {
        match self {
            Mime::TextPlain => "text/plain"@,
            Mime::TextHtml => "text/html"@,
            Mime::ApplicationJson => "application/json"@,
            Mime::CSS => "text/css"@,
            Mime::JavaScript => "application/javascript"@,
        }
    }

    /// The media type called `name`; plain text where the name is unknown.
    pub open spec fn of_name(name: Seq<char>) -> Mime {
        if name == "text/html"@ {
            Mime::TextHtml
        } else if name == "application/json"@ {
            Mime::ApplicationJson
        } else if name == "text/css"@ {
            Mime::CSS
        } else if name == "application/javascript"@ {
            Mime::JavaScript
        } else {
            Mime::TextPlain
        }
    }

    /// The media type of files with the extension `extension`, given
    /// without its dot; plain text where the extension is unknown.
    pub open spec fn of_extension(extension: Seq<char>) -> Mime {
        if extension == "html"@ {
            Mime::TextHtml
        } else if extension == "json"@ {
            Mime::ApplicationJson
        } else if extension == "css"@ {
            Mime::CSS
        } else if extension == "js"@ {
            Mime::JavaScript
        } else {
            Mime::TextPlain
        }
    }

    /// The name of the media type.
    pub fn to_string(&self) -> (name: &'static str)
        ensures
            name@ == self.name(),
    {
        match self {
            Mime::TextPlain => "text/plain",
            Mime::TextHtml => "text/html",
            Mime::ApplicationJson => "application/json",
            Mime::CSS => "text/css",
            Mime::JavaScript => "application/javascript",
        }
    }

    /// The media type called `mime`.
    pub fn from_string(mime: &str) -> (m: Mime)
        ensures
            m == Mime::of_name(mime@),
    {
        if same_text(mime, "text/html") {
            Mime::TextHtml
        } else if same_text(mime, "application/json") {
            Mime::ApplicationJson
        } else if same_text(mime, "text/css") {
            Mime::CSS
        } else if same_text(mime, "application/javascript") {
            Mime::JavaScript
        } else {
            Mime::TextPlain
        }
    }

    /// The media type of files with the extension `extension`.
    pub fn from_extension(extension: &str) -> (m: Mime)
        ensures
            m == Mime::of_extension(extension@),
    {
        if same_text(extension, "html") {
            Mime::TextHtml
        } else if same_text(extension, "json") {
            Mime::ApplicationJson
        } else if same_text(extension, "css") {
            Mime::CSS
        } else if same_text(extension, "js") {
            Mime::JavaScript
        } else {
            Mime::TextPlain
        }
    }
}

/// Naming a media type and reading the name back gives the media type again.
pub proof fn lemma_mime_name_round_trip(m: Mime)
    ensures
        Mime::of_name(m.name()) == m,
{
    reveal_strlit("text/plain");
    reveal_strlit("text/html");
    reveal_strlit("application/json");
    reveal_strlit("text/css");
    reveal_strlit("application/javascript");
    assert("text/plain"@.len() == 10);
    assert("text/html"@.len() == 9);
    assert("application/json"@.len() == 16);
    assert("text/css"@.len() == 8);
    assert("application/javascript"@.len() == 22);
}

} // verus!
