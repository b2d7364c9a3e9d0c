//! The plugins that come with the server.

use crate::mime::Mime;
use crate::path::{extension_of, get_extension, last_dot};
use crate::plugin::Plugin;
use crate::request::{Request, RequestView};
use crate::response::{error_response, ok_response, Response, ResponseView};
use crate::status::StatusCode;
use crate::text::same_text;
use vstd::prelude::*;
use vstd::slice::slice_to_vec;
use vstd::string::StringExecFns;
use vstd::utf8::encode_utf8;

verus! {

/// Whether `request` asks for the root path with the method `GET`.
pub open spec fn is_root_get(request: RequestView) -> bool {
    request.path == "/"@ && request.method == "GET"@
}

/// Tells whether `request` asks for the root path with the method `GET`.
pub fn asks_for_root(request: &Request) -> (b: bool)
    ensures
        b == is_root_get(request@),
{
    same_text(request.path.as_str(), "/") && same_text(request.method.as_str(), "GET")
}

/// The path, below the root of the application, of the landing page.
pub open spec fn landing_page() -> Seq<char> {
    "statics/index.html"@
}

/// The media type of the landing page: by the extension of its file name,
/// and that of a page where the name has none.
pub open spec fn landing_mime() -> Mime {
    match extension_of("index.html"@) {
        Some(extension) => Mime::of_extension(extension),
        None => Mime::of_extension("html"@),
    }
}

/// The landing page is served as HTML.
pub proof fn lemma_landing_mime()
    ensures
        landing_mime() == Mime::TextHtml,
{
    reveal_strlit("index.html");
    reveal_strlit("html");
    let name = "index.html"@;
    assert(name.len() == 10);
    assert(last_dot(name, 10) == 5) by {
        reveal_with_fuel(last_dot, 6);
    }
    assert(name.skip(6) =~= "html"@);
    assert(name != seq!['.', '.']) by {
        assert(seq!['.', '.'].len() == 2);
    }
}

/// The plugin that serves the landing page of the user interface.
#[derive(Debug)]
pub struct PluginUI;

impl PluginUI {
    /// The plugin.
    pub fn new() -> (plugin: Self)
        ensures
            plugin == PluginUI,
    {
        PluginUI
    }
}

impl Plugin for PluginUI {
    /// The plugin claims `GET /`.
    open spec fn claims(&self, request: RequestView) -> bool {
        is_root_get(request)
    }

    /// The plugin wants the landing page read.
    open spec fn wanted(&self, request: RequestView) -> Option<Seq<char>> {
        Some(landing_page())
    }

    /// The landing page as HTML, or `404` with the text `File not found`
    /// where the page could not be read.
    open spec fn response(&self, request: RequestView, content: Option<Seq<u8>>) -> ResponseView {
        match content {
            Some(page) => ok_response(page, Mime::TextHtml),
            None => error_response("File not found"@, StatusCode::NotFound),
        }
    }

    /// The plugin needs no setting up: `init` succeeds and changes nothing.
    open spec fn set_up(&self, after: &Self, started: Result<(), std::io::Error>) -> bool {
        started is Ok && *after == *self
    }

    /// The plugin needs no setting up: this succeeds and changes nothing.
    fn init(&mut self) -> (started: Result<(), std::io::Error>)
        ensures
            started is Ok,
            *final(self) == *old(self),
    {
        Ok(())
    }

    fn catch(&self, request: &Request) -> (claimed: bool) {
        asks_for_root(request)
    }

    fn source(&self, request: &Request) -> (path: Option<String>) {
        Some(String::from_str("statics/index.html"))
    }

    fn serve(&self, request: &Request, content: Option<Vec<u8>>) -> (response: Response) {
        match content {
            Some(page) => {
                proof {
                    lemma_landing_mime();
                }
                let mime = match get_extension("index.html") {
                    Some(extension) => Mime::from_extension(extension),
                    None => Mime::from_extension("html"),
                };
                Response::response_ok(page, mime)
            },
            None => Response::response_error(
                String::from_str("File not found"),
                StatusCode::NotFound,
            ),
        }
    }
}

/// The plugin that answers with a description of the request and of the
/// directory it was made for.
#[derive(Debug)]
pub struct PluginStatics {
    /// The directory of the static files.
    pub path_statics: String,
}

/// The text that `PluginStatics` answers with.
pub open spec fn statics_text(request: RequestView, path_statics: Seq<char>) -> Seq<char> {
    "Path: "@ + request.path + ",\nMethod: "@ + request.method + " Static: "@ + path_statics
}

impl PluginStatics {
    /// The plugin for the directory `path_statics`.
    pub fn new(path_statics: String) -> (plugin: Self)
        ensures
            plugin.path_statics == path_statics,
    {
        PluginStatics { path_statics }
    }
}

impl Plugin for PluginStatics {
    /// The plugin claims `GET /`.
    open spec fn claims(&self, request: RequestView) -> bool {
        is_root_get(request)
    }

    /// The plugin wants no file read.
    open spec fn wanted(&self, request: RequestView) -> Option<Seq<char>> {
        None
    }

    /// Status 200 and, as plain text, the path and the method of the
    /// request and the directory of the plugin.
    open spec fn response(&self, request: RequestView, content: Option<Seq<u8>>) -> ResponseView {
        ok_response(encode_utf8(statics_text(request, self.path_statics@)), Mime::TextPlain)
    }

    /// The plugin needs no setting up: `init` succeeds and changes nothing.
    open spec fn set_up(&self, after: &Self, started: Result<(), std::io::Error>) -> bool {
        started is Ok && *after == *self
    }

    /// The plugin needs no setting up: this succeeds and changes nothing.
    fn init(&mut self) -> (started: Result<(), std::io::Error>)
        ensures
            started is Ok,
            *final(self) == *old(self),
    {
        Ok(())
    }

    fn catch(&self, request: &Request) -> (claimed: bool) {
        asks_for_root(request)
    }

    fn source(&self, request: &Request) -> (path: Option<String>) {
        None
    }

    fn serve(&self, request: &Request, content: Option<Vec<u8>>) -> (response: Response) {
        let mut msg = String::from_str("Path: ");
        msg.append(request.path.as_str());
        msg.append(",\nMethod: ");
        msg.append(request.method.as_str());
        msg.append(" Static: ");
        msg.append(self.path_statics.as_str());
        let body = slice_to_vec(msg.as_str().as_bytes());
        Response::response_ok(body, Mime::TextPlain)
    }
}

/// One of the plugins that come with the server: the kind of plugin that a
/// registry of them holds.
#[derive(Debug)]
pub enum Builtin {
    Ui(PluginUI),
    Statics(PluginStatics),
}

impl Plugin for Builtin {
    open spec fn claims(&self, request: RequestView) -> bool {
        match self {
            Builtin::Ui(plugin) => plugin.claims(request),
            Builtin::Statics(plugin) => plugin.claims(request),
        }
    }

    open spec fn wanted(&self, request: RequestView) -> Option<Seq<char>> {
        match self {
            Builtin::Ui(plugin) => plugin.wanted(request),
            Builtin::Statics(plugin) => plugin.wanted(request),
        }
    }

    open spec fn response(&self, request: RequestView, content: Option<Seq<u8>>) -> ResponseView {
        match self {
            Builtin::Ui(plugin) => plugin.response(request, content),
            Builtin::Statics(plugin) => plugin.response(request, content),
        }
    }

    /// Each plugin is set up as its own kind is, and stays of its kind.
    open spec fn set_up(&self, after: &Self, started: Result<(), std::io::Error>) -> bool {
        match (self, after) {
            (Builtin::Ui(plugin), Builtin::Ui(left)) => plugin.set_up(left, started),
            (Builtin::Statics(plugin), Builtin::Statics(left)) => plugin.set_up(left, started),
            _ => false,
        }
    }

    /// None of these plugins needs setting up: this succeeds and changes
    /// nothing.
    fn init(&mut self) -> (started: Result<(), std::io::Error>)
        ensures
            started is Ok,
            *final(self) == *old(self),
    {
        match self {
            Builtin::Ui(plugin) => plugin.init(),
            Builtin::Statics(plugin) => plugin.init(),
        }
    }

    fn catch(&self, request: &Request) -> (claimed: bool) {
        match self {
            Builtin::Ui(plugin) => plugin.catch(request),
            Builtin::Statics(plugin) => plugin.catch(request),
        }
    }

    fn source(&self, request: &Request) -> (path: Option<String>) {
        match self {
            Builtin::Ui(plugin) => plugin.source(request),
            Builtin::Statics(plugin) => plugin.source(request),
        }
    }

    fn serve(&self, request: &Request, content: Option<Vec<u8>>) -> (response: Response) {
        match self {
            Builtin::Ui(plugin) => plugin.serve(request, content),
            Builtin::Statics(plugin) => plugin.serve(request, content),
        }
    }
}

} // verus!
