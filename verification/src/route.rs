//! Which part of the service a request is for, and the address of a viewer page.

use crate::text::{ends_with, starts_with, str_eq, strip_prefix};
use vstd::prelude::*;
use vstd::string::{StringExecFns, StringSliceAdditionalSpecFns};
use vstd::utf8::encode_utf8;

verus! {

/// Where the viewer page of a file is found; the file's escaped path follows.
pub const VIEWER_ADDRESS: &'static str = "http://127.0.0.1:8081/file/";

/// The method of a request, as far as the service tells methods apart.
#[derive(Debug, Clone, Copy, PartialEq, Eq, Structural)]
pub enum Method {
    Get,
    Post,
    Other,
}

/// What a request is for.
#[derive(Debug, Clone, PartialEq, Eq)]
pub enum Route {
    /// A file that belongs to the viewer itself, to be kept by the client.
    Asset { file: String, content_type: String },
    /// The viewer page for the document at `path`.
    Viewer { path: String },
    /// The text of the document at `path`.
    Document { path: String },
    /// A run of code.
    Run,
    /// Nothing that the service offers.
    NotFound,
}

/// A route, as plain text.
pub enum Destination {
    Asset { file: Seq<char>, content_type: Seq<char> },
    Viewer { path: Seq<char> },
    Document { path: Seq<char> },
    Run,
    NotFound,
}

impl View for Route {
    type V = Destination;

    open spec fn view(&self) -> Destination {
        match *self {
            Route::Asset { file, content_type } => Destination::Asset {
                file: file@,
                content_type: content_type@,
            },
            Route::Viewer { path } => Destination::Viewer { path: path@ },
            Route::Document { path } => Destination::Document { path: path@ },
            Route::Run => Destination::Run,
            Route::NotFound => Destination::NotFound,
        }
    }
}

/// What `percent_decode_str(..).decode_utf8_lossy()` of the crate `percent_encoding`
/// makes of a text.
pub uninterp spec fn percent_decoded(encoded: Seq<char>) -> Seq<char>;

/// `percent_decode_str` of the crate `percent_encoding`, read as UTF-8 by its
/// `decode_utf8_lossy`: the result depends on the text alone.
#[verifier::external_body]
fn percent_decode(encoded: &str) -> (decoded: String)
    ensures
        decoded@ == percent_decoded(encoded@),
{
    percent_encoding::percent_decode_str(encoded).decode_utf8_lossy().into_owned()
}

/// Whether the byte is an ASCII letter or digit.
pub open spec fn is_alphanumeric(byte: u8) -> bool {
    ||| 0x30 <= byte <= 0x39
    ||| 0x41 <= byte <= 0x5a
    ||| 0x61 <= byte <= 0x7a
}

/// The hexadecimal digit, in upper case, for a number below sixteen.
pub open spec fn hex_digit(n: int) -> char {
    if n < 10 {
        ('0' as int + n) as char
    } else {
        ('A' as int + n - 10) as char
    }
}

/// How one byte stands in an escaped text: a letter or digit as itself, any other byte
/// as `%` and its two hexadecimal digits.
pub open spec fn escaped_byte(byte: u8) -> Seq<char> {
    if is_alphanumeric(byte) {
        seq![byte as char]
    } else {
        seq!['%', hex_digit(byte as int / 16), hex_digit(byte as int % 16)]
    }
}

/// The bytes escaped one after the other.
pub open spec fn escaped(bytes: Seq<u8>) -> Seq<char>
    decreases bytes.len(),
{
    if bytes.len() == 0 {
        Seq::<char>::empty()
    } else {
        escaped(bytes.drop_last()) + escaped_byte(bytes.last())
    }
}

/// `utf8_percent_encode` of the crate `percent_encoding` with its set `NON_ALPHANUMERIC`,
/// collected into a string: every byte of the text's UTF-8 form that is no ASCII letter
/// or digit is escaped.
#[verifier::external_body]
fn percent_encode(text: &str) -> (encoded: String)
    ensures
        encoded@ == escaped(encode_utf8(text@)),
{
    percent_encoding::utf8_percent_encode(text, percent_encoding::NON_ALPHANUMERIC).to_string()
}

/// The address of the viewer page for the file at `path`.
pub open spec fn viewer_address(path: Seq<char>) -> Seq<char> {
    VIEWER_ADDRESS@ + escaped(encode_utf8(path))
}

/// The address at which the viewer page for the file at `path` is found.
pub fn viewer_url(path: &str) -> (url: String)
    ensures
        url@ == viewer_address(path@),
{
    let mut url = VIEWER_ADDRESS.to_owned();
    url.append(percent_encode(path).as_str());
    url
}

/// The content type of a file of the icon font, by its name.
pub open spec fn font_type(path: Seq<char>) -> Seq<char> {
    if ".css"@.is_suffix_of(path) {
        "text/css"@
    } else {
        "font/ttf"@
    }
}

/// What a request for the text of the document at `file` is for: only Markdown documents
/// are handed out.
pub open spec fn document(file: Seq<char>) -> Destination {
    if ".md"@.is_suffix_of(file) {
        Destination::Document { path: file }
    } else {
        Destination::NotFound
    }
}

/// What a request with `method` for `path` is for. The rules are tried in this order.
pub open spec fn routed(method: Method, path: Seq<char>) -> Destination {
    if method == Method::Get && path == "/favicon.ico"@ {
        Destination::Asset { file: "pages/favicon.ico"@, content_type: "image/vnd.microsoft.icon"@ }
    } else if method == Method::Get && path == "/page.js"@ {
        Destination::Asset { file: "pages/page.js"@, content_type: "text/javascript"@ }
    } else if method == Method::Get && "/fontawesome/"@.is_prefix_of(path) {
        Destination::Asset { file: "pages/"@ + path, content_type: font_type(path) }
    } else if method == Method::Get && "/file/"@.is_prefix_of(path) {
        Destination::Viewer { path: percent_decoded(path.skip("/file/"@.len() as int)) }
    } else if method == Method::Get && "/api/file/"@.is_prefix_of(path) {
        document(percent_decoded(path.skip("/api/file/"@.len() as int)))
    } else if method == Method::Post && path == "/api/run"@ {
        Destination::Run
    } else {
        Destination::NotFound
    }
}

/// Decides what a request for the text of the document at `file` is for.
pub fn document_route(file: String) -> (route: Route)
    ensures
        route@ == document(file@),
{
    if ends_with(file.as_str(), ".md") {
        Route::Document { path: file }
    } else {
        Route::NotFound
    }
}

/// Decides what a `GET` request for `path` is for.
fn route_get(path: &str) -> (route: Route)
    ensures
        route@ == routed(Method::Get, path@),
{
    if str_eq(path, "/favicon.ico") {
        return Route::Asset {
            file: "pages/favicon.ico".to_owned(),
            content_type: "image/vnd.microsoft.icon".to_owned(),
        };
    }
    if str_eq(path, "/page.js") {
        return Route::Asset {
            file: "pages/page.js".to_owned(),
            content_type: "text/javascript".to_owned(),
        };
    }
    if starts_with(path, "/fontawesome/") {
        let mut file = "pages/".to_owned();
        file.append(path);
        let content_type = if ends_with(path, ".css") {
            "text/css"
        } else {
            "font/ttf"
        };
        return Route::Asset { file, content_type: content_type.to_owned() };
    }
    match strip_prefix(path, "/file/") {
        Some(encoded) => {
            return Route::Viewer { path: percent_decode(encoded.as_str()) };
        },
        None => {},
    }
    match strip_prefix(path, "/api/file/") {
        Some(encoded) => document_route(percent_decode(encoded.as_str())),
        None => Route::NotFound,
    }
}

/// Decides what a request with `method` for `path` is for.
pub fn route(method: Method, path: &str) -> (route: Route)
    ensures
        route@ == routed(method, path@),
{
    match method {
        Method::Get => route_get(path),
        Method::Post => {
            if str_eq(path, "/api/run") {
                Route::Run
            } else {
                Route::NotFound
            }
        },
        Method::Other => Route::NotFound,
    }
}

} // verus!
