//! The replies of the service, and the checks a run request passes before its code is run.

use crate::auth::{
    accepts, authorize, available, is_authorized, issued, pruned, validated, TokenStore,
    TOKEN_DURATION,
};
use crate::run::{planned, snippet_id, Invocation, RunnerRegistry};
use crate::text::{
    contains, decimal, decimal_digits, escape_json, json_escaped, occurs_in, parse_u64, parsed,
    replace, replaced,
};
use vstd::prelude::*;
use vstd::string::{StrSliceExecFns, StringExecFns, StringSliceAdditionalSpecFns};
use vstd::utf8::{encode_utf8, is_ascii_chars, is_ascii_chars_encode_utf8};

verus! {

/// What a viewer page holds in place of the token issued for it.
pub const TOKEN_PLACEHOLDER: &'static str = "__TOKEN__";

/// What a client is told when its token is refused.
pub const EXPIRED_MESSAGE: &'static str =
    "You are not authorized to run this code. Maybe your token has expired? Try reloading the page.";

/// What a client is told when the code it sent is not in the file.
pub const STALE_MESSAGE: &'static str =
    "Requested source code does not exist in the file anymore. Maybe the file has been modified? Try reloading the page.";

/// An answer to a request: the status, the headers in order, and the body.
#[derive(Debug, Clone, PartialEq, Eq)]
pub struct Reply {
    pub status: u16,
    pub headers: Vec<(String, String)>,
    pub body: Vec<u8>,
}

/// A reply, as plain values.
pub struct Response {
    pub status: u16,
    pub headers: Seq<(Seq<char>, Seq<char>)>,
    pub body: Seq<u8>,
}

/// The text of each name and value of `headers`.
pub open spec fn pairs(headers: Seq<(String, String)>) -> Seq<(Seq<char>, Seq<char>)> {
    Seq::new(headers.len(), |i: int| (headers[i].0@, headers[i].1@))
}

impl View for Reply {
    type V = Response;

    open spec fn view(&self) -> Response {
        Response { status: self.status, headers: pairs(self.headers@), body: self.body@ }
    }
}

/// The two headers that let a page of any origin read a reply.
pub open spec fn open_to_all() -> Seq<(Seq<char>, Seq<char>)> {
    seq![("Access-Control-Allow-Origin"@, "*"@), ("Access-Control-Allow-Headers"@, "*"@)]
}

/// How long a reply may be kept: for good if `cache`, not at all otherwise.
pub open spec fn cache_rule(cache: bool) -> Seq<char> {
    if cache {
        "public, max-age=31919000, immutable"@
    } else {
        "max-age=0"@
    }
}

/// Whether a byte can stand in the value of a header: it is a tab, or neither a control
/// character nor the delete character.
pub open spec fn header_byte(byte: u8) -> bool {
    byte >= 32 && byte != 127 || byte == 9
}

/// Whether `text` can be the value of a header: every byte of its UTF-8 form can stand
/// in one.
pub open spec fn header_value(text: Seq<char>) -> bool {
    forall|i: int| 0 <= i < encode_utf8(text).len() ==> header_byte(#[trigger] encode_utf8(text)[i])
}

/// `HeaderValue::from_str` of the crate `http`, as `hyper` hands it on: it accepts a text
/// exactly when every byte of it is a tab, or at least 32 and not 127.
#[verifier::external_body]
fn is_header_value(text: &str) -> (valid: bool)
    ensures
        valid == header_value(text@),
{
    hyper::header::HeaderValue::from_str(text).is_ok()
}

/// The reply that hands out `content` of type `content_type`.
pub open spec fn served(content: Seq<u8>, content_type: Seq<char>, cache: bool) -> Response {
    Response {
        status: 200,
        headers: open_to_all() + seq![
            ("Cache-Control"@, cache_rule(cache)),
            ("Content-Type"@, content_type),
        ],
        body: content,
    }
}

/// The reply to a request that failed on the server's side: no detail is given.
pub open spec fn internal_server_error() -> Response {
    Response { status: 500, headers: open_to_all(), body: Seq::<u8>::empty() }
}

/// The reply to a request for something that is not there.
pub open spec fn not_found() -> Response {
    Response { status: 404, headers: Seq::<(Seq<char>, Seq<char>)>::empty(), body: Seq::<u8>::empty() }
}

/// The reply to a run request whose code ran and succeeded.
pub open spec fn succeeded() -> Response {
    Response { status: 200, headers: Seq::<(Seq<char>, Seq<char>)>::empty(), body: Seq::<u8>::empty() }
}

/// The body that carries an error message: a JSON object with the one member
/// `error_message`, whose value is the message as a JSON string.
pub open spec fn error_body(message: Seq<char>) -> Seq<char> {
    "{\"error_message\":\""@ + json_escaped(message) + "\"}"@
}

/// The reply to a request that may not do what it asks for.
pub open spec fn unauthorized(message: Seq<char>) -> Response {
    Response {
        status: 401,
        headers: Seq::<(Seq<char>, Seq<char>)>::empty(),
        body: encode_utf8(error_body(message)),
    }
}

/// The reply to a request that cannot be understood or served as it stands.
pub open spec fn bad_request(message: Seq<char>) -> Response {
    Response {
        status: 400,
        headers: open_to_all() + seq![("Content-Type"@, "application/json"@)],
        body: encode_utf8(error_body(message)),
    }
}

/// Appends the header `name: value` to `headers`.
fn add_header(headers: &mut Vec<(String, String)>, name: &str, value: &str)
    ensures
        pairs(final(headers)@) == pairs(old(headers)@).push((name@, value@)),
{
    headers.push((name.to_owned(), value.to_owned()));
    assert(pairs(headers@) =~= pairs(old(headers)@).push((name@, value@)));
}

/// The two headers of `open_to_all`.
fn open_headers() -> (headers: Vec<(String, String)>)
    ensures
        pairs(headers@) == open_to_all(),
{
    let mut headers: Vec<(String, String)> = Vec::new();
    assert(pairs(headers@) =~= Seq::<(Seq<char>, Seq<char>)>::empty());
    add_header(&mut headers, "Access-Control-Allow-Origin", "*");
    add_header(&mut headers, "Access-Control-Allow-Headers", "*");
    assert(pairs(headers@) =~= open_to_all());
    headers
}

/// The bytes of the body that carries `message`.
fn error_bytes(message: &str) -> (body: Vec<u8>)
    ensures
        body@ == encode_utf8(error_body(message@)),
{
    let mut text = "{\"error_message\":\"".to_owned();
    text.append(escape_json(message).as_str());
    text.append("\"}");
    text.as_str().as_bytes_vec()
}

/// Hands out `content` as `content_type`, to be kept by the client if `cache`. A content
/// type that cannot be the value of a header makes the reply an internal server error.
pub fn serve_bytes(content: Vec<u8>, content_type: &str, cache: bool) -> (reply: Reply)
    ensures
        reply@ == if header_value(content_type@) {
            served(content@, content_type@, cache)
        } else {
            internal_server_error()
        },
{
    if !is_header_value(content_type) {
        return internal_server_error_response();
    }
    let mut headers = open_headers();
    add_header(
        &mut headers,
        "Cache-Control",
        if cache {
            "public, max-age=31919000, immutable"
        } else {
            "max-age=0"
        },
    );
    add_header(&mut headers, "Content-Type", content_type);
    assert(pairs(headers@) =~= served(content@, content_type@, cache).headers);
    Reply { status: 200, headers, body: content }
}

/// Hands out what was read of a file, or fails if it could not be read.
pub fn serve_file(content: Option<Vec<u8>>, content_type: &str, cache: bool) -> (reply: Reply)
    ensures
        reply@ == match content {
            Some(bytes) if header_value(content_type@) => served(bytes@, content_type@, cache),
            _ => internal_server_error(),
        },
{
    match content {
        Some(bytes) => serve_bytes(bytes, content_type, cache),
        None => internal_server_error_response(),
    }
}

/// The reply to a request that failed on the server's side.
pub fn internal_server_error_response() -> (reply: Reply)
    ensures
        reply@ == internal_server_error(),
{
    Reply { status: 500, headers: open_headers(), body: Vec::new() }
}

/// The reply to a request for something that is not there.
pub fn not_found_404_response() -> (reply: Reply)
    ensures
        reply@ == not_found(),
{
    let reply = Reply { status: 404, headers: Vec::new(), body: Vec::new() };
    assert(pairs(reply.headers@) =~= Seq::<(Seq<char>, Seq<char>)>::empty());
    reply
}

/// The reply that refuses a request, with the reason.
pub fn unauthorized_response(error_message: &str) -> (reply: Reply)
    ensures
        reply@ == unauthorized(error_message@),
{
    let reply = Reply { status: 401, headers: Vec::new(), body: error_bytes(error_message) };
    assert(pairs(reply.headers@) =~= Seq::<(Seq<char>, Seq<char>)>::empty());
    reply
}

/// The reply that rejects a request, with the reason.
pub fn bad_request_response(error_message: &str) -> (reply: Reply)
    ensures
        reply@ == bad_request(error_message@),
{
    let mut headers = open_headers();
    add_header(&mut headers, "Content-Type", "application/json");
    assert(pairs(headers@) =~= bad_request(error_message@).headers);
    Reply { status: 400, headers, body: error_bytes(error_message) }
}

/// The reply that closes a run request once its code has been run.
pub fn report(success: bool) -> (reply: Reply)
    ensures
        reply@ == if success {
            succeeded()
        } else {
            internal_server_error()
        },
{
    if success {
        let reply = Reply { status: 200, headers: Vec::new(), body: Vec::new() };
        assert(pairs(reply.headers@) =~= Seq::<(Seq<char>, Seq<char>)>::empty());
        reply
    } else {
        internal_server_error_response()
    }
}

/// `text` between double quotes.
pub open spec fn quoted(text: Seq<char>) -> Seq<char> {
    seq!['"'] + text + seq!['"']
}

/// The viewer page `template` with the token in place of every `TOKEN_PLACEHOLDER`.
pub open spec fn page(template: Seq<char>, token: u64) -> Seq<char> {
    replaced(template, TOKEN_PLACEHOLDER@, quoted(decimal_digits(token as nat)))
}

/// The reply that hands out the viewer page made from `template` for `token`.
pub fn render_page(template: &str, token: u64) -> (reply: Reply)
    ensures
        reply@ == served(encode_utf8(page(template@, token)), "text/html; charset=utf-8"@, false),
{
    let mut literal = String::new();
    literal.push('"');
    literal.append(decimal(token).as_str());
    literal.push('"');
    assert(literal@ =~= quoted(decimal_digits(token as nat)));
    let patched = replace(template, TOKEN_PLACEHOLDER, literal.as_str());
    proof {
        let content_type = "text/html; charset=utf-8"@;
        reveal_strlit("text/html; charset=utf-8");
        assert(is_ascii_chars(content_type));
        is_ascii_chars_encode_utf8(content_type);
        assert(header_value(content_type));
    }
    serve_bytes(patched.as_str().as_bytes_vec(), "text/html; charset=utf-8", false)
}

/// Serves the viewer page for `path`: issues a token for the path and hands out the page
/// that carries it. Fails if the page's template could not be read, or if no token could
/// be issued.
pub fn serve_index_html_page(
    store: &mut TokenStore,
    template: Option<&str>,
    path: &str,
    now: u64,
) -> (reply: Reply)
    requires
        old(store).wf(),
    ensures
        final(store).wf(),
        match template {
            None => final(store)@ == old(store)@ && reply@ == internal_server_error(),
            Some(text) => {
                ||| {
                    &&& final(store)@ == pruned(old(store)@, now, TOKEN_DURATION)
                    &&& reply@ == internal_server_error()
                }
                ||| exists|id: u64|
                    {
                        &&& available(old(store)@, id, now)
                        &&& final(store)@ == #[trigger] issued(old(store)@, id, path@, now)
                        &&& reply@ == served(
                            encode_utf8(page(text@, id)),
                            "text/html; charset=utf-8"@,
                            false,
                        )
                    }
            },
        },
{
    match template {
        None => internal_server_error_response(),
        Some(text) => {
            match authorize(store, path, now) {
                Some(token) => render_page(text, token),
                None => internal_server_error_response(),
            }
        },
    }
}

/// A request to run code, as it arrives.
#[derive(Debug, Clone, PartialEq, Eq)]
pub struct RunCodeRequest {
    /// The file the code is said to come from.
    pub path: String,
    /// The token that was issued for the file, in decimal.
    pub token: String,
    /// The language of the code.
    pub language: String,
    /// The code.
    pub code: String,
}

/// A run request, as plain text.
pub struct Submission {
    pub path: Seq<char>,
    pub token: Seq<char>,
    pub language: Seq<char>,
    pub code: Seq<char>,
}

impl View for RunCodeRequest {
    type V = Submission;

    open spec fn view(&self) -> Submission {
        Submission {
            path: self.path@,
            token: self.token@,
            language: self.language@,
            code: self.code@,
        }
    }
}

/// A run request whose token was accepted for its path. Only `check_token` makes one.
pub struct Authorized {
    request: RunCodeRequest,
}

impl View for Authorized {
    type V = Submission;

    closed spec fn view(&self) -> Submission {
        self.request@
    }
}

impl Authorized {
    /// The request whose token was accepted.
    pub fn request(&self) -> (request: &RunCodeRequest)
        ensures
            request@ == self@,
    {
        &self.request
    }
}

/// A run request with an accepted token whose code stands in its file. Only `verify_source` makes one.
pub struct Verified {
    request: RunCodeRequest,
}

impl View for Verified {
    type V = Submission;

    closed spec fn view(&self) -> Submission {
        self.request@
    }
}

impl Verified {
    /// The request that was verified.
    pub fn request(&self) -> (request: &RunCodeRequest)
        ensures
            request@ == self@,
    {
        &self.request
    }
}

/// Checks the token of a run request: it must be a number, and the store must accept that
/// number for the request's path at `now`.
pub fn check_token(store: &mut TokenStore, request: RunCodeRequest, now: u64) -> (outcome: Result<
    Authorized,
    Reply,
>)
    requires
        old(store).wf(),
    ensures
        final(store).wf(),
        match parsed(request.token@) {
            Err(error) => {
                &&& final(store)@ == old(store)@
                &&& outcome matches Err(reply) && reply@ == bad_request(error.message_text())
            },
            Ok(id) => {
                &&& final(store)@ == validated(old(store)@, id, now)
                &&& if accepts(old(store)@, request.path@, id, now) {
                    outcome matches Ok(authorized) && authorized@ == request@
                } else {
                    outcome matches Err(reply) && reply@ == unauthorized(EXPIRED_MESSAGE@)
                }
            },
        },
{
    match parse_u64(request.token.as_str()) {
        Err(error) => Err(bad_request_response(error.message())),
        Ok(id) => {
            if is_authorized(store, request.path.as_str(), id, now) {
                Ok(Authorized { request })
            } else {
                Err(unauthorized_response(EXPIRED_MESSAGE))
            }
        },
    }
}

/// What a client is told when the file at `path` cannot be read.
pub open spec fn unreadable(path: Seq<char>) -> Seq<char> {
    "File "@ + path + " could not be read"@
}

/// Checks that the code of a request with an accepted token stands, character for character, in what
/// was just read of its file.
pub fn verify_source(authorized: Authorized, source: Option<&str>) -> (outcome: Result<
    Verified,
    Reply,
>)
    ensures
        match source {
            None => outcome matches Err(reply) && reply@ == bad_request(
                unreadable(authorized@.path),
            ),
            Some(text) => if occurs_in(text@, authorized@.code) {
                outcome matches Ok(verified) && verified@ == authorized@
            } else {
                outcome matches Err(reply) && reply@ == unauthorized(STALE_MESSAGE@)
            },
        },
{
    match source {
        None => {
            let mut message = "File ".to_owned();
            message.append(authorized.request.path.as_str());
            message.append(" could not be read");
            Err(bad_request_response(message.as_str()))
        },
        Some(text) => {
            if contains(text, authorized.request.code.as_str()) {
                Ok(Verified { request: authorized.request })
            } else {
                Err(unauthorized_response(STALE_MESSAGE))
            }
        },
    }
}

/// Plans the run of a verified request in `working_dir`: the runner of its language
/// decides the command. Fails if there is no such runner, or none that names a program.
pub fn stage_in(
    verified: &Verified,
    registry: &RunnerRegistry,
    working_dir: &str,
    temp_dir: &str,
) -> (outcome: Result<Invocation, Reply>)
    ensures
        match outcome {
            Ok(invocation) => {
                &&& registry@.contains_key(verified@.language)
                &&& registry@[verified@.language].command.len() > 0
                &&& invocation@ == planned(
                    registry@[verified@.language],
                    working_dir@,
                    snippet_id(verified@.language, verified@.code),
                    temp_dir@,
                )
            },
            Err(reply) => {
                &&& !registry@.contains_key(verified@.language)
                    || registry@[verified@.language].command.len() == 0
                &&& reply@ == internal_server_error()
            },
        },
{
    let request = &verified.request;
    match crate::run::prepare(
        registry,
        working_dir,
        request.language.as_str(),
        request.code.as_str(),
        temp_dir,
    ) {
        Some(invocation) => Ok(invocation),
        None => Err(internal_server_error_response()),
    }
}

/// What `Path::parent` of the standard library makes of a path, both taken as text: the
/// path without its last component, if it has one, by the path rules of the platform
/// the library is built for.
pub uninterp spec fn parent_text(path: Seq<char>) -> Option<Seq<char>>;

/// The directory of the file at `path`: the path's parent, or the path itself where it
/// has none.
pub open spec fn directory_of(path: Seq<char>) -> Seq<char> {
    parent_text(path).unwrap_or(path)
}

/// The directory a snippet of the file at `path` runs in, given the file's parent
/// directory: the parent, or the path itself where there is none.
pub fn working_dir_or(path: &str, parent: Option<String>) -> (dir: String)
    ensures
        dir@ == match parent {
            Some(folder) => folder@,
            None => path@,
        },
{
    match parent {
        Some(folder) => folder,
        None => path.to_owned(),
    }
}

/// The directory a snippet of the file at `path` runs in: the file's parent directory as
/// the platform's path rules give it, or the path itself where they give none.
pub fn working_dir(path: &str) -> (dir: String)
    ensures
        dir@ == directory_of(path@),
        path@.len() == 0 ==> dir@ == path@,
{
    working_dir_or(path, parent_of(path))
}

/// `Path::parent` of the standard library, on a path given and returned as text: the
/// result depends on the path alone, and of an empty path there is none.
#[verifier::external_body]
fn parent_of(path: &str) -> (parent: Option<String>)
    ensures
        match parent {
            Some(folder) => parent_text(path@) == Some(folder@),
            None => parent_text(path@) is None,
        },
        path@.len() == 0 ==> parent is None,
{
    std::path::Path::new(path).parent().map(|p| p.to_string_lossy().into_owned())
}

/// Plans the run of a verified request in the directory of its file.
pub fn stage(verified: &Verified, registry: &RunnerRegistry, temp_dir: &str) -> (outcome: Result<
    Invocation,
    Reply,
>)
    ensures
        match outcome {
            Ok(invocation) => {
                &&& registry@.contains_key(verified@.language)
                &&& registry@[verified@.language].command.len() > 0
                &&& invocation@ == planned(
                    registry@[verified@.language],
                    directory_of(verified@.path),
                    snippet_id(verified@.language, verified@.code),
                    temp_dir@,
                )
            },
            Err(reply) => {
                &&& !registry@.contains_key(verified@.language)
                    || registry@[verified@.language].command.len() == 0
                &&& reply@ == internal_server_error()
            },
        },
{
    let dir = working_dir(verified.request.path.as_str());
    stage_in(verified, registry, dir.as_str(), temp_dir)
}

} // verus!
