use spellbook::auth::{authorize, TokenStore, TOKEN_DURATION};
use spellbook::requests::{
    bad_request_response, check_token, internal_server_error_response, not_found_404_response,
    render_page, report, serve_bytes, serve_file, serve_index_html_page, stage, stage_in,
    unauthorized_response, verify_source, working_dir, working_dir_or, Reply, RunCodeRequest,
    EXPIRED_MESSAGE, STALE_MESSAGE, TOKEN_PLACEHOLDER,
};
use spellbook::run::{install_runners, snippet_hash, Runner, RunnerRegistry};

fn header(name: &str, value: &str) -> (String, String) {
    (name.to_string(), value.to_string())
}

fn open_to_all() -> Vec<(String, String)> {
    vec![header("Access-Control-Allow-Origin", "*"), header("Access-Control-Allow-Headers", "*")]
}

fn request(path: &str, token: &str, language: &str, code: &str) -> RunCodeRequest {
    RunCodeRequest {
        path: path.to_string(),
        token: token.to_string(),
        language: language.to_string(),
        code: code.to_string(),
    }
}

fn python_registry() -> RunnerRegistry {
    let mut registry = RunnerRegistry::new();
    install_runners(
        &mut registry,
        vec![Runner {
            language: "python".to_string(),
            command: vec!["python3".to_string(), "__FILE__".to_string()],
            extension: "py".to_string(),
        }],
    );
    registry
}

fn body_text(reply: &Reply) -> String {
    String::from_utf8(reply.body.clone()).expect("text")
}

#[test]
fn serve_bytes_sets_the_headers() {
    let reply = serve_bytes(vec![1, 2, 3], "image/png", true);
    let mut headers = open_to_all();
    headers.push(header("Cache-Control", "public, max-age=31919000, immutable"));
    headers.push(header("Content-Type", "image/png"));
    assert_eq!(reply, Reply { status: 200, headers, body: vec![1, 2, 3] });

    let reply = serve_bytes(Vec::new(), "text/plain; charset=utf-8", false);
    let mut headers = open_to_all();
    headers.push(header("Cache-Control", "max-age=0"));
    headers.push(header("Content-Type", "text/plain; charset=utf-8"));
    assert_eq!(reply, Reply { status: 200, headers, body: Vec::new() });
}

#[test]
fn serve_bytes_refuses_a_content_type_that_is_no_header_value() {
    let failure = internal_server_error_response();
    assert_eq!(serve_bytes(vec![1, 2], "text/plain\nX: y", false), failure);
    assert_eq!(serve_bytes(vec![1, 2], "text/plain\r", true), failure);
    assert_eq!(serve_bytes(vec![1, 2], "\u{0}", true), failure);
    assert_eq!(serve_bytes(vec![1, 2], "text\u{1f}", true), failure);
    assert_eq!(serve_bytes(vec![1, 2], "text/\u{7f}plain", false), failure);
    assert_eq!(serve_file(Some(vec![1, 2]), "text/plain\nX: y", false), failure);
    assert_eq!(serve_file(None, "text/plain\nX: y", false), failure);
}

#[test]
fn serve_bytes_takes_every_header_value() {
    for content_type in ["", " ", "text/plain\tcharset=utf-8", "~", "texte/é", "\u{80}", "日本"] {
        let reply = serve_bytes(vec![7], content_type, false);
        assert_eq!(reply.status, 200, "{content_type:?}");
        assert_eq!(reply.headers[3], header("Content-Type", content_type));
        assert_eq!(reply.body, vec![7]);
        assert!(hyper::header::HeaderValue::from_str(content_type).is_ok());
    }
}

#[test]
fn serve_file_fails_without_content() {
    assert_eq!(serve_file(None, "text/css", true), internal_server_error_response());
    assert_eq!(serve_file(Some(vec![9]), "text/css", true), serve_bytes(vec![9], "text/css", true));
}

#[test]
fn plain_replies() {
    assert_eq!(
        internal_server_error_response(),
        Reply { status: 500, headers: open_to_all(), body: Vec::new() }
    );
    assert_eq!(not_found_404_response(), Reply { status: 404, headers: Vec::new(), body: Vec::new() });
    assert_eq!(report(true), Reply { status: 200, headers: Vec::new(), body: Vec::new() });
    assert_eq!(report(false), internal_server_error_response());
}

#[test]
fn error_replies_carry_the_message() {
    let reply = unauthorized_response("no");
    assert_eq!(
        reply,
        Reply { status: 401, headers: Vec::new(), body: b"{\"error_message\":\"no\"}".to_vec() }
    );
    let reply = bad_request_response("bad thing");
    let mut headers = open_to_all();
    headers.push(header("Content-Type", "application/json"));
    assert_eq!(
        reply,
        Reply { status: 400, headers, body: b"{\"error_message\":\"bad thing\"}".to_vec() }
    );
    assert_eq!(body_text(&bad_request_response("")), "{\"error_message\":\"\"}");
    assert_eq!(body_text(&unauthorized_response("é")), "{\"error_message\":\"é\"}");
}

#[test]
fn error_replies_are_json_whatever_the_message() {
    assert_eq!(
        body_text(&bad_request_response("a \"b\" \\ c\n")),
        "{\"error_message\":\"a \\\"b\\\" \\\\ c\\n\"}"
    );
    let messages = [
        "",
        "plain",
        "File /tmp/\"x\".md could not be read",
        "back\\slash",
        "line\nbreak\r\ttab",
        "\u{0}\u{1}\u{8}\u{b}\u{c}\u{1f} \u{7f}",
        "\"}, \"admin\": true, {\"x\": \"",
        "é 日本 \u{1F496}",
    ];
    for message in messages {
        for reply in [bad_request_response(message), unauthorized_response(message)] {
            let value: serde_json::Value =
                serde_json::from_slice(&reply.body).expect("a JSON body");
            let object = value.as_object().expect("an object");
            assert_eq!(object.len(), 1);
            assert_eq!(object["error_message"].as_str(), Some(message));
        }
    }
}

#[test]
fn render_page_puts_the_quoted_token_in() {
    assert_eq!(TOKEN_PLACEHOLDER, "__TOKEN__");
    let reply = render_page("<script>let t = __TOKEN__; f(__TOKEN__)</script>", 1234);
    assert_eq!(body_text(&reply), "<script>let t = \"1234\"; f(\"1234\")</script>");
    assert_eq!(reply.status, 200);
    let mut headers = open_to_all();
    headers.push(header("Cache-Control", "max-age=0"));
    headers.push(header("Content-Type", "text/html; charset=utf-8"));
    assert_eq!(reply.headers, headers);
    assert_eq!(body_text(&render_page("none", 5)), "none");
    assert_eq!(body_text(&render_page("__TOKEN__", u64::MAX)), "\"18446744073709551615\"");
}

#[test]
fn index_page_carries_a_token_that_is_valid_for_the_path() {
    let mut store = TokenStore::new();
    let reply = serve_index_html_page(&mut store, Some("token=__TOKEN__"), "/tmp/doc.md", 10);
    assert_eq!(reply.status, 200);
    assert_eq!(store.len(), 1);
    let body = body_text(&reply);
    let token = body
        .strip_prefix("token=\"")
        .and_then(|rest| rest.strip_suffix("\""))
        .expect("a quoted token")
        .to_string();
    let outcome = check_token(&mut store, request("/tmp/doc.md", &token, "python", "x"), 11);
    assert!(outcome.is_ok());
    let outcome = check_token(&mut store, request("/tmp/other.md", &token, "python", "x"), 11);
    assert!(outcome.is_err());
}

#[test]
fn index_page_fails_without_a_template() {
    let mut store = TokenStore::new();
    let reply = serve_index_html_page(&mut store, None, "/tmp/doc.md", 10);
    assert_eq!(reply, internal_server_error_response());
    assert_eq!(store.len(), 0);
}

#[test]
fn check_token_rejects_what_is_no_number() {
    let mut store = TokenStore::new();
    assert!(store.try_issue(7, "/tmp/doc.md", 0));
    let cases = [
        ("", "cannot parse integer from empty string"),
        ("seven", "invalid digit found in string"),
        ("-7", "invalid digit found in string"),
        ("7.0", "invalid digit found in string"),
        ("18446744073709551616", "number too large to fit in target type"),
    ];
    for (token, message) in cases {
        let outcome = check_token(&mut store, request("/tmp/doc.md", token, "python", "x"), 1);
        assert_eq!(outcome.err(), Some(bad_request_response(message)));
    }
    // A token that is no number leaves the store alone, even after the hour.
    let outcome =
        check_token(&mut store, request("/tmp/doc.md", "x", "python", "x"), TOKEN_DURATION + 5);
    assert!(outcome.is_err());
    assert_eq!(store.len(), 1);
}

#[test]
fn check_token_refuses_unknown_expired_and_misplaced_tokens() {
    let refusal = unauthorized_response(EXPIRED_MESSAGE);
    assert_eq!(
        EXPIRED_MESSAGE,
        "You are not authorized to run this code. Maybe your token has expired? Try reloading the page."
    );
    let mut store = TokenStore::new();
    assert!(store.try_issue(7, "/tmp/doc.md", 0));
    let outcome = check_token(&mut store, request("/tmp/doc.md", "8", "python", "x"), 1);
    assert_eq!(outcome.err(), Some(refusal.clone()));
    let outcome = check_token(&mut store, request("/tmp/doc.md", "0", "python", "x"), 1);
    assert_eq!(outcome.err(), Some(refusal.clone()));
    let outcome = check_token(&mut store, request("/tmp/other.md", "7", "python", "x"), 1);
    assert_eq!(outcome.err(), Some(refusal.clone()));
    let outcome = check_token(&mut store, request("/tmp/doc.md", "7", "python", "x"), TOKEN_DURATION);
    assert_eq!(outcome.err(), Some(refusal));
    assert_eq!(store.len(), 0);
}

#[test]
fn check_token_hands_the_request_on() {
    let mut store = TokenStore::new();
    assert!(store.try_issue(7, "/tmp/doc.md", 0));
    let sent = request("/tmp/doc.md", "+7", "python", "print(1)");
    let authorized = check_token(&mut store, sent.clone(), 1).expect("accepted");
    assert_eq!(authorized.request(), &sent);
    let again = check_token(&mut store, sent.clone(), 2).expect("accepted again");
    assert_eq!(again.request(), &sent);
}

#[test]
fn provenance_check() {
    let mut store = TokenStore::new();
    assert!(store.try_issue(7, "/tmp/doc.md", 0));
    let present = check_token(&mut store, request("/tmp/doc.md", "7", "python", "print(1)"), 1)
        .expect("accepted");
    let verified = verify_source(present, Some("print(1)\n")).expect("the code is in the file");
    assert_eq!(verified.request(), &request("/tmp/doc.md", "7", "python", "print(1)"));

    let absent = check_token(&mut store, request("/tmp/doc.md", "7", "python", "print(2)"), 1)
        .expect("accepted");
    let outcome = verify_source(absent, Some("print(1)\n"));
    assert_eq!(outcome.err(), Some(unauthorized_response(STALE_MESSAGE)));
}

#[test]
fn unreadable_source_is_a_bad_request() {
    let mut store = TokenStore::new();
    assert!(store.try_issue(7, "/tmp/gone.md", 0));
    let authorized = check_token(&mut store, request("/tmp/gone.md", "7", "python", "print(1)"), 1)
        .expect("accepted");
    let outcome = verify_source(authorized, None);
    assert_eq!(outcome.err(), Some(bad_request_response("File /tmp/gone.md could not be read")));
}

#[test]
fn unreadable_source_with_a_quote_in_its_path() {
    let mut store = TokenStore::new();
    assert!(store.try_issue(7, "/tmp/\"gone\".md", 0));
    let authorized =
        check_token(&mut store, request("/tmp/\"gone\".md", "7", "python", "print(1)"), 1)
            .expect("accepted");
    let reply = verify_source(authorized, None).err().expect("rejected");
    assert_eq!(reply.status, 400);
    assert_eq!(
        body_text(&reply),
        "{\"error_message\":\"File /tmp/\\\"gone\\\".md could not be read\"}"
    );
}

#[test]
fn empty_code_stands_in_every_file() {
    let mut store = TokenStore::new();
    assert!(store.try_issue(7, "/tmp/doc.md", 0));
    let authorized =
        check_token(&mut store, request("/tmp/doc.md", "7", "python", ""), 1).expect("accepted");
    assert!(verify_source(authorized, Some("")).is_ok());
}

#[test]
fn runner_resolution() {
    let registry = python_registry();
    let mut store = TokenStore::new();
    assert!(store.try_issue(7, "/tmp/doc.md", 0));
    let authorized = check_token(&mut store, request("/tmp/doc.md", "7", "ruby", "puts 1"), 1)
        .expect("accepted");
    let verified = verify_source(authorized, Some("puts 1")).expect("verified");
    let outcome = stage_in(&verified, &registry, "/tmp", "/tmp");
    assert_eq!(outcome.err(), Some(internal_server_error_response()));
    let outcome = stage(&verified, &registry, "/tmp");
    assert_eq!(outcome.err(), Some(internal_server_error_response()));
}

#[test]
fn end_to_end_scenario() {
    let registry = python_registry();
    let mut store = TokenStore::new();
    let id = authorize(&mut store, "/tmp/doc.md", 100).expect("a token");
    let sent = request("/tmp/doc.md", &id.to_string(), "python", "print('hi')");
    let authorized = check_token(&mut store, sent, 200).expect("accepted");
    let verified =
        verify_source(authorized, Some("# Notes\n```python\nprint('hi')\n```\n")).expect("verified");
    let invocation = stage_in(&verified, &registry, "/tmp", "/var/tmp").expect("a plan");
    let file = format!("/var/tmp/spellbook/{}.py", snippet_hash("python", "print('hi')"));
    assert_eq!(invocation.scratch_dir, "/var/tmp/spellbook");
    assert_eq!(invocation.staged_file, file);
    assert_eq!(invocation.command, vec!["python3".to_string(), file]);
    assert_eq!(invocation.working_dir, "/tmp");
    let reply = report(true);
    assert_eq!(reply.status, 200);
    assert!(reply.body.is_empty());
}

#[test]
fn tamper_scenario() {
    let mut store = TokenStore::new();
    let id = authorize(&mut store, "/tmp/doc.md", 100).expect("a token");
    let sent = request("/tmp/doc.md", &id.to_string(), "python", "print('hi')");
    let authorized = check_token(&mut store, sent, 200).expect("accepted");
    let reply = verify_source(authorized, Some("# Notes\n```python\nprint('bye')\n```\n"))
        .err()
        .expect("refused");
    assert_eq!(reply.status, 401);
    assert_eq!(
        body_text(&reply),
        "{\"error_message\":\"Requested source code does not exist in the file anymore. Maybe the file has been modified? Try reloading the page.\"}"
    );
}

#[test]
fn working_dir_is_the_parent_or_the_path() {
    assert_eq!(working_dir_or("/tmp/doc.md", Some("/tmp".to_string())), "/tmp");
    assert_eq!(working_dir_or("/", None), "/");
    assert_eq!(working_dir_or("", None), "");
    assert_eq!(working_dir("doc.md"), "");
    assert_eq!(working_dir(""), "");
    assert_eq!(working_dir("notes/doc.md"), "notes");
    assert_eq!(working_dir("/tmp/doc.md"), "/tmp");
    assert_eq!(working_dir("/tmp/notes/"), "/tmp");
    assert_eq!(working_dir("/tmp"), "/");
    assert_eq!(working_dir("/"), "/");
}

#[test]
fn working_dir_depends_on_the_path_alone() {
    for path in ["/tmp/doc.md", "doc.md", "", "/", "a/b/c.md"] {
        assert_eq!(working_dir(path), working_dir(path));
    }
}

#[test]
fn stage_runs_in_the_directory_of_the_file() {
    let registry = python_registry();
    let mut store = TokenStore::new();
    assert!(store.try_issue(7, "notes/doc.md", 0));
    let authorized = check_token(&mut store, request("notes/doc.md", "7", "python", "print(1)"), 1)
        .expect("accepted");
    let verified = verify_source(authorized, Some("print(1)")).expect("verified");
    let invocation = stage(&verified, &registry, "/tmp").expect("a plan");
    assert_eq!(invocation.working_dir, "notes");
    assert_eq!(invocation.command[0], "python3");
    assert_eq!(invocation.command[1], invocation.staged_file);
}
