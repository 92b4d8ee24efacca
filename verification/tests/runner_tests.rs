use hurl::ast::{SourceInfo, Template, TemplateElement};
use hurl::runner::entry::{
    conclude, eval_query, prepare, AssertSpec, Capture, Entry, KeyValue, Prepared, Query,
    RequestSpec, ResponseSpec,
};
use hurl::runner::entry::log_request;
use hurl::runner::http::{ConnectionFailure, Cookie, HttpPair, HttpRequest, HttpResponse};
use hurl::runner::model::{dec_str, Logger, RunnerError, VariableSet};

fn span() -> SourceInfo {
    SourceInfo::init(1, 1, 1, 1)
}

fn fixed(text: &str) -> Template {
    Template {
        quotes: false,
        elements: vec![TemplateElement::Str { value: text.to_string() }],
        source_info: span(),
    }
}

fn variable(name: &str) -> Template {
    Template {
        quotes: false,
        elements: vec![TemplateElement::Variable { name: name.to_string() }],
        source_info: span(),
    }
}

fn plain_request_spec(url: Template) -> RequestSpec {
    RequestSpec {
        method: "GET".to_string(),
        url,
        headers: vec![],
        querystring: vec![],
        form: vec![],
        multipart: vec![],
        cookies: vec![],
        content_type: None,
    }
}

fn plain_request(url: &str) -> HttpRequest {
    HttpRequest {
        method: "GET".to_string(),
        url: url.to_string(),
        headers: vec![],
        querystring: vec![],
        form: vec![],
        multipart: vec![],
        cookies: vec![],
        content_type: None,
    }
}

fn response_with_header(name: &str, value: &str) -> HttpResponse {
    HttpResponse {
        status: 200,
        headers: vec![HttpPair { name: name.to_string(), value: value.to_string() }],
        body: "hello".to_string(),
    }
}

#[test]
fn test_capture_then_assert() {
    // An assertion referencing a variable captured earlier in the same
    // entry sees the captured value, so it passes.
    let entry = Entry {
        request: plain_request_spec(fixed("http://example.com/a")),
        response: Some(ResponseSpec {
            captures: vec![Capture {
                name: "id".to_string(),
                query: Query::Header { name: "X-Id".to_string() },
                source_info: span(),
            }],
            asserts: vec![AssertSpec {
                query: Query::Header { name: "X-Id".to_string() },
                expected: variable("id"),
                source_info: span(),
            }],
        }),
    };
    let mut variables = VariableSet::new();
    let mut logger = Logger::new();
    let result = conclude(
        &entry,
        plain_request("http://example.com/a"),
        Ok(response_with_header("X-Id", "4217")),
        12,
        &mut variables,
        &mut logger,
    );
    assert_eq!(result.captures.len(), 1);
    assert_eq!(result.captures[0].name, "id");
    assert_eq!(result.captures[0].value, "4217");
    assert_eq!(variables.get(&"id".to_string()).unwrap().as_str(), "4217");
    assert_eq!(result.asserts.len(), 1);
    assert!(result.asserts[0].success);
    assert_eq!(result.errors.len(), 0);
    assert_eq!(result.time_in_ms, 12);
}

#[test]
fn test_asserts_no_short_circuit() {
    // Three assertions, the first and third failing: all three are
    // evaluated, exactly two failures are reported, and the request and
    // response are still populated.
    let entry = Entry {
        request: plain_request_spec(fixed("http://example.com/a")),
        response: Some(ResponseSpec {
            captures: vec![],
            asserts: vec![
                AssertSpec { query: Query::Status, expected: fixed("500"), source_info: span() },
                AssertSpec { query: Query::Status, expected: fixed("200"), source_info: span() },
                AssertSpec { query: Query::Body, expected: fixed("nope"), source_info: span() },
            ],
        }),
    };
    let mut variables = VariableSet::new();
    let mut logger = Logger::new();
    let result = conclude(
        &entry,
        plain_request("http://example.com/a"),
        Ok(response_with_header("X-Id", "1")),
        3,
        &mut variables,
        &mut logger,
    );
    assert!(result.request.is_some());
    assert!(result.response.is_some());
    assert_eq!(result.asserts.len(), 3);
    assert!(!result.asserts[0].success);
    assert!(result.asserts[1].success);
    assert!(!result.asserts[2].success);
    assert_eq!(result.errors.len(), 2);
    assert!(result.errors[0].assert);
    assert!(result.errors[1].assert);
}

#[test]
fn test_connection_error_isolation() {
    // A connection failure leaves the variable environment untouched, and
    // the next entry still runs with the variables set before it.
    let mut variables = VariableSet::new();
    variables.insert("host".to_string(), "example.com".to_string());
    let mut logger = Logger::new();
    let entry = Entry {
        request: plain_request_spec(fixed("http://down.example.com/")),
        response: None,
    };
    let result = conclude(
        &entry,
        plain_request("http://down.example.com/"),
        Err(ConnectionFailure { message: "".to_string() }),
        99,
        &mut variables,
        &mut logger,
    );
    assert!(result.response.is_none());
    assert_eq!(result.time_in_ms, 0);
    assert_eq!(result.errors.len(), 1);
    assert!(!result.errors[0].assert);
    match &result.errors[0].inner {
        RunnerError::HttpConnection { message, url } => {
            assert_eq!(message, "");
            assert_eq!(url, "http://down.example.com/");
        }
        _ => panic!("expected a connection error"),
    }
    assert_eq!(variables.get(&"host".to_string()).unwrap().as_str(), "example.com");

    // The following entry still resolves its templates from the old state.
    let next = Entry {
        request: plain_request_spec(variable("host")),
        response: None,
    };
    match prepare(&next, &variables, 1, &mut logger) {
        Prepared::Ready { request, .. } => assert_eq!(request.url, "example.com"),
        Prepared::Failed(_) => panic!("expected the entry to resolve"),
    }
}

#[test]
fn test_prepare_template_error() {
    let entry = Entry {
        request: plain_request_spec(variable("missing")),
        response: None,
    };
    let variables = VariableSet::new();
    let mut logger = Logger::new();
    match prepare(&entry, &variables, 0, &mut logger) {
        Prepared::Failed(result) => {
            assert!(result.request.is_none());
            assert!(result.response.is_none());
            assert_eq!(result.time_in_ms, 0);
            assert_eq!(result.errors.len(), 1);
            match &result.errors[0].inner {
                RunnerError::TemplateVariableNotDefined { name } => assert_eq!(name, "missing"),
                _ => panic!("expected an undefined variable error"),
            }
        }
        Prepared::Ready { .. } => panic!("expected a template failure"),
    }
    assert_eq!(logger.lines.len(), 0);
}

#[test]
fn test_prepare_seeds_cookies_from_host() {
    let mut request = plain_request_spec(fixed("http://example.com/index"));
    request.cookies = vec![KeyValue { name: "sid".to_string(), value: fixed("abc") }];
    let entry = Entry { request, response: None };
    let variables = VariableSet::new();
    let mut logger = Logger::new();
    match prepare(&entry, &variables, 0, &mut logger) {
        Prepared::Ready { cookies, .. } => {
            assert_eq!(cookies.len(), 1);
            assert_eq!(cookies[0].domain, "example.com");
            assert_eq!(cookies[0].include_subdomain, "FALSE");
            assert_eq!(cookies[0].path, "/");
            assert_eq!(cookies[0].https, "FALSE");
            assert_eq!(cookies[0].expires, "0");
            assert_eq!(cookies[0].name, "sid");
            assert_eq!(cookies[0].value, "abc");
        }
        Prepared::Failed(_) => panic!("expected the entry to resolve"),
    }
    assert_eq!(logger.lines.len(), 2);
    assert_eq!(logger.lines[1], "executing entry 1");
}

#[test]
fn test_prepare_skips_cookies_on_malformed_url() {
    // A URL that does not parse skips cookie seeding silently; the failure
    // surfaces later, when the request is executed.
    let mut request = plain_request_spec(fixed("not a url"));
    request.cookies = vec![KeyValue { name: "sid".to_string(), value: fixed("abc") }];
    let entry = Entry { request, response: None };
    let variables = VariableSet::new();
    let mut logger = Logger::new();
    match prepare(&entry, &variables, 0, &mut logger) {
        Prepared::Ready { cookies, .. } => assert_eq!(cookies.len(), 0),
        Prepared::Failed(_) => panic!("expected the entry to resolve"),
    }
}

#[test]
fn test_capture_failure_is_terminal() {
    let entry = Entry {
        request: plain_request_spec(fixed("http://example.com/a")),
        response: Some(ResponseSpec {
            captures: vec![Capture {
                name: "tok".to_string(),
                query: Query::Header { name: "X-Token".to_string() },
                source_info: span(),
            }],
            asserts: vec![AssertSpec {
                query: Query::Status,
                expected: fixed("200"),
                source_info: span(),
            }],
        }),
    };
    let mut variables = VariableSet::new();
    let mut logger = Logger::new();
    let result = conclude(
        &entry,
        plain_request("http://example.com/a"),
        Ok(response_with_header("X-Other", "v")),
        5,
        &mut variables,
        &mut logger,
    );
    assert!(result.request.is_some());
    assert!(result.response.is_some());
    assert_eq!(result.captures.len(), 0);
    assert_eq!(result.asserts.len(), 0);
    assert_eq!(result.errors.len(), 1);
    match &result.errors[0].inner {
        RunnerError::CaptureFailure { name } => assert_eq!(name, "tok"),
        _ => panic!("expected a capture failure"),
    }
    assert!(variables.get(&"tok".to_string()).is_none());
}

#[test]
fn test_variable_overwrite() {
    let mut variables = VariableSet::new();
    variables.insert("x".to_string(), "1".to_string());
    variables.insert("x".to_string(), "2".to_string());
    assert_eq!(variables.get(&"x".to_string()).unwrap().as_str(), "2");
    assert!(variables.get(&"y".to_string()).is_none());
}

#[test]
fn test_status_query_renders_decimal() {
    let resp = HttpResponse { status: 404, headers: vec![], body: String::new() };
    assert_eq!(eval_query(&Query::Status, &resp).unwrap(), "404");
    assert_eq!(dec_str(0), "0");
    assert_eq!(dec_str(230), "230");
    assert_eq!(dec_str(18446744073709551615), "18446744073709551615");
}

#[test]
fn test_log_request_lines() {
    let mut request = plain_request("http://example.com/a");
    request.headers = vec![HttpPair { name: "Accept".to_string(), value: "*/*".to_string() }];
    request.querystring = vec![HttpPair { name: "q".to_string(), value: "1".to_string() }];
    let mut logger = Logger::new();
    log_request(&mut logger, &request);
    assert_eq!(
        logger.lines,
        vec![
            "Request",
            "GET http://example.com/a",
            "Accept: */*",
            "[QueryStringParams]",
            "q: 1",
            "",
        ]
    );
}

#[test]
fn test_cookie_line() {
    let cookie = Cookie {
        domain: "example.com".to_string(),
        include_subdomain: "FALSE".to_string(),
        path: "/".to_string(),
        https: "FALSE".to_string(),
        expires: "0".to_string(),
        name: "sid".to_string(),
        value: "abc".to_string(),
    };
    assert_eq!(cookie.to_line(), "example.com\tFALSE\t/\tFALSE\t0\tsid\tabc");
}

#[test]
fn test_entry_without_response_spec() {
    let entry = Entry {
        request: plain_request_spec(fixed("http://example.com/a")),
        response: None,
    };
    let mut variables = VariableSet::new();
    let mut logger = Logger::new();
    let result = conclude(
        &entry,
        plain_request("http://example.com/a"),
        Ok(response_with_header("X", "y")),
        7,
        &mut variables,
        &mut logger,
    );
    assert_eq!(result.captures.len(), 0);
    assert_eq!(result.asserts.len(), 0);
    assert_eq!(result.errors.len(), 0);
    assert_eq!(result.time_in_ms, 7);
    assert_eq!(logger.lines, vec!["Response Time: 7ms", ""]);
}

#[test]
fn test_template_mixed_segments() {
    let url = Template {
        quotes: false,
        elements: vec![
            TemplateElement::Str { value: "http://".to_string() },
            TemplateElement::Variable { name: "host".to_string() },
            TemplateElement::Str { value: "/p".to_string() },
        ],
        source_info: span(),
    };
    let entry = Entry { request: plain_request_spec(url), response: None };
    let mut variables = VariableSet::new();
    variables.insert("host".to_string(), "example.com".to_string());
    let mut logger = Logger::new();
    match prepare(&entry, &variables, 4, &mut logger) {
        Prepared::Ready { request, .. } => assert_eq!(request.url, "http://example.com/p"),
        Prepared::Failed(_) => panic!("expected the entry to resolve"),
    }
    assert_eq!(logger.lines[1], "executing entry 5");
}
