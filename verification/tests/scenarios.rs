use esi::{
    process_symbols, Configuration, DispatchOutcome, ExecutionError, FragmentOracle, HttpRequest,
    Processor, RequestContext, UrlParts,
};

fn oracle(entries: Vec<(&str, DispatchOutcome)>) -> FragmentOracle {
    FragmentOracle {
        entries: entries.into_iter().map(|(u, o)| (u.to_string(), o)).collect(),
    }
}

fn respond(status: u16, body: &str) -> DispatchOutcome {
    DispatchOutcome::Respond(status, body.as_bytes().to_vec())
}

fn run(input: &str, backend: &FragmentOracle) -> Result<(Vec<u8>, Vec<String>), ExecutionError> {
    Processor::new(None, Configuration::default()).process_document(input, backend)
}

#[test]
fn basic_include() {
    let backend = oracle(vec![("https://ex.com/a", respond(200, "HELLO"))]);
    let (out, log) = run("<p><esi:include src=\"https://ex.com/a\"/></p>", &backend).unwrap();
    assert_eq!(out, b"<p>HELLO</p>");
    assert_eq!(log, vec!["https://ex.com/a"]);
}

#[test]
fn order_preserved_across_parallel_fragments() {
    // The oracle fixes every response before polling starts, so the slow
    // first backend cannot be overtaken by the fast second one.
    let backend = oracle(vec![
        ("https://fast.example/b", respond(200, "B")),
        ("https://slow.example/a", respond(200, "A")),
    ]);
    let input = "<esi:include src=\"https://slow.example/a\"/><esi:include src=\"https://fast.example/b\"/>";
    let (out, log) = run(input, &backend).unwrap();
    assert_eq!(out, b"AB");
    assert_eq!(log, vec!["https://slow.example/a", "https://fast.example/b"]);
}

#[test]
fn alt_fallback_dispatches_each_url_once() {
    let backend = oracle(vec![
        ("https://ex.com/x", respond(500, "NO")),
        ("https://ex.com/y", respond(200, "OK")),
    ]);
    let input = "<esi:include src=\"https://ex.com/x\" alt=\"https://ex.com/y\"/>";
    let (out, log) = run(input, &backend).unwrap();
    assert_eq!(out, b"OK");
    assert_eq!(log, vec!["https://ex.com/x", "https://ex.com/y"]);
    assert_eq!(log.iter().filter(|u| u.as_str() == "https://ex.com/x").count(), 1);
    assert_eq!(log.iter().filter(|u| u.as_str() == "https://ex.com/y").count(), 1);
}

#[test]
fn continue_on_error_produces_empty_output() {
    let backend = oracle(vec![("https://ex.com/f", respond(500, "NO"))]);
    let input = "<p>X</p><esi:include src=\"https://ex.com/f\" onerror=\"continue\"/>";
    let (out, _) = run(input, &backend).unwrap();
    assert_eq!(out, b"<p>X</p>");
}

#[test]
fn try_succeeds_on_except_branch() {
    let backend = oracle(vec![
        ("http://localhost/f", respond(500, "NOPE")),
        ("http://localhost/g", respond(200, "FALLBACK")),
    ]);
    let input = "<esi:try><esi:attempt><esi:include src=\"/f\"/></esi:attempt><esi:except><esi:include src=\"/g\"/></esi:except></esi:try>";
    let (out, _) = run(input, &backend).unwrap();
    assert_eq!(out, b"FALLBACK");
}

#[test]
fn try_attempt_success_discards_except() {
    let backend = oracle(vec![
        ("http://localhost/f", respond(200, "MAIN")),
        ("http://localhost/g", respond(200, "FALLBACK")),
    ]);
    let input = "<esi:try><esi:attempt><esi:include src=\"/f\"/></esi:attempt><esi:except><esi:include src=\"/g\"/></esi:except></esi:try>";
    let (out, _) = run(input, &backend).unwrap();
    assert_eq!(out, b"MAIN");
}

#[test]
fn try_both_branches_fail() {
    let backend = oracle(vec![
        ("http://localhost/f", respond(500, "NO")),
        ("http://localhost/g", respond(503, "NO")),
    ]);
    let input = "<esi:try><esi:attempt><esi:include src=\"/f\"/></esi:attempt><esi:except><esi:include src=\"/g\"/></esi:except></esi:try>";
    match run(input, &backend) {
        Err(ExecutionError::UnexpectedStatus(url, status)) => {
            assert_eq!(url, "http://localhost/f");
            assert_eq!(status, 500);
        },
        other => panic!("expected the attempt's failure, got {other:?}"),
    }
}

#[test]
fn comment_and_remove_are_dropped() {
    let backend = oracle(vec![]);
    let input = "A<esi:comment text=\"x\"/>B<esi:remove>C</esi:remove>D";
    let (out, log) = run(input, &backend).unwrap();
    assert_eq!(out, b"ABD");
    assert!(log.is_empty());
}

#[test]
fn passthrough_document_is_unchanged() {
    let backend = oracle(vec![]);
    let input = "<html><head><title>t</title></head><body><p a=\"1\">x &lt; y</p></body></html>";
    let (out, log) = run(input, &backend).unwrap();
    assert_eq!(out, input.as_bytes());
    assert!(log.is_empty());
}

#[test]
fn unexpected_status_without_fallback_is_fatal() {
    let backend = oracle(vec![("https://ex.com/f", respond(404, "NO"))]);
    match run("<esi:include src=\"https://ex.com/f\"/>", &backend) {
        Err(ExecutionError::UnexpectedStatus(url, status)) => {
            assert_eq!(url, "https://ex.com/f");
            assert_eq!(status, 404);
        },
        other => panic!("expected an unexpected-status error, got {other:?}"),
    }
}

#[test]
fn missing_backend_is_a_request_error() {
    let backend = oracle(vec![]);
    assert!(matches!(
        run("<esi:include src=\"https://ex.com/f\"/>", &backend),
        Err(ExecutionError::RequestError(_))
    ));
}

#[test]
fn transport_failure_is_a_request_error() {
    let backend = oracle(vec![(
        "https://ex.com/f",
        DispatchOutcome::Transport("connection reset".to_string()),
    )]);
    match run("<esi:include src=\"https://ex.com/f\"/>", &backend) {
        Err(ExecutionError::RequestError(m)) => assert_eq!(m, "connection reset"),
        other => panic!("expected a request error, got {other:?}"),
    }
}

#[test]
fn skipped_dispatch_drops_the_fragment() {
    let backend = oracle(vec![("https://ex.com/f", DispatchOutcome::Skip)]);
    let (out, log) = run("A<esi:include src=\"https://ex.com/f\"/>B", &backend).unwrap();
    assert_eq!(out, b"AB");
    assert_eq!(log, vec!["https://ex.com/f"]);
}

#[test]
fn invalid_url_is_rejected() {
    let backend = oracle(vec![]);
    assert!(matches!(
        run("<esi:include src=\"not a url\"/>", &backend),
        Err(ExecutionError::InvalidRequestUrl(_))
    ));
}

#[test]
fn redirect_status_counts_as_success() {
    let backend = oracle(vec![("https://ex.com/r", respond(302, "MOVED"))]);
    let (out, _) = run("<esi:include src=\"https://ex.com/r\"/>", &backend).unwrap();
    assert_eq!(out, b"MOVED");
}

#[test]
fn url_entities_are_unescaped_before_dispatch() {
    // the unescaping really transforms the attribute value
    let backend = oracle(vec![("http://localhost/a?x=1&y=2", respond(200, "Z"))]);
    let (out, log) = run("<esi:include src=\"/a?x=1&amp;y=2\"/>", &backend).unwrap();
    assert_eq!(out, b"Z");
    assert_eq!(log, vec!["http://localhost/a?x=1&y=2"]);
}

#[test]
fn unescaping_can_be_disabled() {
    let backend = oracle(vec![("http://localhost/a?x=1&amp;y=2", respond(200, "Z"))]);
    let config = Configuration::default().with_escaped(false);
    let (_, log) = Processor::new(None, config)
        .process_document("<esi:include src=\"/a?x=1&amp;y=2\"/>", &backend)
        .unwrap();
    assert_eq!(log, vec!["http://localhost/a?x=1&amp;y=2"]);
}

#[test]
fn bad_entity_in_url_is_invalid() {
    let backend = oracle(vec![]);
    assert!(matches!(
        run("<esi:include src=\"/a&bogus;\"/>", &backend),
        Err(ExecutionError::InvalidRequestUrl(_))
    ));
}

#[test]
fn urls_are_normalised_by_parsing() {
    // the URL parser really runs: scheme and host fold to lower case
    let backend = oracle(vec![("https://ex.com/p", respond(200, "N"))]);
    let (out, log) = run("<esi:include src=\"HTTPS://EX.com/p\"/>", &backend).unwrap();
    assert_eq!(out, b"N");
    assert_eq!(log, vec!["https://ex.com/p"]);
}

#[test]
fn custom_namespace_matches_only_its_own_tags() {
    let backend = oracle(vec![("https://ex.com/a", respond(200, "Y"))]);
    let config = Configuration::default().with_namespace("app");
    let input = "<app:include src=\"https://ex.com/a\"/><esi:include src=\"https://ex.com/a\"/>";
    let (out, log) = Processor::new(None, config).process_document(input, &backend).unwrap();
    assert_eq!(out, b"Y<esi:include src=\"https://ex.com/a\"/>");
    assert_eq!(log, vec!["https://ex.com/a"]);
}

#[test]
fn template_request_supplies_scheme_and_host_for_relative_urls() {
    let template = HttpRequest::get(UrlParts {
        scheme: "https".to_string(),
        host: "origin.example".to_string(),
        port: Some(8443),
        path: "/page".to_string(),
        query: Some("v=1".to_string()),
    });
    let backend = oracle(vec![("https://origin.example:8443/frag?k=2", respond(200, "F"))]);
    let (out, log) = Processor::new(Some(template), Configuration::default())
        .process_document("<esi:include src=\"/frag?k=2\"/>", &backend)
        .unwrap();
    assert_eq!(out, b"F");
    assert_eq!(log, vec!["https://origin.example:8443/frag?k=2"]);
}

#[test]
fn query_string_expression_with_default() {
    let mut ctx = RequestContext {
        method: "GET".to_string(),
        path: "/p".to_string(),
        host: "example.com".to_string(),
        query: Some("foo=bar".to_string()),
        headers: Vec::new(),
        client_ip: None,
        device_name: None,
    };
    assert_eq!(process_symbols(&ctx, "$(QUERY_STRING{foo}|default)"), "bar");
    ctx.query = None;
    assert_eq!(process_symbols(&ctx, "$(QUERY_STRING{foo}|default)"), "default");
}

#[test]
fn expression_literals_and_unknown_functions() {
    let ctx = RequestContext {
        method: "POST".to_string(),
        path: "/x".to_string(),
        host: "h".to_string(),
        query: None,
        headers: vec![("host".to_string(), "h.example".to_string())],
        client_ip: None,
        device_name: None,
    };
    assert_eq!(process_symbols(&ctx, "$dollar()"), "$");
    assert_eq!(process_symbols(&ctx, "$nosuch(a)"), "unknown_function");
    assert_eq!(process_symbols(&ctx, "$(REQUEST_METHOD)"), "POST");
    assert_eq!(process_symbols(&ctx, "$(REQUEST_PATH)"), "/x");
    assert_eq!(process_symbols(&ctx, "$(HTTP_HOST)"), "h.example");
    assert_eq!(process_symbols(&ctx, "$(NO_SUCH_VAR{k})"), "$(NO_SUCH_VAR{k})");
}

#[test]
fn rand_expression_draws_below_the_bound() {
    let ctx = RequestContext {
        method: "GET".to_string(),
        path: "/".to_string(),
        host: "h".to_string(),
        query: None,
        headers: Vec::new(),
        client_ip: None,
        device_name: None,
    };
    // with bound one the only possible draw is zero
    assert_eq!(process_symbols(&ctx, "$rand(1)"), "0");
}

#[test]
fn user_agent_browser_uses_device_lookup() {
    let ctx = RequestContext {
        method: "GET".to_string(),
        path: "/".to_string(),
        host: "h".to_string(),
        query: None,
        headers: vec![("user-agent".to_string(), "agent/1.0".to_string())],
        client_ip: None,
        device_name: Some("Mobile".to_string()),
    };
    assert_eq!(process_symbols(&ctx, "$(HTTP_USER_AGENT{browser})"), "Mobile");
    assert_eq!(process_symbols(&ctx, "$(HTTP_USER_AGENT)"), "agent/1.0");
    let mut no_device = ctx.clone();
    no_device.device_name = None;
    assert_eq!(process_symbols(&no_device, "$(HTTP_USER_AGENT{browser})"), "OTHER");
}

#[test]
fn empty_document_gives_empty_output() {
    let backend = oracle(vec![]);
    let (out, log) = run("", &backend).unwrap();
    assert!(out.is_empty());
    assert!(log.is_empty());
}

#[test]
fn duplicate_query_keys_resolve_to_the_first() {
    let ctx = RequestContext {
        method: "GET".to_string(),
        path: "/p".to_string(),
        host: "example.com".to_string(),
        query: Some("k=first&k=second".to_string()),
        headers: Vec::new(),
        client_ip: None,
        device_name: None,
    };
    assert_eq!(process_symbols(&ctx, "$(QUERY_STRING{k})"), "first");
}

#[test]
fn duplicate_backend_entries_resolve_to_the_first() {
    let backend = oracle(vec![
        ("https://ex.com/a", respond(200, "FIRST")),
        ("https://ex.com/a", respond(200, "SECOND")),
    ]);
    let (out, _) = run("<esi:include src=\"https://ex.com/a\"/>", &backend).unwrap();
    assert_eq!(out, b"FIRST");
}

#[test]
fn attempt_success_leaves_except_unpolled() {
    // The except arm's include has no backend entry and names an alt:
    // awaiting it would be a transport failure, and falling back would
    // dispatch the alt. A successful attempt discards the arm unpolled,
    // so neither happens.
    let backend = oracle(vec![("http://localhost/f", respond(200, "MAIN"))]);
    let input = "<esi:try><esi:attempt><esi:include src=\"/f\"/></esi:attempt><esi:except><esi:include src=\"/g\" alt=\"/h\"/></esi:except></esi:try>";
    let (out, log) = run(input, &backend).unwrap();
    assert_eq!(out, b"MAIN");
    assert_eq!(log, vec!["http://localhost/f", "http://localhost/g"]);
    assert!(!log.contains(&"http://localhost/h".to_string()));
}
