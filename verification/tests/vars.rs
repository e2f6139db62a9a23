use esi::strings::str_chars;
use esi::vars::{esi_function_name, esi_variable_name, lookup_variable, parse_vars, resolve_vars};
use esi::RequestContext;

fn context_for(host: &str, query: Option<&str>) -> RequestContext {
    RequestContext {
        method: "GET".to_string(),
        path: "/".to_string(),
        host: host.to_string(),
        query: query.map(|q| q.to_string()),
        headers: Vec::new(),
        client_ip: None,
        device_name: None,
    }
}

#[test]
fn test_esi_variable_name() {
    let input = str_chars("HTTP_HOST");
    let (name, end) = esi_variable_name(&input, 0).unwrap();
    assert_eq!(name, "HTTP_HOST");
    assert_eq!(end, input.len());
}

#[test]
fn test_esi_function_name() {
    let input = str_chars("random_function");
    let (name, end) = esi_function_name(&input, 0).unwrap();
    assert_eq!(name, "random_function");
    assert_eq!(end, input.len());
}

#[test]
fn test_parse_vars() {
    let req = context_for("localhost", None);

    let input = "http://$(HTTP_HOST)/$(path)/file";
    let result = parse_vars(input, &req);
    assert_eq!(result, Some("http://localhost/$(path)/file".to_string()));

    let input = "http://$(nothing)/$(path)/file";
    let result = parse_vars(input, &req);
    assert_eq!(result, Some("http://$(nothing)/$(path)/file".to_string()));

    let input = "Price of this item is \\$item(q) 100.00";
    let result = parse_vars(input, &req);
    println!("{:?}", result);
}

#[test]
fn test_lookup_variable() {
    let req = context_for("localhost", Some("foo=bar"));

    let var_name = "QUERY_STRING".to_string();
    let result = lookup_variable(&var_name, &req);
    println!("{:?}", result);
    assert_eq!(result, "foo=bar".to_string());

    let var_name = "unknown_function".to_string();
    let result = lookup_variable(&var_name, &req);
    println!("{:?}", result);
    assert_eq!(result, "$(unknown_function)".to_string())
}

#[test]
fn test_resolve_vars() {
    let req = context_for("localhost", None);
    let input = "http://$(HTTP_HOST)/$(path)/file";
    let result = resolve_vars(input, &req);
    println!("result 1 = {:?}", result);

    let input = r#"http://localhost\/path/file"#;
    let result = resolve_vars(input, &req);
    println!("result 2 = {:?}", result);

    let input = "the price is \\$100.00";
    let result = resolve_vars(input, &req);
    println!("result 3 = {:?}", result);

    let input = "http://localhost/$path/file";
    let result = resolve_vars(input, &req);
    println!("result 4 = {:?}", result);
}

#[test]
fn resolved_host_round_trip() {
    let req = context_for("origin.example", None);
    let result = resolve_vars("http://$(HTTP_HOST)/file", &req).unwrap();
    assert_eq!(result, "http://origin.example/file");
}

#[test]
fn malformed_reference_is_returned_unchanged() {
    let req = context_for("localhost", None);
    let result = resolve_vars("price $100", &req).unwrap();
    assert_eq!(result, "price $100");
}
