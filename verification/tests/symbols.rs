use esi::strings::str_chars;
use esi::symbols::{
    parse_fn_name, parse_function, parse_symbol, parse_text, parse_variable, tokenize_symbols,
    resolve_var, var_http_cookie,
};
use esi::{RequestContext, Symbol};

fn plain_context() -> RequestContext {
    RequestContext {
        method: "GET".to_string(),
        path: "/".to_string(),
        host: "example.com".to_string(),
        query: None,
        headers: Vec::new(),
        client_ip: None,
        device_name: None,
    }
}

#[test]
fn test_parse_text() {
    let input = str_chars("some text without functions");
    let expected = "some text without functions";
    let (parsed, end) = parse_text(&input, 0);
    assert_eq!(parsed, expected);
    assert_eq!(end, input.len());
}

#[test]
fn test_parse_fn_name() {
    let input = str_chars("$func_name");
    let (parsed, end) = parse_fn_name(&input, 0).unwrap();
    assert_eq!(parsed, "func_name");
    assert_eq!(end, input.len());
}

#[test]
fn test_parse_function() {
    let input = str_chars("$func1(arg1, $func2(arg2a, arg2b), arg3)");
    let expected = Symbol::Function {
        name: "func1".to_string(),
        args: vec![
            Symbol::Text(Some("arg1".to_string())),
            Symbol::Function {
                name: "func2".to_string(),
                args: vec![
                    Symbol::Text(Some("arg2a".to_string())),
                    Symbol::Text(Some("arg2b".to_string())),
                ],
            },
            Symbol::Text(Some("arg3".to_string())),
        ],
    };
    let (parsed, end) = parse_function(&input, 0).unwrap();
    assert_eq!(format!("{parsed:?}"), format!("{expected:?}"));
    assert_eq!(end, input.len());
}

#[test]
fn test_parse_esi_object_simple_text() {
    let input = str_chars("simple_text");
    let expected = Symbol::Text(Some("simple_text".to_string()));
    let (parsed, end) = parse_symbol(&input, 0);
    assert_eq!(format!("{parsed:?}"), format!("{expected:?}"));
    assert_eq!(end, input.len());
}

#[test]
fn test_parse_esi_object_with_function() {
    let input = str_chars("$func(inner_arg)");
    let expected = Symbol::Function {
        name: "func".to_string(),
        args: vec![Symbol::Text(Some("inner_arg".to_string()))],
    };
    let (parsed, end) = parse_symbol(&input, 0);
    assert_eq!(format!("{parsed:?}"), format!("{expected:?}"));
    assert_eq!(end, input.len());
}

#[test]
fn test_parse_fn_argument_with_nested_function() {
    let input = str_chars("$func(arg1, $func2(inner_arg2))");
    let expected = Symbol::Function {
        name: "func".to_string(),
        args: vec![
            Symbol::Text(Some("arg1".to_string())),
            Symbol::Function {
                name: "func2".to_string(),
                args: vec![Symbol::Text(Some("inner_arg2".to_string()))],
            },
        ],
    };
    let (parsed, end) = parse_symbol(&input, 0);
    assert_eq!(format!("{parsed:?}"), format!("{expected:?}"));
    assert_eq!(end, input.len());
}

#[test]
fn test_parse_function_with_empty_arguments() {
    let input = str_chars("$func()");
    let expected = Symbol::Function { name: "func".to_string(), args: vec![] };
    let (parsed, end) = parse_function(&input, 0).unwrap();
    assert_eq!(format!("{parsed:?}"), format!("{expected:?}"));
    assert_eq!(end, input.len());
}

#[test]
fn test_parse_variable_valid() {
    let input = str_chars("$(QUERY_STRING)");
    let expected = Symbol::Variable {
        name: "QUERY_STRING".to_string(),
        key: None,
        default: None,
    };
    let (parsed, end) = parse_variable(&input, 0).unwrap();
    assert_eq!(format!("{parsed:?}"), format!("{expected:?}"));
    assert_eq!(end, input.len());
}

#[test]
fn test_parse_variable_with_key() {
    let input = str_chars("$(QUERY_STRING{first})");
    let expected = Symbol::Variable {
        name: "QUERY_STRING".to_string(),
        key: Some("first".to_string()),
        default: None,
    };
    let (parsed, end) = parse_variable(&input, 0).unwrap();
    assert_eq!(format!("{parsed:?}"), format!("{expected:?}"));
    assert_eq!(end, input.len());
}

#[test]
fn test_parse_variable_with_quoted_key() {
    let input = str_chars("$(QUERY_STRING{'first'})");
    let expected = Symbol::Variable {
        name: "QUERY_STRING".to_string(),
        key: Some("first".to_string()),
        default: None,
    };
    let (parsed, end) = parse_variable(&input, 0).unwrap();
    assert_eq!(format!("{parsed:?}"), format!("{expected:?}"));
    assert_eq!(end, input.len());
}

#[test]
fn test_parse_variable_with_double_quoted_key() {
    let input = str_chars("$(QUERY_STRING{\"first\"})");
    let result = parse_variable(&input, 0);
    assert!(result.is_none());
}

#[test]
fn test_parse_variable_invalid_no_parentheses() {
    let input = str_chars("$QUERY_STRING");
    let result = parse_variable(&input, 0);
    assert!(result.is_none());
}

#[test]
fn test_parse_variable_invalid_no_dollar() {
    let input = str_chars("(QUERY_STRING)");
    let result = parse_variable(&input, 0);
    assert!(result.is_none());
}

#[test]
fn test_parse_variable_invalid_lowercase() {
    let input = str_chars("$(query_string)");
    let result = parse_variable(&input, 0);
    assert!(result.is_none());
}

#[test]
fn test_parse_variable_with_underscore() {
    let input = str_chars("$(QUERY_STRING_WITH_UNDERSCORE)");
    let expected = Symbol::Variable {
        name: "QUERY_STRING_WITH_UNDERSCORE".to_string(),
        key: None,
        default: None,
    };
    let (parsed, end) = parse_variable(&input, 0).unwrap();
    assert_eq!(format!("{parsed:?}"), format!("{expected:?}"));
    assert_eq!(end, input.len());
}

#[test]
fn test_parse_variable_with_underscore_in_key() {
    let input = str_chars("$(QUERY_STRING{first_name})");
    let expected = Symbol::Variable {
        name: "QUERY_STRING".to_string(),
        key: Some("first_name".to_string()),
        default: None,
    };
    let (parsed, end) = parse_variable(&input, 0).unwrap();
    assert_eq!(format!("{parsed:?}"), format!("{expected:?}"));
    assert_eq!(end, input.len());
}

#[test]
fn test_parse_mixed_content() {
    let input = "Text before $func1(arg1) and $(QUERY_STRING{key}) after.";
    let expected = vec![
        Symbol::Text(Some("Text before ".to_string())),
        Symbol::Function {
            name: "func1".to_string(),
            args: vec![Symbol::Text(Some("arg1".to_string()))],
        },
        Symbol::Text(Some(" and ".to_string())),
        Symbol::Variable {
            name: "QUERY_STRING".to_string(),
            key: Some("key".to_string()),
            default: None,
        },
        Symbol::Text(Some(" after.".to_string())),
    ];
    let (remaining, parsed) = tokenize_symbols(input);
    assert_eq!(format!("{parsed:?}"), format!("{expected:?}"));
    assert_eq!(remaining, "");
}

#[test]
fn test_tokenize_symbols_nested_functions() {
    let input = "Here is some text $func1( arg1, $func2(arg2a, arg2b ), arg3) and more text.";
    let expected = vec![
        Symbol::Text(Some("Here is some text ".to_string())),
        Symbol::Function {
            name: "func1".to_string(),
            args: vec![
                Symbol::Text(Some("arg1".to_string())),
                Symbol::Function {
                    name: "func2".to_string(),
                    args: vec![
                        Symbol::Text(Some("arg2a".to_string())),
                        Symbol::Text(Some("arg2b".to_string())),
                    ],
                },
                Symbol::Text(Some("arg3".to_string())),
            ],
        },
        Symbol::Text(Some(" and more text.".to_string())),
    ];
    let (remaining, parsed) = tokenize_symbols(input);
    assert_eq!(format!("{parsed:?}"), format!("{expected:?}"));
    assert_eq!(remaining, "");
}

#[test]
fn test_parse_empty_input() {
    let input = "";
    let expected: Vec<Symbol> = vec![];
    let (remaining, parsed) = tokenize_symbols(input);
    assert_eq!(format!("{parsed:?}"), format!("{expected:?}"));
    assert_eq!(remaining, "");
}

#[test]
fn test_parse_only_text() {
    let input = "Just some plain text.";
    let expected = vec![Symbol::Text(Some("Just some plain text.".to_string()))];
    let (remaining, parsed) = tokenize_symbols(input);
    assert_eq!(format!("{parsed:?}"), format!("{expected:?}"));
    assert_eq!(remaining, "");
}

#[test]
fn test_parse_only_function() {
    let input = "$func1( arg1, arg2 )";
    let expected = vec![Symbol::Function {
        name: "func1".to_string(),
        args: vec![
            Symbol::Text(Some("arg1".to_string())),
            Symbol::Text(Some("arg2".to_string())),
        ],
    }];
    let (remaining, parsed) = tokenize_symbols(input);
    assert_eq!(format!("{parsed:?}"), format!("{expected:?}"));
    assert_eq!(remaining, "");
}

#[test]
fn test_tokenize_symbols_single_nested_functions() {
    let input = "$outer($inner1(arg1), $inner2(arg2))";
    let expected = vec![Symbol::Function {
        name: "outer".to_string(),
        args: vec![
            Symbol::Function {
                name: "inner1".to_string(),
                args: vec![Symbol::Text(Some("arg1".to_string()))],
            },
            Symbol::Function {
                name: "inner2".to_string(),
                args: vec![Symbol::Text(Some("arg2".to_string()))],
            },
        ],
    }];
    let (remaining, parsed) = tokenize_symbols(input);
    assert_eq!(format!("{parsed:?}"), format!("{expected:?}"));
    assert_eq!(remaining, "");
}

#[test]
fn test_parse_text_with_function_in_middle() {
    let input = "Start $func1(arg1) end";
    let expected = vec![
        Symbol::Text(Some("Start ".to_string())),
        Symbol::Function {
            name: "func1".to_string(),
            args: vec![Symbol::Text(Some("arg1".to_string()))],
        },
        Symbol::Text(Some(" end".to_string())),
    ];
    let (remaining, parsed) = tokenize_symbols(input);
    assert_eq!(format!("{parsed:?}"), format!("{expected:?}"));
    assert_eq!(remaining, "");
}

#[test]
fn test_parse_multiple_functions() {
    let input = "$func1(arg1) $func2(arg2)";
    let expected = vec![
        Symbol::Function {
            name: "func1".to_string(),
            args: vec![Symbol::Text(Some("arg1".to_string()))],
        },
        Symbol::Text(Some(" ".to_string())),
        Symbol::Function {
            name: "func2".to_string(),
            args: vec![Symbol::Text(Some("arg2".to_string()))],
        },
    ];
    let (remaining, parsed) = tokenize_symbols(input);
    assert_eq!(format!("{parsed:?}"), format!("{expected:?}"));
    assert_eq!(remaining, "");
}

#[test]
fn test_parse_function_with_no_args() {
    let input = "$func1()";
    let expected = vec![Symbol::Function { name: "func1".to_string(), args: vec![] }];
    let (remaining, parsed) = tokenize_symbols(input);
    assert_eq!(format!("{parsed:?}"), format!("{expected:?}"));
    assert_eq!(remaining, "");
}

#[test]
fn test_parse_text_with_special_characters() {
    let input = "Text with special characters '!@#$%^&*()'";
    let expected = vec![
        Symbol::Text(Some("Text with special characters ".to_string())),
        Symbol::Text(Some("!@#$%^&*()".to_string())),
    ];
    let (remaining, parsed) = tokenize_symbols(input);
    assert_eq!(format!("{parsed:?}"), format!("{expected:?}"));
    assert_eq!(remaining, "");
}

#[test]
fn test_parse_variable_with_default_literal() {
    let input = str_chars("$(QUERY_STRING|default_value)");
    let expected = Symbol::Variable {
        name: "QUERY_STRING".to_string(),
        key: None,
        default: Some(Box::new(Symbol::Text(Some("default_value".to_string())))),
    };
    let (parsed, end) = parse_variable(&input, 0).unwrap();
    assert_eq!(format!("{parsed:?}"), format!("{expected:?}"));
    assert_eq!(end, input.len());
}

#[test]
fn test_parse_variable_with_default_function() {
    let input = str_chars("$(QUERY_STRING|$func1(arg1))");
    let expected = Symbol::Variable {
        name: "QUERY_STRING".to_string(),
        key: None,
        default: Some(Box::new(Symbol::Function {
            name: "func1".to_string(),
            args: vec![Symbol::Text(Some("arg1".to_string()))],
        })),
    };
    let (parsed, end) = parse_variable(&input, 0).unwrap();
    assert_eq!(format!("{parsed:?}"), format!("{expected:?}"));
    assert_eq!(end, input.len());
}

#[test]
fn test_parse_variable_with_default_variable() {
    let input = str_chars("$(QUERY_STRING|$(OTHER_VAR))");
    let expected = Symbol::Variable {
        name: "QUERY_STRING".to_string(),
        key: None,
        default: Some(Box::new(Symbol::Variable {
            name: "OTHER_VAR".to_string(),
            key: None,
            default: None,
        })),
    };
    let (parsed, end) = parse_variable(&input, 0).unwrap();
    assert_eq!(format!("{parsed:?}"), format!("{expected:?}"));
    assert_eq!(end, input.len());
}

#[test]
fn test_parse_variable_with_key_and_default_literal() {
    let input = str_chars("$(QUERY_STRING{key}|default_value)");
    let expected = Symbol::Variable {
        name: "QUERY_STRING".to_string(),
        key: Some("key".to_string()),
        default: Some(Box::new(Symbol::Text(Some("default_value".to_string())))),
    };
    let (parsed, end) = parse_variable(&input, 0).unwrap();
    assert_eq!(format!("{parsed:?}"), format!("{expected:?}"));
    assert_eq!(end, input.len());
}

#[test]
fn test_parse_variable_with_key_and_default_function() {
    let input = str_chars("$(QUERY_STRING{key}|$func1(arg1))");
    let expected = Symbol::Variable {
        name: "QUERY_STRING".to_string(),
        key: Some("key".to_string()),
        default: Some(Box::new(Symbol::Function {
            name: "func1".to_string(),
            args: vec![Symbol::Text(Some("arg1".to_string()))],
        })),
    };
    let (parsed, end) = parse_variable(&input, 0).unwrap();
    assert_eq!(format!("{parsed:?}"), format!("{expected:?}"));
    assert_eq!(end, input.len());
}

#[test]
fn test_parse_variable_with_key_and_default_variable() {
    let input = str_chars("$(QUERY_STRING{key}|$(OTHER_VAR))");
    let expected = Symbol::Variable {
        name: "QUERY_STRING".to_string(),
        key: Some("key".to_string()),
        default: Some(Box::new(Symbol::Variable {
            name: "OTHER_VAR".to_string(),
            key: None,
            default: None,
        })),
    };
    let (parsed, end) = parse_variable(&input, 0).unwrap();
    assert_eq!(format!("{parsed:?}"), format!("{expected:?}"));
    assert_eq!(end, input.len());
}

#[test]
fn test_resolve_var_query_string() {
    let mut ctx = plain_context();
    ctx.query = Some("key1=value1&key2=value2".to_string());
    let result = resolve_var(&ctx, &"QUERY_STRING".to_string(), &None, &None);
    assert_eq!(result.to_qs(), "key1=value1&key2=value2");
}

#[test]
fn test_resolve_var_query_string_with_key() {
    let mut ctx = plain_context();
    ctx.query = Some("key1=value1&key2=value2".to_string());
    let result = resolve_var(&ctx, &"QUERY_STRING".to_string(), &Some("key1".to_string()), &None);
    assert_eq!(result.to_qs(), "value1");
}

#[test]
fn test_resolve_var_query_string_with_nonexistent_key() {
    let mut ctx = plain_context();
    ctx.query = Some("key1=value1&key2=value2".to_string());
    let result = resolve_var(
        &ctx,
        &"QUERY_STRING".to_string(),
        &Some("nonexistent".to_string()),
        &None,
    );
    assert_eq!(result.to_qs(), "");
}

#[test]
fn test_resolve_var_remote_addr() {
    let mut ctx = plain_context();
    ctx.client_ip = Some("203.0.113.9".to_string());
    let result = resolve_var(&ctx, &"REMOTE_ADDR".to_string(), &None, &None);
    assert_eq!(result.as_str(), "203.0.113.9");
}

#[test]
fn test_var_http_cookie_no_cookies() {
    let ctx = plain_context();
    let result = var_http_cookie(&ctx, &None, &None);
    assert_eq!(result.to_cookie(), "");
}

#[test]
fn test_var_http_cookie_single_cookie() {
    let mut ctx = plain_context();
    ctx.headers = vec![("cookie".to_string(), "session=abc123".to_string())];
    let result = var_http_cookie(&ctx, &None, &None);
    assert_eq!(result.to_cookie(), "session=abc123");
}

#[test]
fn test_var_http_cookie_multiple_cookies() {
    let mut ctx = plain_context();
    ctx.headers = vec![(
        "cookie".to_string(),
        "session=abc123; user=john; theme=dark".to_string(),
    )];
    let result = var_http_cookie(&ctx, &None, &None);
    assert_eq!(result.to_cookie(), "session=abc123; user=john; theme=dark");
}

#[test]
fn test_var_http_cookie_with_key() {
    let mut ctx = plain_context();
    ctx.headers = vec![("cookie".to_string(), "session=abc123; user=john".to_string())];
    let result = var_http_cookie(&ctx, &Some("user".to_string()), &None);
    assert_eq!(result.to_cookie(), "john");
}

#[test]
fn test_var_http_cookie_with_nonexistent_key() {
    let mut ctx = plain_context();
    ctx.headers = vec![("cookie".to_string(), "session=abc123".to_string())];
    let result = var_http_cookie(&ctx, &Some("nonexistent".to_string()), &None);
    assert_eq!(result.to_cookie(), "");
}

#[test]
fn test_var_http_cookie_with_default() {
    let ctx = plain_context();
    let default = Some(Box::new(Symbol::Text(Some("default_cookie".to_string()))));
    let result = var_http_cookie(&ctx, &Some("nonexistent".to_string()), &default);
    assert_eq!(result.to_cookie(), "default_cookie");
}
