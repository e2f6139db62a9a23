use esi::{join, string_split, EValue};

#[test]
fn test_string_split_basic() {
    let input = vec![EValue::Str("hello world".to_string())];
    if let EValue::List(result) = string_split(&input) {
        assert_eq!(result, vec!["hello", "world"]);
    } else {
        panic!("Expected ListString variant");
    }
}

#[test]
fn test_string_split_custom_separator() {
    let input = vec![EValue::Str("a,b,c".to_string()), EValue::Str(",".to_string())];
    if let EValue::List(result) = string_split(&input) {
        assert_eq!(result, vec!["a", "b", "c"]);
    } else {
        panic!("Expected ListString variant");
    }
}

#[test]
fn test_string_split_with_limit() {
    let input = vec![
        EValue::Str("a:b:c:d".to_string()),
        EValue::Str(":".to_string()),
        EValue::Str("2".to_string()),
    ];
    if let EValue::List(result) = string_split(&input) {
        assert_eq!(result, vec!["a", "b:c:d"]);
    } else {
        panic!("Expected ListString variant");
    }
}

#[test]
fn test_string_split_empty_input() {
    let input = vec![EValue::Str("".to_string())];
    if let EValue::List(result) = string_split(&input) {
        assert_eq!(result, vec![""]);
    } else {
        panic!("Expected ListString variant");
    }
}

#[test]
fn test_string_split_no_separator_found() {
    let input = vec![EValue::Str("hello".to_string()), EValue::Str(",".to_string())];
    if let EValue::List(result) = string_split(&input) {
        assert_eq!(result, vec!["hello"]);
    } else {
        panic!("Expected ListString variant");
    }
}

#[test]
fn test_join_empty_list() {
    let args = vec![];
    let result = join(&args);
    assert_eq!(result.as_str(), "");
}

#[test]
fn test_join_single_element() {
    let args = vec![EValue::Str("hello".to_string())];
    let result = join(&args);
    assert_eq!(result.as_str(), "hello");
}

#[test]
fn test_join_with_custom_separator() {
    let args = vec![
        EValue::List(vec!["a".to_string(), "b".to_string(), "c".to_string()]),
        EValue::Str("|".to_string()),
    ];
    let result = join(&args);
    assert_eq!(result.as_str(), "a|b|c");
}

#[test]
fn test_join_with_empty_separator() {
    let args = vec![
        EValue::List(vec!["hello".to_string(), "world".to_string()]),
        EValue::Str("".to_string()),
    ];
    let result = join(&args);
    assert_eq!(result.as_str(), "helloworld");
}

#[test]
fn split_then_join_round_trip() {
    // $string_split('a:b:c', ':', 2) then $join(…, ',') gives a,b:c
    let split_args = vec![
        EValue::Str("a:b:c".to_string()),
        EValue::Str(":".to_string()),
        EValue::Str("2".to_string()),
    ];
    let list = string_split(&split_args);
    let join_args = vec![list, EValue::Str(",".to_string())];
    let result = join(&join_args);
    assert_eq!(result.as_str(), "a,b:c");
}

#[test]
fn split_default_separator_is_space() {
    let input = vec![EValue::Str("a b  c".to_string())];
    if let EValue::List(result) = string_split(&input) {
        assert_eq!(result, vec!["a", "b", "", "c"]);
    } else {
        panic!("Expected ListString variant");
    }
}

#[test]
fn split_empty_separator_matches_boundaries() {
    let input = vec![EValue::Str("ab".to_string()), EValue::Str("".to_string())];
    if let EValue::List(result) = string_split(&input) {
        assert_eq!(result, vec!["", "a", "b", ""]);
    } else {
        panic!("Expected ListString variant");
    }
}

#[test]
fn split_limit_zero_gives_no_pieces() {
    let input = vec![
        EValue::Str("a:b".to_string()),
        EValue::Str(":".to_string()),
        EValue::Str("0".to_string()),
    ];
    if let EValue::List(result) = string_split(&input) {
        assert_eq!(result, Vec::<String>::new());
    } else {
        panic!("Expected ListString variant");
    }
}

#[test]
fn join_of_non_list_passes_string_through() {
    let args = vec![EValue::Str("plain".to_string()), EValue::Str("|".to_string())];
    let result = join(&args);
    assert_eq!(result.as_str(), "plain");
}

#[test]
fn formatted_dict_renders_for_cookies_and_queries() {
    let v = EValue::Dict(vec![
        ("a".to_string(), "1".to_string()),
        ("b".to_string(), "2".to_string()),
    ]);
    assert_eq!(v.to_cookie(), "a=1; b=2");
    assert_eq!(v.to_qs(), "a=1&b=2");
    assert_eq!(v.as_str(), "");
    assert!(!v.is_empty());
    assert!(EValue::Dict(vec![]).is_empty());
}

#[test]
fn list_renders_joined_with_comma_space() {
    let v = EValue::List(vec!["a".to_string(), "b".to_string(), "c".to_string()]);
    assert_eq!(v.to_formatted_string("&"), "a, b, c");
    assert_eq!(v.to_qs(), "a, b, c");
    assert_eq!(v.to_cookie(), "a, b, c");
}

#[test]
fn empty_list_renders_empty() {
    let v = EValue::List(Vec::new());
    assert_eq!(v.to_formatted_string("&"), "");
}
