use docktail::parser::{root, string, Step};
use docktail::json::{JsonError, JsonValue};

#[test]
fn test_unicode_letter_string() {
    let parsed = string("\"\\u003d\"");
    match parsed {
        Step::Done((content, rest), _) => {
            assert_eq!(content, "=".to_string());
            assert_eq!(rest, "");
        },
        _ => panic!("expected a complete string"),
    }
}

#[test]
fn test_string_with_newline() {
    let input = "\"a\\nb\"";
    let parsed = string(input);
    match parsed {
        Step::Done((content, rest), _) => {
            assert_eq!(content, "a\nb".to_string());
            assert_eq!(rest, "");
        },
        _ => panic!("expected a complete string"),
    }
}

#[test]
fn string_with_quote() {
    let input = r#""This is a string with '\"' quotes.""#;
    let expected = r#"This is a string with '"' quotes."#.to_string();
    let parsed = string(input);
    match parsed {
        Step::Done((content, rest), _) => {
            assert_eq!(content, expected);
            assert_eq!(rest, "");
        },
        _ => panic!("expected a complete string"),
    }
}

#[test]
fn unicode_pair_decodes_to_letters() {
    let parsed = string("\"\\u0041\\u0042\"");
    match parsed {
        Step::Done((content, _), _) => assert_eq!(content, "AB".to_string()),
        _ => panic!("expected a complete string"),
    }
}

#[test]
fn incomplete_escape_asks_for_more() {
    assert!(matches!(string("\"abc\\u00"), Step::More));
    assert!(matches!(string("\"abc\\"), Step::More));
    assert!(matches!(string("\"abc"), Step::More));
}

#[test]
fn bad_escape_fails() {
    assert!(matches!(string("\"abc\\q\""), Step::Bad));
    assert!(matches!(string("\"abc\\uZZZZ\""), Step::Bad));
    // a surrogate code point is not a scalar value
    assert!(matches!(string("\"\\uD800\""), Step::Bad));
}

#[test]
fn root_parses_object_and_returns_rest() {
    match root("{\"a\": 1}tail") {
        Step::Done((value, rest), consumed) => {
            assert_eq!(rest, "tail");
            assert_eq!(consumed, 8);
            match value {
                docktail::json::JsonValue::Object(fields) => {
                    assert_eq!(fields.len(), 1);
                    let key: String = fields[0].0.iter().collect();
                    assert_eq!(key, "a");
                },
                _ => panic!("expected an object"),
            }
        },
        _ => panic!("expected a complete object"),
    }
}

#[test]
fn root_needs_more_while_object_is_open() {
    assert!(matches!(root("{\"a\": 1"), Step::More));
    assert!(matches!(root("{\"a\": "), Step::More));
    assert!(matches!(root("{"), Step::More));
    assert!(matches!(root("   "), Step::More));
    assert!(matches!(root(""), Step::More));
}

#[test]
fn root_rejects_what_cannot_become_an_object() {
    assert!(matches!(root("Hello world"), Step::Bad));
    assert!(matches!(root("[1, 2]"), Step::Bad));
    assert!(matches!(root("{\"a\" 1}"), Step::Bad));
    assert!(matches!(root("{\"a\": 1,}"), Step::Bad));
}

#[test]
fn duplicate_keys_keep_the_last_value() {
    match root("{\"a\": 1, \"a\": 2}") {
        Step::Done((value, _), _) => match value {
            docktail::json::JsonValue::Object(fields) => {
                assert_eq!(fields.len(), 1);
                let tok: String = match &fields[0].1 {
                    docktail::json::JsonValue::Num(t) => t.iter().collect(),
                    _ => panic!("expected a number"),
                };
                assert_eq!(tok, "2");
            },
            _ => panic!("expected an object"),
        },
        _ => panic!("expected a complete object"),
    }
}

#[test]
fn numbers_keep_their_source_text() {
    match root("{\"a\": 693.10, \"b\": 1e3, \"c\": -5}") {
        Step::Done((value, _), _) => match value {
            docktail::json::JsonValue::Object(fields) => {
                let tok = |v: &docktail::json::JsonValue| -> String {
                    match v {
                        docktail::json::JsonValue::Num(t) => t.iter().collect(),
                        _ => panic!("expected a number"),
                    }
                };
                assert_eq!(tok(&fields[0].1), "693.10");
                assert_eq!(tok(&fields[1].1), "1e3");
                assert_eq!(tok(&fields[2].1), "-5");
            },
            _ => panic!("expected an object"),
        },
        _ => panic!("expected a complete object"),
    }
}

#[test]
fn int_value_truncates_and_saturates() {
    let num = |s: &str| JsonValue::Num(s.chars().collect());
    assert_eq!(num("30").int_value(), Ok(30));
    assert_eq!(num("-5").int_value(), Ok(-5));
    assert_eq!(num("1.9").int_value(), Ok(1));
    assert_eq!(num("-1.9").int_value(), Ok(-1));
    assert_eq!(num("1e3").int_value(), Ok(1000));
    assert_eq!(num("1.23e2").int_value(), Ok(123));
    assert_eq!(num("0.5").int_value(), Ok(0));
    assert_eq!(num("1605277107").int_value(), Ok(1605277107));
    assert_eq!(num("1e30").int_value(), Ok(i64::MAX));
    assert_eq!(num("-1e30").int_value(), Ok(i64::MIN));
    let not_num = JsonValue::Null;
    assert!(not_num.int_value().is_err());
}

#[test]
fn map_and_str_value_accessors() {
    match root("{\"a\": \"hello\"}") {
        Step::Done((value, _), _) => {
            let inner = value.map_value("a").unwrap();
            assert_eq!(inner.str_value(), Ok("hello".to_string()));
            assert_eq!(value.map_value("b").unwrap_err(), JsonError::KeyMissing);
            assert_eq!(inner.map_value("a").unwrap_err(), JsonError::NotAnObject);
            assert_eq!(value.str_value().unwrap_err(), JsonError::NotAString);
        },
        _ => panic!("expected a complete object"),
    }
}
