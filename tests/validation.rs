use confschema::token::{Token, Tokens};
use confschema::{validate, Config, ParseError, Schema, ValidationError, ValueType};

fn schema_err(text: &str) -> ParseError {
    match Schema::parse(text) {
        Err(e) => e,
        Ok(_) => panic!("schema should not parse"),
    }
}

fn config_err(text: &str) -> ParseError {
    match Config::parse(text) {
        Err(e) => e,
        Ok(_) => panic!("config should not parse"),
    }
}

#[test]
fn string_value_for_integer_schema_is_type_mismatch() {
    let config = Config::parse("retry = abc").unwrap();
    let schema = Schema::parse("retry = integer").unwrap();
    let errors = validate(&config, &schema).unwrap_err();
    assert!(matches!(&errors[0], ValidationError::TypeMismatch { key, .. } if key == "retry"));
}

#[test]
fn key_not_in_schema_is_unknown() {
    let config = Config::parse("\
retry = 1
extra = x").unwrap();
    let schema = Schema::parse("retry = integer").unwrap();
    let errors = validate(&config, &schema).unwrap_err();
    assert!(matches!(&errors[0], ValidationError::UnknownKey { key } if key == "extra"));
}

#[test]
fn schema_ignores_comments_and_blank_lines() {
    let schema = Schema::parse("\
# ネットワーク設定
endpoint = string

# デバッグ
debug = bool").unwrap();
    assert_eq!(schema.len(), 2);
}

#[test]
fn schema_rejects_unknown_type_name() {
    let err = schema_err("retry = number");
    assert!(matches!(err, ParseError::InvalidType { line_number: 1, .. }));
}

#[test]
fn missing_key_detected_when_config_lacks_schema_entry() {
    let config = Config::parse("\
endpoint = localhost:3000
debug = true
log.file = /var/log/console.log").unwrap();
    let schema = Schema::parse("\
endpoint = string
debug = bool
log.file = string
log.name = string").unwrap();
    let errors = validate(&config, &schema).unwrap_err();
    assert_eq!(errors.len(), 1);
    assert!(matches!(&errors[0], ValidationError::MissingKey { key } if key == "log.name"));
}

#[test]
fn commented_out_key_is_treated_as_missing() {
    let config = Config::parse("\
endpoint = localhost:3000
# debug = true
log.file = /var/log/console.log
log.name = default.log").unwrap();
    let schema = Schema::parse("\
endpoint = string
debug = bool
log.file = string
log.name = string").unwrap();
    let errors = validate(&config, &schema).unwrap_err();
    assert_eq!(errors.len(), 1);
    assert!(matches!(&errors[0], ValidationError::MissingKey { key } if key == "debug"));
}

#[test]
fn well_formed_mixed_content_parses() {
    let text = "a = 1\n\n# note\n; other note\n  b.c = x = y  \n-d = soft\n   \n";
    let config = Config::parse(text).unwrap();
    assert_eq!(config.len(), 3);
    assert_eq!(config.get("a"), Some("1"));
    assert_eq!(config.get("b.c"), Some("x = y"));
    assert_eq!(config.get("d"), Some("soft"));
}

#[test]
fn empty_content_gives_empty_config() {
    let config = Config::parse("").unwrap();
    assert_eq!(config.len(), 0);
    assert_eq!(config.get("a"), None);
    let schema = Schema::parse("").unwrap();
    assert_eq!(schema.len(), 0);
    assert!(validate(&config, &schema).is_ok());
}

#[test]
fn matching_config_passes() {
    let cases = [
        ("9223372036854775807", "true", "abc"),
        ("-9223372036854775808", "false", "Z9"),
        ("0", "true", "x"),
        ("-17", "false", "hello123"),
    ];
    for (int_val, bool_val, str_val) in cases {
        let text = format!("retry = {}\ndebug = {}\nendpoint = {}", int_val, bool_val, str_val);
        let config = Config::parse(&text).unwrap();
        let schema = Schema::parse("retry = integer\ndebug = bool\nendpoint = string").unwrap();
        assert!(validate(&config, &schema).is_ok());
    }
}

#[test]
fn get_returns_trimmed_text_after_first_equals() {
    let config = Config::parse("url =   http://h/?a=b&c=d   \nempty =\n").unwrap();
    assert_eq!(config.get("url"), Some("http://h/?a=b&c=d"));
    assert_eq!(config.get("empty"), Some(""));
    assert_eq!(config.get("URL"), None);
}

#[test]
fn later_duplicate_key_wins() {
    let config = Config::parse("k = first\nk = second").unwrap();
    assert_eq!(config.len(), 1);
    assert_eq!(config.get("k"), Some("second"));
    let schema = Schema::parse("k = integer\nk = bool").unwrap();
    assert_eq!(schema.len(), 1);
    let config = Config::parse("k = 5").unwrap();
    let errors = validate(&config, &schema).unwrap_err();
    assert!(matches!(&errors[0], ValidationError::TypeMismatch { expected, .. } if expected == "bool"));
}

#[test]
fn line_without_equals_is_invalid_line() {
    let err = config_err("a = 1\n  oops  \nb = 2");
    match err {
        ParseError::InvalidLine { line_number, content } => {
            assert_eq!(line_number, 2);
            assert_eq!(content, "  oops  ");
        }
        other => panic!("unexpected {:?}", other),
    }
}

#[test]
fn soft_line_without_equals_is_invalid_line() {
    let err = config_err("-soft");
    assert!(matches!(err, ParseError::InvalidLine { line_number: 1, .. }));
}

#[test]
fn invalid_line_reported_before_unknown_type() {
    let err = schema_err("a = number\nbroken");
    assert!(matches!(err, ParseError::InvalidLine { line_number: 2, .. }));
}

#[test]
fn unknown_type_line_number_counts_comments_and_blanks() {
    let err = schema_err("# head\n\na = string\nb = float");
    match err {
        ParseError::InvalidType { line_number, name } => {
            assert_eq!(line_number, 4);
            assert_eq!(name, "float");
        }
        other => panic!("unexpected {:?}", other),
    }
}

#[test]
fn type_names_are_case_sensitive() {
    let err = schema_err("a = String");
    assert!(matches!(err, ParseError::InvalidType { line_number: 1, .. }));
}

#[test]
fn crlf_line_endings_are_accepted() {
    let config = Config::parse("a = 1\r\nb = two\r\n").unwrap();
    assert_eq!(config.get("a"), Some("1"));
    assert_eq!(config.get("b"), Some("two"));
    let err = config_err("a = 1\r\nbad\r\n");
    match err {
        ParseError::InvalidLine { line_number, content } => {
            assert_eq!(line_number, 2);
            assert_eq!(content, "bad");
        }
        other => panic!("unexpected {:?}", other),
    }
}

#[test]
fn type_mismatch_carries_expected_and_got() {
    let config = Config::parse("debug = yes").unwrap();
    let schema = Schema::parse("debug = bool").unwrap();
    let errors = validate(&config, &schema).unwrap_err();
    assert_eq!(errors.len(), 1);
    match &errors[0] {
        ValidationError::TypeMismatch { key, expected, got } => {
            assert_eq!(key, "debug");
            assert_eq!(expected, "bool");
            assert_eq!(got, "yes");
        }
        other => panic!("unexpected {:?}", other),
    }
}

#[test]
fn all_discrepancies_are_reported() {
    let config = Config::parse("a = x\nc = 1").unwrap();
    let schema = Schema::parse("a = integer\nb = string").unwrap();
    let errors = validate(&config, &schema).unwrap_err();
    assert_eq!(errors.len(), 3);
    assert!(matches!(&errors[0], ValidationError::TypeMismatch { key, .. } if key == "a"));
    assert!(matches!(&errors[1], ValidationError::MissingKey { key } if key == "b"));
    assert!(matches!(&errors[2], ValidationError::UnknownKey { key } if key == "c"));
}

#[test]
fn integer_values() {
    let t = ValueType::Integer;
    assert!(t.is_valid("0"));
    assert!(t.is_valid("-0"));
    assert!(t.is_valid("007"));
    assert!(t.is_valid("9223372036854775807"));
    assert!(t.is_valid("-9223372036854775808"));
    assert!(!t.is_valid("9223372036854775808"));
    assert!(!t.is_valid("-9223372036854775809"));
    assert!(!t.is_valid("99999999999999999999999"));
    assert!(!t.is_valid("+5"));
    assert!(!t.is_valid("-"));
    assert!(!t.is_valid(""));
    assert!(!t.is_valid("1.5"));
    assert!(!t.is_valid("12a"));
}

#[test]
fn bool_and_string_values() {
    assert!(ValueType::Bool.is_valid("true"));
    assert!(ValueType::Bool.is_valid("false"));
    assert!(!ValueType::Bool.is_valid("True"));
    assert!(!ValueType::Bool.is_valid("1"));
    assert!(!ValueType::Bool.is_valid("yes"));
    assert!(ValueType::Str.is_valid(""));
    assert!(ValueType::Str.is_valid("anything at all"));
}

#[test]
fn type_names_round_trip() {
    for t in [ValueType::Str, ValueType::Bool, ValueType::Integer] {
        assert_eq!(ValueType::from_name(&t.name()), Some(t));
    }
    assert_eq!(ValueType::Str.name(), "string");
    assert_eq!(ValueType::Bool.name(), "bool");
    assert_eq!(ValueType::Integer.name(), "integer");
    assert_eq!(ValueType::from_name(&"number".to_string()), None);
}

#[test]
fn tokenizer_classifies_each_line() {
    let tokens = Tokens::parse("  # c  \n\n-k = v\nx=y").unwrap().tokens;
    assert_eq!(tokens.len(), 4);
    assert!(matches!(&tokens[0], Token::Comment(c) if c == "# c"));
    assert!(matches!(&tokens[1], Token::BlankLine));
    assert!(matches!(&tokens[2], Token::KeyValue { key, value, ignore_error: true } if key == "k" && value == "v"));
    assert!(matches!(&tokens[3], Token::KeyValue { key, value, ignore_error: false } if key == "x" && value == "y"));
}

#[test]
fn unicode_whitespace_is_trimmed() {
    let config = Config::parse("\u{3000}key\u{a0}=\tvalue\u{2003}").unwrap();
    assert_eq!(config.get("key"), Some("value"));
}
