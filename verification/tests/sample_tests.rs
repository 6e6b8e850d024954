use cargo_stitch::sample::config::{Config, ConfigError, Value};
use cargo_stitch::sample::parser::{parse, parse_number, parse_value, ParseError};

fn text(s: &str) -> Value {
    Value::Str(s.to_string())
}

#[test]
fn a_value_is_one_of_three_kinds() {
    assert_eq!(text("x").as_str(), Some("x"));
    assert_eq!(text("x").as_int(), None);
    assert_eq!(text("x").as_bool(), None);
    assert_eq!(Value::Int(-5).as_int(), Some(-5));
    assert_eq!(Value::Int(-5).as_str(), None);
    assert_eq!(Value::Int(-5).as_bool(), None);
    assert_eq!(Value::Bool(true).as_bool(), Some(true));
    assert_eq!(Value::Bool(false).as_bool(), Some(false));
    assert_eq!(Value::Bool(true).as_int(), None);
    assert_eq!(Value::Bool(true).as_str(), None);
    assert_eq!(text("my-app").duplicate(), text("my-app"));
    assert_eq!(Value::Int(8080).duplicate(), Value::Int(8080));
}

#[test]
fn values_are_shown_plainly() {
    assert_eq!(text("my-app").render(), "my-app");
    assert_eq!(text("").render(), "");
    assert_eq!(Value::Int(8080).render(), "8080");
    assert_eq!(Value::Int(0).render(), "0");
    assert_eq!(Value::Int(-42).render(), "-42");
    assert_eq!(Value::Int(i64::MIN).render(), i64::MIN.to_string());
    assert_eq!(Value::Bool(true).render(), "true");
    assert_eq!(Value::Bool(false).render(), "false");
}

#[test]
fn numbers_are_read_as_the_platform_reads_them() {
    let texts = [
        "", "0", "7", "42", "-42", "+42", "-", "+", "--1", "+-1", "007", "-0", "+0", "1a", "a1",
        " 1", "1 ", "1_000", "0x10", "1.5", "9223372036854775807", "9223372036854775808",
        "-9223372036854775808", "-9223372036854775809", "+9223372036854775807",
        "99999999999999999999999999999999999999", "-99999999999999999999999999999999999999",
        "00000000000000000000000000000000000001", "١٢٣", "1é",
    ];
    for t in texts {
        assert_eq!(parse_number(t), t.parse::<i64>().ok(), "number {:?}", t);
    }
}

#[test]
fn values_are_read_by_their_shape() {
    assert_eq!(parse_value("\"hello\""), Some(text("hello")));
    assert_eq!(parse_value("\"\""), Some(text("")));
    assert_eq!(parse_value("\"a \"quoted\" b\""), Some(text("a \"quoted\" b")));
    assert_eq!(parse_value("\""), None);
    assert_eq!(parse_value("\"open"), None);
    assert_eq!(parse_value("close\""), None);
    assert_eq!(parse_value("true"), Some(Value::Bool(true)));
    assert_eq!(parse_value("false"), Some(Value::Bool(false)));
    assert_eq!(parse_value("True"), None);
    assert_eq!(parse_value("42"), Some(Value::Int(42)));
    assert_eq!(parse_value("-42"), Some(Value::Int(-42)));
    assert_eq!(parse_value("+7"), Some(Value::Int(7)));
    assert_eq!(parse_value("4 2"), None);
    assert_eq!(parse_value(""), None);
    assert_eq!(parse_value("hello"), None);
    assert_eq!(parse_value("9223372036854775808"), None);
}

#[test]
fn a_file_is_read_line_by_line() {
    let input = "# settings\nname = \"my-app\"\n\n  port=8080  \r\ndebug = false\n  # indented comment\nname = \"renamed\"\n";
    let config = parse(input).unwrap();
    assert_eq!(config.len(), 3);
    assert_eq!(config.get_str("name"), "renamed");
    assert_eq!(config.get_int("port"), 8080);
    assert_eq!(config.get_bool("debug"), false);
    assert_eq!(config.get("missing"), None);
    let keys: Vec<&str> = config.iter().into_iter().map(|(k, _)| k).collect();
    assert_eq!(keys, vec!["name", "port", "debug"]);
    assert_eq!(parse("").unwrap().len(), 0);
    assert!(parse("\n\n# only comments\n").unwrap().is_empty());
    let spaced = parse("a b = 1\n = 2\nk = \"v = w\"").unwrap();
    assert_eq!(spaced.get("a b"), Some(&Value::Int(1)));
    assert_eq!(spaced.get(""), Some(&Value::Int(2)));
    assert_eq!(spaced.get("k"), Some(&text("v = w")));
}

#[test]
fn the_first_wrong_line_is_reported() {
    assert_eq!(
        parse("name = \"x\"\nthis is not an entry\nport = oops\n"),
        Err(ParseError {
            line: 2,
            message: "expected `key = value`, got: this is not an entry".to_string(),
        })
    );
    assert_eq!(
        parse("# c\n\nport =   oops  \nalso wrong"),
        Err(ParseError { line: 3, message: "unrecognized value: oops".to_string() })
    );
    assert_eq!(
        parse("key ="),
        Err(ParseError { line: 1, message: "unrecognized value: ".to_string() })
    );
    assert_eq!(
        parse("   lonely   "),
        Err(ParseError { line: 1, message: "expected `key = value`, got: lonely".to_string() })
    );
    assert_eq!(
        ParseError { line: 12, message: "unrecognized value: x".to_string() }.message(),
        "line 12: unrecognized value: x"
    );
}

#[test]
fn loading_reports_what_went_wrong() {
    let loaded = Config::load(Ok("port = 1\n".to_string())).unwrap();
    assert_eq!(loaded.get_int("port"), 1);
    let unreadable = Config::load(Err("No such file or directory (os error 2)".to_string()));
    assert_eq!(
        unreadable,
        Err(ConfigError::Io("No such file or directory (os error 2)".to_string()))
    );
    assert_eq!(
        unreadable.unwrap_err().message(),
        "io error: No such file or directory (os error 2)"
    );
    let wrong = Config::load(Ok("port\n".to_string()));
    assert_eq!(
        wrong,
        Err(ConfigError::Parse(ParseError {
            line: 1,
            message: "expected `key = value`, got: port".to_string(),
        }))
    );
    assert_eq!(
        wrong.unwrap_err().message(),
        "parse error: line 1: expected `key = value`, got: port"
    );
}

#[test]
fn a_configuration_holds_one_value_per_key() {
    let mut cfg = Config::empty();
    assert!(cfg.is_empty());
    assert_eq!(cfg.len(), 0);
    assert_eq!(cfg, Config::default());
    cfg.set("name", text("my-app"));
    cfg.set("port", Value::Int(8080));
    cfg.set("debug", Value::Bool(false));
    assert!(!cfg.is_empty());
    assert_eq!(cfg.len(), 3);
    assert_eq!(cfg.get_str("name"), "my-app");
    assert_eq!(cfg.get_int("port"), 8080);
    assert_eq!(cfg.get_bool("debug"), false);
    assert_eq!(cfg.get("name"), Some(&text("my-app")));
    assert_eq!(cfg.get("Name"), None);
    cfg.set("port", Value::Int(9090));
    assert_eq!(cfg.len(), 3);
    assert_eq!(cfg.get_int("port"), 9090);
    cfg.set("port", text("none"));
    assert_eq!(cfg.get_str("port"), "none");
    assert_eq!(
        cfg.iter(),
        vec![("name", &text("my-app")), ("port", &text("none")), ("debug", &Value::Bool(false))]
    );
}

#[test]
fn merging_prefers_the_other_side() {
    let mut base = Config::empty();
    base.set("name", text("base"));
    base.set("port", Value::Int(1));
    let mut other = Config::empty();
    other.set("port", Value::Int(2));
    other.set("debug", Value::Bool(true));
    base.merge(other);
    assert_eq!(base.len(), 3);
    assert_eq!(base.get_str("name"), "base");
    assert_eq!(base.get_int("port"), 2);
    assert_eq!(base.get_bool("debug"), true);
    let before = base.clone();
    base.merge(Config::empty());
    assert_eq!(base, before);
    let mut empty = Config::empty();
    empty.merge(before.clone());
    assert_eq!(empty, before);
}
