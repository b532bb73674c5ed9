use mdnssdpd::filter::ops::{evaluate, glob_match, glob_match_inner, Op};
use mdnssdpd::number::JsonNumber;
use mdnssdpd::value::Value;

fn s(text: &str) -> Value {
    Value::String(text.to_string())
}

fn n(value: i64) -> Value {
    if value < 0 {
        Value::Number(JsonNumber::NegInt(value))
    } else {
        Value::Number(JsonNumber::PosInt(value as u64))
    }
}

fn u(value: u64) -> Value {
    Value::Number(JsonNumber::PosInt(value))
}

fn f(value: f64) -> Value {
    Value::Number(JsonNumber::Float { bits: value.to_bits(), text: value.to_string() })
}

fn b(value: bool) -> Value {
    Value::Bool(value)
}

fn null() -> Value {
    Value::Null
}

fn arr(items: Vec<Value>) -> Value {
    Value::Array(items)
}

#[test]
fn test_eq() {
    assert!(evaluate(&Op::Eq, &s("hello"), &s("hello")));
    assert!(!evaluate(&Op::Eq, &s("hello"), &s("world")));
}

#[test]
fn test_contains() {
    assert!(evaluate(&Op::Contains, &s("_http._tcp.local."), &s("_http")));
}

#[test]
fn test_glob() {
    assert!(evaluate(&Op::Glob, &s("_http._tcp.local."), &s("*._tcp.local.")));
    assert!(!evaluate(&Op::Glob, &s("_http._udp.local."), &s("*._tcp.local.")));
}

#[test]
fn test_in_op() {
    let list = arr(vec![s("A"), s("AAAA")]);
    assert!(evaluate(&Op::In, &s("A"), &list));
    assert!(!evaluate(&Op::In, &s("PTR"), &list));
}

#[test]
fn test_numeric() {
    assert!(evaluate(&Op::Gt, &n(200), &n(100)));
    assert!(!evaluate(&Op::Gt, &n(50), &n(100)));
}

#[test]
fn test_ne() {
    assert!(evaluate(&Op::Ne, &s("hello"), &s("world")));
    assert!(!evaluate(&Op::Ne, &s("hello"), &s("hello")));
    assert!(evaluate(&Op::Ne, &n(1), &n(2)));
    assert!(!evaluate(&Op::Ne, &b(true), &b(true)));
}

#[test]
fn test_icontains() {
    assert!(evaluate(&Op::Icontains, &s("Hello World"), &s("hello")));
    assert!(evaluate(&Op::Icontains, &s("HELLO"), &s("hello")));
    assert!(!evaluate(&Op::Icontains, &s("hello"), &s("xyz")));
}

#[test]
fn test_starts_with() {
    assert!(evaluate(&Op::StartsWith, &s("_http._tcp.local."), &s("_http")));
    assert!(!evaluate(&Op::StartsWith, &s("_http._tcp.local."), &s("_tcp")));
}

#[test]
fn test_ends_with() {
    assert!(evaluate(&Op::EndsWith, &s("_http._tcp.local."), &s(".local.")));
    assert!(!evaluate(&Op::EndsWith, &s("_http._tcp.local."), &s("_http")));
}

#[test]
fn test_regex() {
    assert!(evaluate(&Op::Regex, &s("_airplay._tcp.local."), &s("_(airplay|raop)")));
    assert!(!evaluate(&Op::Regex, &s("_http._tcp.local."), &s("_(airplay|raop)")));
}

#[test]
fn test_regex_invalid_pattern() {
    // Invalid regex should return false, not panic
    assert!(!evaluate(&Op::Regex, &s("test"), &s("[invalid")));
}

#[test]
fn test_gte() {
    assert!(evaluate(&Op::Gte, &n(100), &n(100)));
    assert!(evaluate(&Op::Gte, &n(101), &n(100)));
    assert!(!evaluate(&Op::Gte, &n(99), &n(100)));
}

#[test]
fn test_lt() {
    assert!(evaluate(&Op::Lt, &n(50), &n(100)));
    assert!(!evaluate(&Op::Lt, &n(100), &n(100)));
    assert!(!evaluate(&Op::Lt, &n(150), &n(100)));
}

#[test]
fn test_lte() {
    assert!(evaluate(&Op::Lte, &n(100), &n(100)));
    assert!(evaluate(&Op::Lte, &n(99), &n(100)));
    assert!(!evaluate(&Op::Lte, &n(101), &n(100)));
}

#[test]
fn test_exists_true() {
    assert!(evaluate(&Op::Exists, &s("something"), &b(true)));
    assert!(evaluate(&Op::Exists, &n(42), &b(true)));
    assert!(!evaluate(&Op::Exists, &null(), &b(true)));
}

#[test]
fn test_exists_false() {
    assert!(evaluate(&Op::Exists, &null(), &b(false)));
    assert!(!evaluate(&Op::Exists, &s("something"), &b(false)));
}

#[test]
fn test_string_ops_on_non_strings() {
    assert!(!evaluate(&Op::Contains, &n(123), &s("1")));
    assert!(!evaluate(&Op::Icontains, &null(), &s("x")));
    assert!(!evaluate(&Op::StartsWith, &b(true), &s("t")));
    assert!(!evaluate(&Op::EndsWith, &arr(vec![n(1), n(2)]), &s("2")));
    assert!(!evaluate(&Op::Regex, &n(42), &s("4")));
    assert!(!evaluate(&Op::Glob, &null(), &s("*")));
}

#[test]
fn test_numeric_ops_on_non_numbers() {
    assert!(!evaluate(&Op::Gt, &s("big"), &s("small")));
    assert!(!evaluate(&Op::Lt, &null(), &n(0)));
}

#[test]
fn test_in_with_non_array() {
    assert!(!evaluate(&Op::In, &s("A"), &s("A")));
    assert!(!evaluate(&Op::In, &s("A"), &null()));
}

#[test]
fn test_glob_literal() {
    assert!(evaluate(&Op::Glob, &s("exact"), &s("exact")));
    assert!(!evaluate(&Op::Glob, &s("exact"), &s("other")));
}

#[test]
fn test_glob_question_mark() {
    assert!(evaluate(&Op::Glob, &s("abc"), &s("a?c")));
    assert!(!evaluate(&Op::Glob, &s("abbc"), &s("a?c")));
}

#[test]
fn test_glob_star_only() {
    assert!(evaluate(&Op::Glob, &s("anything"), &s("*")));
    assert!(evaluate(&Op::Glob, &s(""), &s("*")));
}

#[test]
fn test_glob_empty() {
    assert!(evaluate(&Op::Glob, &s(""), &s("")));
    assert!(!evaluate(&Op::Glob, &s("x"), &s("")));
}

#[test]
fn test_exists_with_non_bool_expected() {
    assert!(!evaluate(&Op::Exists, &s("x"), &s("not_a_bool")));
    assert!(!evaluate(&Op::Exists, &s("x"), &n(42)));
}

#[test]
fn glob_star_in_the_middle() {
    assert!(glob_match("a*c", "abbbc"));
    assert!(glob_match("a*c", "ac"));
    assert!(!glob_match("a*c", "abbbd"));
    assert!(glob_match("*a*b*", "xxaxxbxx"));
    assert!(glob_match("**", ""));
    assert!(!glob_match("?", ""));
    assert!(glob_match("?", "\u{e4}"));
}

#[test]
fn glob_on_characters() {
    assert!(glob_match_inner(&['a', '*'], &['a', 'b']));
    assert!(!glob_match_inner(&['a'], &['a', 'b']));
}

#[test]
fn ne_is_the_opposite_of_eq() {
    let values = [s("a"), n(1), f(1.0), b(true), null(), arr(vec![n(1)])];
    for x in values.iter() {
        for y in values.iter() {
            assert_ne!(evaluate(&Op::Eq, x, y), evaluate(&Op::Ne, x, y));
        }
    }
}

#[test]
fn integers_and_floats_are_different_values() {
    assert!(!evaluate(&Op::Eq, &n(1), &f(1.0)));
    assert!(evaluate(&Op::Eq, &f(1.5), &f(1.5)));
    assert!(evaluate(&Op::Eq, &f(0.0), &f(-0.0)));
    assert!(!evaluate(&Op::Eq, &n(-1), &n(1)));
    assert!(evaluate(&Op::Eq, &n(-1), &n(-1)));
}

#[test]
fn comparisons_agree_with_doubles() {
    let floats = [0.0, -0.0, 0.5, -0.5, 1.0, 2.0, 5e-324, -5e-324, 2.2250738585072014e-308,
        9007199254740992.0, 9007199254740994.0, 18446744073709551616.0, 1e300, -1e300, 1.7e308];
    let ints: [u64; 14] = [0, 1, 2, 3, 100, 4294967296, 4503599627370496, 9007199254740991,
        9007199254740992, 9007199254740993, 9007199254740995, 18014398509481987,
        18446744073709550591, 18446744073709551615];
    for x in ints.iter() {
        for y in floats.iter() {
            let (a, c) = (*x as f64, *y);
            assert_eq!(evaluate(&Op::Lt, &u(*x), &f(c)), a < c, "{} < {}", x, y);
            assert_eq!(evaluate(&Op::Lte, &u(*x), &f(c)), a <= c, "{} <= {}", x, y);
            assert_eq!(evaluate(&Op::Gt, &u(*x), &f(c)), a > c, "{} > {}", x, y);
            assert_eq!(evaluate(&Op::Gte, &u(*x), &f(c)), a >= c, "{} >= {}", x, y);
        }
        for y in ints.iter() {
            assert_eq!(evaluate(&Op::Lt, &u(*x), &u(*y)), (*x as f64) < (*y as f64), "{} < {}", x, y);
            assert_eq!(evaluate(&Op::Lte, &u(*x), &u(*y)), (*x as f64) <= (*y as f64));
        }
    }
    for x in floats.iter() {
        for y in floats.iter() {
            assert_eq!(evaluate(&Op::Lt, &f(*x), &f(*y)), x < y, "{} < {}", x, y);
            assert_eq!(evaluate(&Op::Gte, &f(*x), &f(*y)), x >= y, "{} >= {}", x, y);
        }
    }
}

#[test]
fn negative_integers_compare() {
    assert!(evaluate(&Op::Lt, &n(-2), &n(-1)));
    assert!(evaluate(&Op::Lt, &n(i64::MIN), &n(0)));
    assert!(!evaluate(&Op::Lt, &n(-1), &n(-2)));
    assert!(evaluate(&Op::Gt, &n(0), &n(-5)));
    assert!(evaluate(&Op::Gte, &f(-9223372036854775808.0), &n(i64::MIN)));
}

#[test]
fn edges_of_a_text_are_contained_in_it() {
    for (text, part) in [("abc", "ab"), ("abc", "bc"), ("abc", ""), ("abc", "abc"), ("abc", "abcd")] {
        let (x, y) = (s(text), s(part));
        assert_eq!(evaluate(&Op::StartsWith, &x, &y), text.starts_with(part));
        assert_eq!(evaluate(&Op::EndsWith, &x, &y), text.ends_with(part));
        assert_eq!(evaluate(&Op::Contains, &x, &y), text.contains(part));
    }
}

#[test]
fn icontains_folds_beyond_ascii() {
    assert!(evaluate(&Op::Icontains, &s("GR\u{dc}N"), &s("gr\u{fc}n")));
}
