use mdnssdpd::filter::path::{parse_path, resolve, PathSegment};
use mdnssdpd::number::JsonNumber;
use mdnssdpd::value::{Object, Value};

fn s(text: &str) -> Value {
    Value::String(text.to_string())
}

fn n(value: u64) -> Value {
    Value::Number(JsonNumber::PosInt(value))
}

fn obj(fields: Vec<(&str, Value)>) -> Value {
    Value::object(fields.into_iter().map(|(k, v)| (k.to_string(), v)).collect())
}

fn arr(items: Vec<Value>) -> Value {
    Value::Array(items)
}

fn same(found: &[&Value], wanted: Vec<Value>) -> bool {
    found.len() == wanted.len() && found.iter().zip(wanted.iter()).all(|(a, b)| a.equals(b))
}

#[test]
fn test_parse_simple() {
    let segs = parse_path("message.opcode");
    assert_eq!(segs.len(), 2);
    assert!(matches!(&segs[0], PathSegment::Field(s) if s == "message"));
    assert!(matches!(&segs[1], PathSegment::Field(s) if s == "opcode"));
}

#[test]
fn test_parse_wildcard() {
    let segs = parse_path("message.questions[*].name");
    assert_eq!(segs.len(), 4);
    assert!(matches!(&segs[2], PathSegment::ArrayWildcard));
}

#[test]
fn test_resolve_nested() {
    let v = obj(vec![("message", obj(vec![("opcode", s("Query"))]))]);
    let segs = parse_path("message.opcode");
    let res = resolve(&v, &segs);
    assert!(same(&res, vec![s("Query")]));
}

#[test]
fn test_resolve_wildcard() {
    let v = obj(vec![(
        "message",
        obj(vec![(
            "questions",
            arr(vec![obj(vec![("name", s("a"))]), obj(vec![("name", s("b"))])]),
        )]),
    )]);
    let segs = parse_path("message.questions[*].name");
    let res = resolve(&v, &segs);
    assert!(same(&res, vec![s("a"), s("b")]));
}

#[test]
fn test_parse_empty() {
    assert_eq!(parse_path("").len(), 0);
}

#[test]
fn test_parse_double_dots() {
    // "message..opcode" skips empty segments
    let segs = parse_path("message..opcode");
    assert_eq!(segs.len(), 2);
}

#[test]
fn test_parse_only_wildcard() {
    let segs = parse_path("[*]");
    assert_eq!(segs.len(), 1);
    assert!(matches!(&segs[0], PathSegment::ArrayWildcard));
}

#[test]
fn test_parse_nested_wildcards() {
    let segs = parse_path("a[*].b[*].c");
    assert_eq!(segs.len(), 5);
    assert!(matches!(&segs[0], PathSegment::Field(s) if s == "a"));
    assert!(matches!(&segs[1], PathSegment::ArrayWildcard));
    assert!(matches!(&segs[2], PathSegment::Field(s) if s == "b"));
    assert!(matches!(&segs[3], PathSegment::ArrayWildcard));
    assert!(matches!(&segs[4], PathSegment::Field(s) if s == "c"));
}

#[test]
fn test_parse_underscores_and_numbers() {
    let segs = parse_path("dns_class.record_2.ttl_value");
    assert_eq!(segs.len(), 3);
}

#[test]
fn test_resolve_empty_path() {
    let v = obj(vec![("x", n(1))]);
    let res = resolve(&v, &[]);
    assert!(same(&res, vec![obj(vec![("x", n(1))])]));
}

#[test]
fn test_resolve_missing_field() {
    let v = obj(vec![("message", obj(vec![("opcode", s("Query"))]))]);
    let segs = parse_path("message.nonexistent.deep");
    let res = resolve(&v, &segs);
    assert!(res.is_empty());
}

#[test]
fn test_resolve_non_object_intermediate() {
    let v = obj(vec![("message", s("just_a_string"))]);
    let segs = parse_path("message.opcode");
    let res = resolve(&v, &segs);
    assert!(res.is_empty());
}

#[test]
fn test_resolve_wildcard_on_non_array() {
    let v = obj(vec![("items", s("not_an_array"))]);
    let segs = parse_path("items[*].name");
    let res = resolve(&v, &segs);
    assert!(res.is_empty());
}

#[test]
fn test_resolve_wildcard_on_empty_array() {
    let v = obj(vec![("items", arr(vec![]))]);
    let segs = parse_path("items[*].name");
    let res = resolve(&v, &segs);
    assert!(res.is_empty());
}

#[test]
fn test_resolve_deep_nesting() {
    let v = obj(vec![(
        "a",
        obj(vec![(
            "b",
            obj(vec![("c", obj(vec![("d", obj(vec![("e", obj(vec![("f", n(42))]))]))]))]),
        )]),
    )]);
    let segs = parse_path("a.b.c.d.e.f");
    let res = resolve(&v, &segs);
    assert!(same(&res, vec![n(42)]));
}

#[test]
fn test_resolve_null_intermediate() {
    let v = obj(vec![("a", Value::Null)]);
    let segs = parse_path("a.b");
    let res = resolve(&v, &segs);
    assert!(res.is_empty());
}

#[test]
fn test_resolve_null_leaf() {
    let v = obj(vec![("a", Value::Null)]);
    let segs = parse_path("a");
    let res = resolve(&v, &segs);
    assert!(same(&res, vec![Value::Null]));
}

#[test]
fn test_resolve_nested_wildcards() {
    let v = obj(vec![(
        "groups",
        arr(vec![
            obj(vec![(
                "items",
                arr(vec![obj(vec![("val", n(1))]), obj(vec![("val", n(2))])]),
            )]),
            obj(vec![("items", arr(vec![obj(vec![("val", n(3))])]))]),
        ]),
    )]);
    let segs = parse_path("groups[*].items[*].val");
    let res = resolve(&v, &segs);
    assert!(same(&res, vec![n(1), n(2), n(3)]));
}

#[test]
fn wildcard_ending_of_a_named_part() {
    let segs = parse_path("x[*][*].");
    assert_eq!(segs.len(), 2);
    assert!(matches!(&segs[0], PathSegment::Field(s) if s == "x[*]"));
    assert!(matches!(&segs[1], PathSegment::ArrayWildcard));
}

#[test]
fn fields_of_a_path_have_names_without_dots() {
    for seg in parse_path("..a.b..[*].c[*]..") {
        if let PathSegment::Field(name) = seg {
            assert!(!name.is_empty());
            assert!(!name.contains('.'));
        }
    }
}

#[test]
fn objects_keep_their_keys_in_order() {
    let v = obj(vec![("b", n(1)), ("a", n(2)), ("b", n(3)), ("ab", n(4))]);
    assert_eq!(v.text(), "{\"a\":2,\"ab\":4,\"b\":3}");
    let w = obj(vec![("ab", n(4)), ("b", n(3)), ("a", n(2))]);
    assert!(v.equals(&w));
    assert!(v.copy().equals(&w));
    assert!(!v.equals(&obj(vec![("a", n(2))])));
}

#[test]
fn set_fields_are_read_back() {
    let object = Object::new().set("k", n(1)).set("m", n(2)).set("k", n(3));
    assert!(object.get("k").unwrap().equals(&n(3)));
    assert!(object.get("m").unwrap().equals(&n(2)));
    assert!(object.get("l").is_none());
}

#[test]
fn value_texts() {
    let v = arr(vec![
        Value::Null,
        Value::Bool(true),
        Value::Bool(false),
        n(18446744073709551615),
        Value::Number(JsonNumber::NegInt(-9223372036854775808)),
        Value::Number(JsonNumber::Float { bits: 1.5f64.to_bits(), text: "1.5".to_string() }),
        s("a\"b\\c\n\u{e9}"),
        arr(vec![]),
        obj(vec![]),
    ]);
    assert_eq!(
        v.text(),
        "[null,true,false,18446744073709551615,-9223372036854775808,1.5,\"a\\\"b\\\\c\\n\u{e9}\",[],{}]"
    );
    let parsed: serde_json::Value = serde_json::from_str(&v.text()).unwrap();
    assert_eq!(serde_json::to_string(&parsed).unwrap(), v.text());
    assert!(v.copy().equals(&v));
}
