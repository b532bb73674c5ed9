use mdnssdpd::config::RouteFilterConfig;
use mdnssdpd::error::{Error, JqError};
use jaq_core::data::JustLut;
use jaq_core::{Ctx, Vars};
use jaq_json::Val;
use mdnssdpd::filter::jq::{is_truthy_output, CompiledJq, Hearing, JqOutput};
use mdnssdpd::filter::loader::Loader;
use mdnssdpd::filter::ops::Op;
use mdnssdpd::filter::{default_action, default_mode, Condition, FilterConfig, FilterEngine, Rule};
use mdnssdpd::number::JsonNumber;
use mdnssdpd::value::Value;
use serde::Deserialize;

/// Runs a jq program on a value and hears its outputs.
fn is_truthy(program: &CompiledJq, value: &Value) -> bool {
    let text = value.text();
    let mut reader = serde_json::Deserializer::from_str(&text);
    reader.disable_recursion_limit();
    let input = Val::deserialize(&mut reader).unwrap();
    let filter = &program.filter().filter;
    let ctx = Ctx::<JustLut<Val>>::new(&filter.lut, Vars::new([]));
    let mut hearing = Hearing::new();
    for output in filter.id.run((ctx, input)) {
        let verdict = hearing.hear(Some(match output {
            Ok(Val::Null) => JqOutput::Null,
            Ok(Val::Bool(b)) => JqOutput::Bool(b),
            Ok(_) => JqOutput::Other,
            Err(_) => JqOutput::Failure,
        }));
        if let Some(verdict) = verdict {
            return verdict;
        }
    }
    hearing.hear(None).unwrap()
}

/// Whether a filter lets an entry be printed, once its jq programs were asked.
fn should_print(engine: &FilterEngine, entry: &Value) -> bool {
    if let Some(decision) = engine.should_print(entry) {
        return decision;
    }
    let mut verdicts = vec![];
    while let Some(program) = engine.next_program(&verdicts) {
        verdicts.push(is_truthy(program, entry));
    }
    engine.decide(entry, &verdicts).unwrap()
}

fn s(text: &str) -> Value {
    Value::String(text.to_string())
}

fn n(value: u64) -> Value {
    Value::Number(JsonNumber::PosInt(value))
}

fn b(value: bool) -> Value {
    Value::Bool(value)
}

fn obj(fields: Vec<(&str, Value)>) -> Value {
    Value::object(fields.into_iter().map(|(k, v)| (k.to_string(), v)).collect())
}

fn arr(items: Vec<Value>) -> Value {
    Value::Array(items)
}

fn condition(path: &str, op: Op, value: Value) -> Condition {
    Condition { path: path.into(), op, value }
}

fn rule(path: &str, op: Op, value: Value) -> Rule {
    Rule { negate: false, condition: vec![condition(path, op, value)] }
}

fn config(mode: &str, action: &str, rule: Vec<Rule>) -> FilterConfig {
    FilterConfig { mode: mode.into(), action: action.into(), rule, chain: vec![] }
}

fn make_filter(path: &str, op: Op, value: Value) -> FilterConfig {
    config("any", "show", vec![rule(path, op, value)])
}

fn test_entry() -> Value {
    obj(vec![
        ("timestamp", s("2024-01-01T00:00:00Z")),
        ("interface", s("wlp0s20f3:v4")),
        ("source", s("10.93.5.91:5353")),
        ("packet_size", n(200)),
        (
            "message",
            obj(vec![
                ("id", n(0)),
                ("message_type", s("response")),
                ("opcode", s("Query")),
                ("authoritative", b(true)),
                ("truncated", b(false)),
                ("question_count", n(1)),
                ("answer_count", n(2)),
                (
                    "questions",
                    arr(vec![obj(vec![
                        ("name", s("_http._tcp.local.")),
                        ("record_type", s("PTR")),
                        ("class", s("IN")),
                    ])]),
                ),
                (
                    "answers",
                    arr(vec![
                        obj(vec![
                            ("name", s("web._http._tcp.local.")),
                            ("record_type", s("A")),
                            ("class", s("IN")),
                            ("ttl", n(120)),
                            ("rdata", s("192.168.1.1")),
                        ]),
                        obj(vec![
                            ("name", s("web._http._tcp.local.")),
                            ("record_type", s("AAAA")),
                            ("class", s("IN")),
                            ("ttl", n(120)),
                            ("rdata", s("::1")),
                        ]),
                    ]),
                ),
                ("authorities", arr(vec![])),
                ("additionals", arr(vec![])),
            ]),
        ),
    ])
}

#[test]
fn test_simple_filter() {
    let cfg = make_filter("message.message_type", Op::Eq, s("response"));
    let engine = FilterEngine::build(vec![cfg], &[]).unwrap().unwrap();
    assert!(should_print(&engine, &test_entry()));
}

#[test]
fn test_simple_filter_no_match() {
    let cfg = make_filter("message.message_type", Op::Eq, s("query"));
    let engine = FilterEngine::build(vec![cfg], &[]).unwrap().unwrap();
    assert!(!should_print(&engine, &test_entry()));
}

#[test]
fn test_array_wildcard_filter() {
    let cfg = make_filter("message.answers[*].record_type", Op::Eq, s("A"));
    let engine = FilterEngine::build(vec![cfg], &[]).unwrap().unwrap();
    assert!(should_print(&engine, &test_entry()));
}

#[test]
fn test_jq_filter() {
    let engine = FilterEngine::build(
        vec![],
        &[".message.message_type == \"response\"".into()],
    ).unwrap().unwrap();
    assert!(should_print(&engine, &test_entry()));
}

#[test]
fn test_jq_filter_complex() {
    let engine = FilterEngine::build(
        vec![],
        &[".message.answers | map(select(.record_type == \"A\")) | length > 0".into()],
    ).unwrap().unwrap();
    assert!(should_print(&engine, &test_entry()));
}

#[test]
fn test_no_filters_returns_none() {
    let result = FilterEngine::build(vec![], &[]).unwrap();
    assert!(result.is_none());
}

#[test]
fn test_chain_and_semantics() {
    // Config 1: must be response
    let cfg1 = make_filter("message.message_type", Op::Eq, s("response"));
    // Config 2: must have A records
    let cfg2 = make_filter("message.answers[*].record_type", Op::Eq, s("A"));
    // Both pass -> print
    let engine = FilterEngine::build(vec![cfg1, cfg2], &[]).unwrap().unwrap();
    assert!(should_print(&engine, &test_entry()));
}

#[test]
fn test_chain_blocks_on_any_fail() {
    // Config 1: must be query (will fail for our test_entry which is response)
    let cfg1 = make_filter("message.message_type", Op::Eq, s("query"));
    // Config 2: has A records (would pass)
    let cfg2 = make_filter("message.answers[*].record_type", Op::Eq, s("A"));
    let engine = FilterEngine::build(vec![cfg1, cfg2], &[]).unwrap().unwrap();
    assert!(!should_print(&engine, &test_entry()));
}

#[test]
fn test_chain_hide_action() {
    // Config 1: show responses
    let cfg1 = make_filter("message.message_type", Op::Eq, s("response"));
    // Config 2: hide if from this source
    let cfg2 = config("any", "hide", vec![rule("source", Op::StartsWith, s("10.93.5.91"))]);
    let engine = FilterEngine::build(vec![cfg1, cfg2], &[]).unwrap().unwrap();
    // Response matches cfg1, but source matches cfg2's hide -> blocked
    assert!(!should_print(&engine, &test_entry()));
}

#[test]
fn test_jq_returns_null_is_falsy() {
    let engine = FilterEngine::build(vec![], &["null".into()]).unwrap().unwrap();
    assert!(!should_print(&engine, &test_entry()));
}

#[test]
fn test_jq_returns_false_is_falsy() {
    let engine = FilterEngine::build(vec![], &["false".into()]).unwrap().unwrap();
    assert!(!should_print(&engine, &test_entry()));
}

#[test]
fn test_jq_returns_zero_is_truthy() {
    let engine = FilterEngine::build(vec![], &["0".into()]).unwrap().unwrap();
    assert!(should_print(&engine, &test_entry()));
}

#[test]
fn test_jq_returns_empty_string_is_truthy() {
    let engine = FilterEngine::build(vec![], &[r#""""#.into()]).unwrap().unwrap();
    assert!(should_print(&engine, &test_entry()));
}

#[test]
fn test_jq_syntax_error() {
    let result = FilterEngine::build(vec![], &["invalid[[[".into()]);
    assert!(result.is_err());
}

#[test]
fn test_mode_all_one_fails() {
    let cfg = config(
        "all",
        "show",
        vec![
            rule("message.message_type", Op::Eq, s("response")),
            rule("message.message_type", Op::Eq, s("query")), // won't match
        ],
    );
    let engine = FilterEngine::build(vec![cfg], &[]).unwrap().unwrap();
    assert!(!should_print(&engine, &test_entry()));
}

#[test]
fn test_mode_all_both_pass() {
    let cfg = config(
        "all",
        "show",
        vec![
            rule("message.message_type", Op::Eq, s("response")),
            rule("message.authoritative", Op::Eq, b(true)),
        ],
    );
    let engine = FilterEngine::build(vec![cfg], &[]).unwrap().unwrap();
    assert!(should_print(&engine, &test_entry()));
}

#[test]
fn test_mode_any_all_fail() {
    let cfg = config(
        "any",
        "show",
        vec![
            rule("message.message_type", Op::Eq, s("query")),
            rule("interface", Op::Eq, s("nonexistent")),
        ],
    );
    let engine = FilterEngine::build(vec![cfg], &[]).unwrap().unwrap();
    assert!(!should_print(&engine, &test_entry()));
}

#[test]
fn test_rule_with_no_conditions_matches_all() {
    let cfg = config("any", "show", vec![Rule { negate: false, condition: vec![] }]);
    let engine = FilterEngine::build(vec![cfg], &[]).unwrap().unwrap();
    assert!(should_print(&engine, &test_entry()));
}

#[test]
fn test_negate_with_matching_conditions() {
    let cfg = config(
        "any",
        "show",
        vec![Rule {
            negate: true,
            condition: vec![condition("message.message_type", Op::Eq, s("response"))],
        }],
    );
    let engine = FilterEngine::build(vec![cfg], &[]).unwrap().unwrap();
    // Conditions match, but negate inverts: rule doesn't match, not printed
    assert!(!should_print(&engine, &test_entry()));
}

#[test]
fn test_exists_true_on_missing_field() {
    let cfg = make_filter("nonexistent.field", Op::Exists, b(true));
    let engine = FilterEngine::build(vec![cfg], &[]).unwrap().unwrap();
    assert!(!should_print(&engine, &test_entry()));
}

#[test]
fn test_exists_false_on_missing_field() {
    let cfg = make_filter("nonexistent.field", Op::Exists, b(false));
    let engine = FilterEngine::build(vec![cfg], &[]).unwrap().unwrap();
    assert!(should_print(&engine, &test_entry()));
}

#[test]
fn test_config_passes_jq_fails() {
    let cfg = make_filter("message.message_type", Op::Eq, s("response"));
    let engine = FilterEngine::build(vec![cfg], &["false".into()]).unwrap().unwrap();
    assert!(!should_print(&engine, &test_entry()));
}

#[test]
fn test_empty_config_is_pass_through() {
    let cfg = config("any", "show", vec![]);
    // Config with no rules: chain link passes everything
    let engine = FilterEngine::build(vec![cfg], &[]).unwrap().unwrap();
    assert!(should_print(&engine, &test_entry()));
}

#[test]
fn test_hide_matching() {
    let cfg = config("any", "hide", vec![rule("message.message_type", Op::Eq, s("response"))]);
    let engine = FilterEngine::build(vec![cfg], &[]).unwrap().unwrap();
    // Matches: hide, should NOT print
    assert!(!should_print(&engine, &test_entry()));
}

#[test]
fn test_hide_non_matching() {
    let cfg = config("any", "hide", vec![rule("message.message_type", Op::Eq, s("query"))]);
    let engine = FilterEngine::build(vec![cfg], &[]).unwrap().unwrap();
    // Doesn't match: not hidden, SHOULD print
    assert!(should_print(&engine, &test_entry()));
}

/// Runs a loader on files that stand in a table: path, chain, rules.
fn load(paths: &[&str], files: &[(&str, Vec<&str>, usize)]) -> Result<Vec<FilterConfig>, String> {
    let paths: Vec<String> = paths.iter().map(|p| p.to_string()).collect();
    let mut loader = Loader::new(&paths);
    while let Some(path) = loader.next().map(|r| r.path.clone()) {
        let (_, chain, rules) = match files.iter().find(|(name, _, _)| *name == path) {
            Some(file) => file,
            None => return Err(format!("Failed to resolve path: {}", path)),
        };
        let entered = loader.enter(path.clone().into_bytes(), &path).map_err(|e| e.message())?;
        let mut cfg = config("any", "show", vec![]);
        cfg.chain = chain.iter().map(|c| c.to_string()).collect();
        for _ in 0..*rules {
            cfg.rule.push(rule("source", Op::Eq, s("test")));
        }
        loader = entered.add(cfg);
    }
    Ok(loader.finish())
}

#[test]
fn test_load_configs_single_file() {
    let configs = load(&["filter.toml"], &[("filter.toml", vec![], 1)]).unwrap();
    assert_eq!(configs.len(), 1);
    assert_eq!(configs[0].rule.len(), 1);
}

#[test]
fn test_load_configs_with_chain() {
    let files = [("child.toml", vec![], 1), ("parent.toml", vec!["child.toml"], 1)];
    let configs = load(&["parent.toml"], &files).unwrap();
    assert_eq!(configs.len(), 2); // parent + child
}

#[test]
fn test_load_configs_circular_chain() {
    let files = [("a.toml", vec!["b.toml"], 0), ("b.toml", vec!["a.toml"], 0)];
    let result = load(&["a.toml"], &files);
    assert!(result.is_err());
}

#[test]
fn test_load_configs_empty_list() {
    let configs = load(&[], &[]).unwrap();
    assert!(configs.is_empty());
}

#[test]
fn files_come_before_the_files_that_they_chain() {
    let files = [
        ("a", vec!["b", "c"], 1),
        ("b", vec!["d"], 2),
        ("c", vec![], 3),
        ("d", vec![], 4),
        ("e", vec![], 5),
    ];
    let configs = load(&["a", "e"], &files).unwrap();
    let rules: Vec<usize> = configs.iter().map(|c| c.rule.len()).collect();
    assert_eq!(rules, vec![1, 2, 4, 3, 5]);
}

#[test]
fn naming_a_file_twice_is_refused() {
    let files = [("a", vec!["b", "c"], 0), ("b", vec!["d"], 0), ("c", vec!["d"], 0), ("d", vec![], 0)];
    assert_eq!(load(&["a"], &files).err().unwrap(), "Circular chain detected: d");
    assert_eq!(load(&["d", "d"], &files).err().unwrap(), "Circular chain detected: d");
}

#[test]
fn requests_say_which_file_names_them() {
    let mut loader = Loader::new(&["a".to_string()]);
    assert_eq!(loader.next().unwrap().from, None);
    let mut cfg = config("any", "show", vec![]);
    cfg.chain = vec!["b".to_string()];
    loader = loader.enter(vec![1], "a").unwrap().add(cfg);
    assert_eq!(loader.next().unwrap().path, "b");
    assert_eq!(loader.next().unwrap().from, Some(0));
}

#[test]
fn unknown_modes_and_actions_are_named() {
    let e = FilterEngine::build(vec![config("some", "show", vec![])], &[]).err().unwrap();
    assert!(matches!(&e, Error::UnknownMode(name) if name == "some"));
    assert_eq!(e.message(), "Unknown filter mode 'some'. Expected: any, all");
    let e = FilterEngine::build(vec![config("any", "keep", vec![])], &[]).err().unwrap();
    assert!(matches!(&e, Error::UnknownAction(name) if name == "keep"));
    assert_eq!(e.message(), "Unknown filter action 'keep'. Expected: show, hide");
}

#[test]
fn the_first_fault_is_reported() {
    let configs = vec![config("any", "show", vec![]), config("all", "x", vec![]), config("y", "show", vec![])];
    let e = FilterEngine::build(configs, &["invalid[[[".into()]).err().unwrap();
    assert!(matches!(&e, Error::UnknownAction(name) if name == "x"));
}

#[test]
fn jq_faults_are_told_apart() {
    let e = FilterEngine::build(vec![], &["invalid[[[".into()]).err().unwrap();
    assert_eq!(e.message(), "Failed to compile jq expression: invalid[[[");
    assert!(e.full_message().starts_with("Failed to compile jq expression: invalid[[[: jq parse error: "));
    assert!(matches!(&e, Error::Jq { reason: JqError::Parse(_), .. }));
    let e = FilterEngine::build(vec![], &["no_such_function".into()]).err().unwrap();
    assert!(matches!(&e, Error::Jq { reason: JqError::Compile(_), .. }));
    assert!(e.full_message().contains("jq compile error: "));
}

#[test]
fn jq_sees_the_entry() {
    let truthy = |program: &str| is_truthy(&CompiledJq::compile(program).unwrap(), &test_entry());
    assert!(truthy(".packet_size == 200"));
    assert!(!truthy(".packet_size == 201"));
    assert!(truthy(".message.answers[1].rdata == \"::1\""));
    assert!(!truthy("empty"));
    assert!(!truthy("error(\"x\")"));
    assert!(truthy("false, null, 1"));
    assert!(truthy("select(.message | .answers[]?,.questions[]? | .name | test(\"_http\"))"));
    // Outputs after the first truthy one are not asked for.
    assert!(truthy("repeat(1)"));
}

#[test]
fn only_null_and_false_are_falsy() {
    let entry = obj(vec![("message", obj(vec![("message_type", s("response"))]))]);
    let prints = |program: &str| {
        should_print(&FilterEngine::build(vec![], &[program.into()]).unwrap().unwrap(), &entry)
    };
    assert!(!prints("null"));
    assert!(!prints("false"));
    assert!(prints("0"));
    assert!(prints(r#""""#));
    assert!(prints("[]"));
    assert!(prints("{}"));
    assert!(prints("true"));
    // Errors do not count, whatever comes with them.
    assert!(!prints("error"));
    assert!(!prints("null, error, false"));
    assert!(prints("null, 0, error"));
    assert!(!prints("halt"));
}

#[test]
fn jq_programs_cannot_load_modules() {
    for program in ["import \"a\" as a; .", "include \"a\"; ."] {
        let e = FilterEngine::build(vec![], &[program.into()]).err().unwrap();
        assert!(matches!(&e, Error::Jq { reason: JqError::Parse(_), .. }));
        assert!(e.full_message().contains("loading not supported"));
    }
    // Data that is imported and not used does no harm.
    assert!(is_truthy(&CompiledJq::compile("import \"a\" as $x; .").unwrap(), &test_entry()));
}

#[test]
fn jq_reads_deep_values() {
    let mut deep = n(7);
    for _ in 0..200 {
        deep = arr(vec![deep]);
    }
    assert!(is_truthy(&CompiledJq::compile("flatten == [7]").unwrap(), &deep));
}

#[test]
fn truthiness_of_outputs() {
    assert!(!is_truthy_output(&JqOutput::Null));
    assert!(!is_truthy_output(&JqOutput::Bool(false)));
    assert!(is_truthy_output(&JqOutput::Bool(true)));
    assert!(is_truthy_output(&JqOutput::Other));
    assert!(!is_truthy_output(&JqOutput::Failure));
}

#[test]
fn outputs_are_heard_one_at_a_time() {
    let mut hearing = Hearing::new();
    assert_eq!(hearing.hear(Some(JqOutput::Null)), None);
    assert_eq!(hearing.hear(Some(JqOutput::Failure)), None);
    assert_eq!(hearing.hear(Some(JqOutput::Bool(false))), None);
    assert_eq!(hearing.hear(None), Some(false));
    let mut hearing = Hearing::new();
    assert_eq!(hearing.hear(Some(JqOutput::Bool(false))), None);
    assert_eq!(hearing.hear(Some(JqOutput::Other)), Some(true));
    // What comes later changes nothing.
    assert_eq!(hearing.hear(Some(JqOutput::Null)), Some(true));
    assert_eq!(hearing.hear(None), Some(true));
    assert_eq!(Hearing::new().hear(None), Some(false));
    assert_eq!(Hearing::new().hear(Some(JqOutput::Bool(true))), Some(true));
}

#[test]
fn verdicts_and_chain_must_both_pass() {
    let entry = test_entry();
    let pass = FilterEngine::build(vec![config("any", "show", vec![])], &[]).unwrap().unwrap();
    assert_eq!(pass.should_print(&entry), Some(true));
    assert_eq!(pass.decide(&entry, &[]), Some(true));
    assert_eq!(pass.decide(&entry, &[true, false]), Some(false));
    assert!(pass.next_program(&[]).is_none());
    let programs = ["true".to_string(), "false".to_string()];
    let asks = FilterEngine::build(vec![], &programs).unwrap().unwrap();
    assert_eq!(asks.should_print(&entry), None);
    assert_eq!(asks.decide(&entry, &[true]), None);
    assert_eq!(asks.decide(&entry, &[true, true]), Some(true));
    assert_eq!(asks.decide(&entry, &[true, false]), Some(false));
    assert_eq!(asks.decide(&entry, &[false]), Some(false));
    let block = make_filter("source", Op::Eq, s("x"));
    let block = FilterEngine::build(vec![block], &programs).unwrap().unwrap();
    assert_eq!(block.should_print(&entry), Some(false));
    assert_eq!(block.decide(&entry, &[true, true]), Some(false));
}

#[test]
fn programs_are_asked_in_turn_until_one_refuses() {
    let programs = ["1".to_string(), "null".to_string(), "2".to_string()];
    let engine = FilterEngine::build(vec![], &programs).unwrap().unwrap();
    assert!(is_truthy(engine.next_program(&[]).unwrap(), &test_entry()));
    assert!(!is_truthy(engine.next_program(&[true]).unwrap(), &test_entry()));
    assert!(is_truthy(engine.next_program(&[true, true]).unwrap(), &test_entry()));
    assert!(engine.next_program(&[true, false]).is_none());
    assert!(engine.next_program(&[true, true, true]).is_none());
    assert!(!should_print(&engine, &test_entry()));
}

#[test]
fn joined_filters_need_both_parts() {
    let part = |value: &str| make_filter("message.message_type", Op::Eq, s(value));
    let prints = |configs: Vec<FilterConfig>, programs: &[String]| {
        should_print(&FilterEngine::build(configs, programs).unwrap().unwrap(), &test_entry())
    };
    let (yes, no) = ("1".to_string(), "null".to_string());
    assert!(prints(vec![part("response")], &[yes.clone()]));
    assert!(prints(vec![part("response"), part("response")], &[yes.clone(), yes.clone()]));
    assert!(!prints(vec![part("response"), part("query")], &[yes.clone(), yes.clone()]));
    assert!(!prints(vec![part("response"), part("response")], &[yes, no]));
}

#[test]
fn every_jq_program_must_hold() {
    let engine = |programs: &[&str]| {
        let programs: Vec<String> = programs.iter().map(|p| p.to_string()).collect();
        should_print(&FilterEngine::build(vec![], &programs).unwrap().unwrap(), &test_entry())
    };
    assert!(engine(&["1", "2", "true"]));
    assert!(!engine(&["1", "null", "true"]));
    assert!(!engine(&["false", "1"]));
}

#[test]
fn links_only_narrow_and_their_order_is_free() {
    let links = |names: &[&str]| -> bool {
        let configs = names
            .iter()
            .map(|name| make_filter("message.message_type", Op::Eq, s(name)))
            .collect();
        should_print(&FilterEngine::build(configs, &[]).unwrap().unwrap(), &test_entry())
    };
    assert!(links(&["response"]));
    assert!(!links(&["response", "query"]));
    assert!(!links(&["query", "response"]));
}

#[test]
fn filter_defaults() {
    assert_eq!(default_mode(), "any");
    assert_eq!(default_action(), "show");
}

#[test]
fn embedded_filters_can_be_written() {
    let rfc = RouteFilterConfig {
        chain: vec![],
        mode: default_mode(),
        action: default_action(),
        jq: vec!["true".into()],
        rule: vec![],
    };
    assert!(mdnssdpd::route::build_route_filter(&rfc, vec![]).unwrap().is_some());
}
