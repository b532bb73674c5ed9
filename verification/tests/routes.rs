use hickory_proto::op::{Message, MessageType, Query};
use hickory_proto::rr::rdata::{A, AAAA, PTR};
use hickory_proto::rr::{Name, RData, Record, RecordType};
use hickory_proto::serialize::binary::BinDecodable;
use jaq_core::data::JustLut;
use jaq_core::{Ctx, Vars};
use jaq_json::Val;
use mdnssdpd::config::{
    Config, OutputConfig, RouteConfig, RouteFilterCondition, RouteFilterConfig, RouteFilterRule,
    TransformConfig,
};
use mdnssdpd::dispatch::{dispatch_event, guarded_addresses};
use mdnssdpd::error::Error;
use mdnssdpd::filter::jq::{Hearing, JqOutput};
use mdnssdpd::filter::ops::Op;
use mdnssdpd::filter::{Condition, FilterConfig, FilterEngine, Rule};
use mdnssdpd::output::log::LogOutput;
use mdnssdpd::output::{Delivery, Sink};
use mdnssdpd::receiver::{label, Interface, IpAddr, PacketEvent, SocketAddr};
use mdnssdpd::route::{build_route_filter, build_test_route, Processed, Route};
use mdnssdpd::transform::{build_chain, TransformChain};
use mdnssdpd::value::Value;
use serde::Deserialize;
use std::str::FromStr;

fn address(ip: [u8; 4]) -> SocketAddr {
    SocketAddr { ip: IpAddr::V4(u32::from_be_bytes(ip)), port: 5353, scope_id: 0 }
}

fn event(data: Vec<u8>, ip: [u8; 4], iface: &str) -> PacketEvent {
    PacketEvent {
        data,
        source: address(ip),
        interface: iface.to_string(),
        timestamp: "2024-01-01T00:00:00Z".to_string(),
    }
}

fn question(name: &str) -> Query {
    let mut query = Query::new();
    query.set_name(Name::from_str(name).unwrap());
    query.set_query_type(RecordType::PTR);
    query
}

fn make_query_event(iface: &str, name: &str) -> PacketEvent {
    let mut msg = Message::new();
    msg.set_message_type(MessageType::Query);
    msg.add_query(question(name));
    event(msg.to_vec().unwrap(), [192, 168, 1, 100], iface)
}

fn make_response_event(iface: &str) -> PacketEvent {
    let mut msg = Message::new();
    msg.set_message_type(MessageType::Response);
    msg.set_authoritative(true);
    msg.add_answer(Record::from_rdata(
        Name::from_str("_tidal._tcp.local.").unwrap(),
        4500,
        RData::PTR(PTR(Name::from_str("streamer._tidal._tcp.local.").unwrap())),
    ));
    msg.add_additional(Record::from_rdata(
        Name::from_str("streamer.local.").unwrap(),
        120,
        RData::A(A::new(192, 168, 1, 50)),
    ));
    msg.add_additional(Record::from_rdata(
        Name::from_str("streamer.local.").unwrap(),
        120,
        RData::AAAA(AAAA("fe80::1".parse().unwrap())),
    ));
    event(msg.to_vec().unwrap(), [192, 168, 1, 50], iface)
}

fn capture() -> Sink {
    Sink::Reflect("out".to_string())
}

/// The packets that a route hands to its outputs.
fn captured(route: &Route, event: &PacketEvent) -> Vec<Vec<u8>> {
    packets(route.process(event).unwrap())
}

fn packets(processed: Processed) -> Vec<Vec<u8>> {
    match processed {
        Processed::Delivered(deliveries) => deliveries
            .into_iter()
            .map(|d| match d {
                Delivery::Packet { data, .. } => data,
                Delivery::Line(line) => line.into_bytes(),
            })
            .collect(),
        _ => vec![],
    }
}

fn plain_route(name: &str, input: &str) -> Route {
    build_test_route(name, vec![input.into()], None, TransformChain::new(vec![]), vec![capture()])
}

#[test]
fn test_route_ignores_wrong_interface() {
    let route = plain_route("test", "eth0");
    let event = make_query_event("eth1:v4", "_test._tcp.local.");
    assert!(captured(&route, &event).is_empty());
    assert!(matches!(route.process(&event), Ok(Processed::Ignored)));
}

#[test]
fn test_route_matches_base_interface() {
    let route = plain_route("test", "eth0");
    let event = make_query_event("eth0:v4", "_test._tcp.local.");
    assert_eq!(captured(&route, &event).len(), 1);
}

#[test]
fn test_route_matches_full_interface_name() {
    let route = plain_route("test", "eth0:v4");
    let event = make_query_event("eth0:v4", "_test._tcp.local.");
    assert_eq!(captured(&route, &event).len(), 1);
}

#[test]
fn test_route_passthrough() {
    let route = plain_route("test", "eth0");
    let event = make_query_event("eth0:v4", "_test._tcp.local.");
    let results = captured(&route, &event);
    assert_eq!(results.len(), 1);
    // No transforms: original bytes forwarded
    assert_eq!(results[0], event.data);
}

fn eq_filter(path: &str, value: &str) -> Option<FilterEngine> {
    FilterEngine::build(
        vec![FilterConfig {
            mode: "any".into(),
            action: "show".into(),
            rule: vec![Rule {
                negate: false,
                condition: vec![Condition {
                    path: path.into(),
                    op: Op::Eq,
                    value: Value::String(value.to_string()),
                }],
            }],
            chain: vec![],
        }],
        &[],
    ).unwrap()
}

#[test]
fn test_route_filter_rejects() {
    let filter = eq_filter("message.message_type", "response");
    let route = build_test_route(
        "test", vec!["eth0".into()],
        filter, TransformChain::new(vec![]),
        vec![capture()],
    );
    // Send a query: filter wants responses only
    let event = make_query_event("eth0:v4", "_test._tcp.local.");
    assert!(captured(&route, &event).is_empty());
    assert!(matches!(route.process(&event), Ok(Processed::Rejected)));
}

#[test]
fn test_route_filter_passes() {
    let filter = eq_filter("message.message_type", "query");
    let route = build_test_route(
        "test", vec!["eth0".into()],
        filter, TransformChain::new(vec![]),
        vec![capture()],
    );
    let event = make_query_event("eth0:v4", "_test._tcp.local.");
    assert_eq!(captured(&route, &event).len(), 1);
}

#[test]
fn test_route_strips_link_local() {
    let transforms = build_chain(&[
        TransformConfig::RemoveRecords {
            section: "all".into(),
            record_type: Some("AAAA".into()),
            match_name: None,
            match_rdata: Some("fe80".into()),
        },
    ]).unwrap();

    let route = build_test_route(
        "test", vec!["eth0".into()],
        None, transforms,
        vec![capture()],
    );

    let event = make_response_event("eth0:v4");
    let results = captured(&route, &event);
    assert_eq!(results.len(), 1);

    // Parse the output and verify fe80 is gone
    let out_msg = Message::from_bytes(&results[0]).unwrap();
    assert_eq!(out_msg.answers().len(), 1); // PTR preserved
    // Additionals: A preserved, fe80 AAAA stripped
    for record in out_msg.additionals() {
        if record.record_type() == RecordType::AAAA {
            let rdata = format!("{}", record.data());
            assert!(!rdata.starts_with("fe80"), "fe80 should be stripped, got: {rdata}");
        }
    }
    assert_eq!(out_msg.additionals().len(), 1);
}

#[test]
fn test_route_drops_empty_packet_after_transform() {
    let transforms = build_chain(&[
        TransformConfig::RemoveServices {
            match_name: "_test".into(),
        },
    ]).unwrap();

    let route = build_test_route(
        "test", vec!["eth0".into()],
        None, transforms,
        vec![capture()],
    );

    // Query with only _test question: stripped, empty, dropped
    let event = make_query_event("eth0:v4", "_test._tcp.local.");
    assert!(captured(&route, &event).is_empty());
    assert!(matches!(route.process(&event), Ok(Processed::Emptied)));
}

#[test]
fn test_route_keeps_nonempty_after_partial_strip() {
    let transforms = build_chain(&[
        TransformConfig::RemoveServices {
            match_name: "_google".into(),
        },
    ]).unwrap();

    let route = build_test_route(
        "test", vec!["eth0".into()],
        None, transforms,
        vec![capture()],
    );

    // Build a packet with two questions: _google (stripped) and _tidal (kept)
    let mut msg = Message::new();
    msg.set_message_type(MessageType::Query);
    msg.add_query(question("_googlecast._tcp.local."));
    msg.add_query(question("_tidalconnect._tcp.local."));
    let event = event(msg.to_vec().unwrap(), [192, 168, 1, 100], "eth0:v4");

    let results = captured(&route, &event);
    assert_eq!(results.len(), 1);
    let out_msg = Message::from_bytes(&results[0]).unwrap();
    assert_eq!(out_msg.queries().len(), 1);
    assert_eq!(out_msg.queries()[0].name().to_string(), "_tidalconnect._tcp.local.");
}

#[test]
fn test_route_handles_invalid_packet() {
    let route = plain_route("test", "eth0");
    let event = event(vec![0xFF, 0xFF], [10, 0, 0, 1], "eth0:v4"); // garbage
    // Should not panic, just skip
    assert!(captured(&route, &event).is_empty());
    assert!(matches!(route.process(&event), Ok(Processed::Malformed)));
}

#[test]
fn test_route_emits_to_all_outputs() {
    let route = build_test_route(
        "test", vec!["eth0".into()],
        None, TransformChain::new(vec![]),
        vec![capture(), capture()],
    );
    let event = make_query_event("eth0:v4", "_test._tcp.local.");
    assert_eq!(captured(&route, &event).len(), 2);
}

#[test]
fn test_route_build_log_only() {
    let config = RouteConfig {
        name: "test".into(),
        input: vec!["eth0".into()],
        filter: None,
        transform: vec![],
        output: vec![OutputConfig::Log { format: "json".into() }],
    };
    let route = Route::build(&config, vec![]).unwrap();
    assert_eq!(route.name, "test");
    assert!(route.input_interfaces.contains("eth0"));
}

fn route_filter(rule: Vec<RouteFilterRule>) -> RouteFilterConfig {
    RouteFilterConfig {
        chain: vec![],
        mode: "any".into(),
        action: "show".into(),
        jq: vec![],
        rule,
    }
}

fn response_rule() -> RouteFilterRule {
    RouteFilterRule {
        name: None,
        negate: false,
        condition: vec![RouteFilterCondition {
            path: "message.message_type".into(),
            op: Op::Eq,
            value: Value::String("response".to_string()),
        }],
    }
}

#[test]
fn test_build_route_filter_with_rules() {
    let filter = build_route_filter(&route_filter(vec![response_rule()]), vec![]).unwrap();
    assert!(filter.is_some());
}

#[test]
fn test_build_route_filter_empty() {
    let filter = build_route_filter(&route_filter(vec![]), vec![]).unwrap();
    assert!(filter.is_none());
}

fn make_event(source_ip: [u8; 4]) -> PacketEvent {
    event(Message::new().to_vec().unwrap(), source_ip, "eth0:v4")
}

#[test]
fn test_dispatch_skips_local_address() {
    let local = [IpAddr::V4(u32::from_be_bytes([192, 168, 1, 1]))];
    let route = plain_route("test", "eth0");
    // Event from local address: should be skipped
    let event = make_event([192, 168, 1, 1]);
    assert!(dispatch_event(&event, &[route], &local).is_empty());
}

#[test]
fn test_dispatch_passes_non_local() {
    // no loop prevention
    let route = plain_route("test", "eth0");
    let event = make_event([10, 0, 0, 1]);
    let results = dispatch_event(&event, &[route], &[]);
    assert_eq!(results.len(), 1);
    let handed: Vec<usize> = results.into_iter().map(|r| packets(r.unwrap()).len()).collect();
    assert_eq!(handed, vec![1]);
}

#[test]
fn test_dispatch_to_multiple_routes() {
    let r1 = plain_route("r1", "eth0");
    let r2 = plain_route("r2", "eth0");
    let event = make_event([10, 0, 0, 1]);
    let results = dispatch_event(&event, &[r1, r2], &[]);
    let handed: Vec<usize> = results.into_iter().map(|r| packets(r.unwrap()).len()).collect();
    assert_eq!(handed, vec![1, 1]);
}

#[test]
fn filters_of_a_route_are_merged() {
    let chained = FilterConfig {
        chain: vec![],
        mode: "any".into(),
        action: "hide".into(),
        rule: vec![Rule {
            negate: false,
            condition: vec![Condition {
                path: "interface".into(),
                op: Op::StartsWith,
                value: Value::String("eth0".to_string()),
            }],
        }],
    };
    let engine = build_route_filter(&route_filter(vec![response_rule()]), vec![chained]).unwrap();
    let route = |engine| build_test_route(
        "r", vec!["eth0".into(), "eth1".into()], engine, TransformChain::new(vec![]), vec![capture()],
    );
    let merged = route(engine);
    assert!(captured(&merged, &make_response_event("eth0:v4")).is_empty());
    assert_eq!(captured(&merged, &make_response_event("eth1:v4")).len(), 1);
    assert!(captured(&merged, &make_query_event("eth1:v4", "a.local.")).is_empty());
}

#[test]
fn faults_of_a_route_come_in_order() {
    let mut config = RouteConfig {
        name: "r".into(),
        input: vec![],
        filter: Some(route_filter(vec![response_rule()])),
        transform: vec![TransformConfig::RemoveServices { match_name: "[".into() }],
        output: vec![],
    };
    config.filter.as_mut().unwrap().mode = "maybe".into();
    assert!(matches!(Route::build(&config, vec![]).err().unwrap(), Error::UnknownMode(_)));
    config.filter.as_mut().unwrap().mode = "all".into();
    assert!(matches!(Route::build(&config, vec![]).err().unwrap(), Error::Pattern(_)));
    config.transform.clear();
    assert!(Route::build(&config, vec![]).is_ok());
}

#[test]
fn the_mode_of_a_filter_without_rules_does_not_matter() {
    let mut filter = route_filter(vec![]);
    filter.mode = "maybe".into();
    assert!(build_route_filter(&filter, vec![]).unwrap().is_none());
}

#[test]
fn jq_filters_decide_in_a_route() {
    let mut filter = route_filter(vec![]);
    filter.jq = vec![".message.answers | any(.name | test(\"_tidal\"))".into()];
    let engine = build_route_filter(&filter, vec![]).unwrap();
    let route = build_test_route(
        "r", vec!["eth0".into()], engine, TransformChain::new(vec![]), vec![capture()],
    );
    assert_eq!(asked(&route, &make_response_event("eth0:v6")).len(), 1);
    assert!(asked(&route, &make_query_event("eth0:v6", "_tidal.local.")).is_empty());
}

/// The packets that a route hands to its outputs, once its jq programs, which
/// give one output each, were asked.
fn asked(route: &Route, event: &PacketEvent) -> Vec<Vec<u8>> {
    let text = match route.process(event).unwrap() {
        Processed::Undecided(text) => text,
        processed => return packets(processed),
    };
    let input = Val::deserialize(&mut serde_json::Deserializer::from_str(&text)).unwrap();
    let mut verdicts = vec![];
    while let Some(program) = route.next_program(&verdicts) {
        let filter = &program.filter().filter;
        let ctx = Ctx::<JustLut<Val>>::new(&filter.lut, Vars::new([]));
        let outputs: Vec<_> = filter.id.run((ctx, input.clone())).collect();
        assert_eq!(outputs.len(), 1);
        let mut hearing = Hearing::new();
        hearing.hear(Some(match &outputs[0] {
            Ok(Val::Bool(b)) => JqOutput::Bool(*b),
            _ => panic!("not a truth value"),
        }));
        verdicts.push(hearing.hear(None).unwrap());
    }
    packets(route.conclude(event, &verdicts).unwrap())
}

#[test]
fn packets_stay_undecided_until_their_programs_were_asked() {
    let filter = |programs: &[&str]| {
        let mut filter = route_filter(vec![]);
        filter.jq = programs.iter().map(|p| p.to_string()).collect();
        build_route_filter(&filter, vec![]).unwrap()
    };
    let route = |engine| {
        let (input, chain) = (vec!["eth0".into()], TransformChain::new(vec![]));
        build_test_route("r", input, engine, chain, vec![capture()])
    };
    let event = make_response_event("eth0:v4");
    let asking = route(filter(&["true", "true"]));
    match asking.process(&event).unwrap() {
        Processed::Undecided(text) => {
            assert!(text.starts_with("{\"interface\":\"eth0:v4\",\"message\":{"));
        }
        other => panic!("decided: {:?}", other),
    }
    assert!(asking.next_program(&[]).is_some() && asking.next_program(&[true]).is_some());
    assert!(matches!(asking.conclude(&event, &[true]), Ok(Processed::Undecided(_))));
    assert!(asking.next_program(&[true, true]).is_none());
    assert_eq!(packets(asking.conclude(&event, &[true, true]).unwrap()), vec![event.data.clone()]);
    assert!(matches!(asking.conclude(&event, &[true, false]), Ok(Processed::Rejected)));
    assert!(matches!(asking.conclude(&event, &[false]), Ok(Processed::Rejected)));
    // Nothing is asked about what the route does not take.
    let elsewhere = make_response_event("eth1:v4");
    assert!(matches!(asking.process(&elsewhere), Ok(Processed::Ignored)));
    assert!(matches!(asking.conclude(&elsewhere, &[true, true]), Ok(Processed::Ignored)));
    // Without programs nothing is left open.
    let plain = route(None);
    assert!(plain.next_program(&[]).is_none());
    assert!(matches!(plain.process(&event), Ok(Processed::Delivered(_))));
    let results = dispatch_event(&event, &[asking, plain], &[]);
    assert!(matches!(&results[0], Ok(Processed::Undecided(_))));
    assert!(matches!(&results[1], Ok(Processed::Delivered(_))));
}

#[test]
fn the_log_shows_the_transformed_message() {
    let config = RouteConfig {
        name: "r".into(),
        input: vec!["eth0".into()],
        filter: None,
        transform: vec![TransformConfig::SetTtl {
            section: "all".into(),
            value: 60,
            record_type: Some("PTR".into()),
        }],
        output: vec![
            OutputConfig::Log { format: "json".into() },
            OutputConfig::Reflect { interfaces: vec!["eth1".into()] },
        ],
    };
    let route = Route::build(&config, vec![]).unwrap();
    let event = make_response_event("eth0:v4");
    let deliveries = match route.process(&event).unwrap() {
        Processed::Delivered(d) => d,
        other => panic!("not delivered: {:?}", other),
    };
    assert_eq!(deliveries.len(), 2);
    match &deliveries[0] {
        Delivery::Line(line) => {
            let parsed: serde_json::Value = serde_json::from_str(line).unwrap();
            assert_eq!(parsed["message"]["answers"][0]["ttl"], 60);
            assert_eq!(parsed["message"]["additionals"][0]["ttl"], 120);
            assert_eq!(parsed["packet_size"], event.data.len());
        }
        other => panic!("no line: {:?}", other),
    }
    match &deliveries[1] {
        Delivery::Packet { interface, data } => {
            assert_eq!(interface, "eth1");
            assert_eq!(Message::from_bytes(data).unwrap().answers()[0].ttl(), 60);
        }
        other => panic!("no packet: {:?}", other),
    }
}

#[test]
fn labels_reach_the_routes_of_their_interface() {
    let route = plain_route("r", "eth0");
    assert!(route.listens_on(&label("eth0", false)));
    assert!(route.listens_on(&label("eth0", true)));
    assert!(route.listens_on("eth0"));
    assert!(!route.listens_on(&label("eth00", false)));
    // The base of a name with a colon of its own ends at that colon.
    let route = plain_route("r", "eth0:1");
    assert!(!route.listens_on(&label("eth0:1", false)));
    assert!(route.listens_on("eth0:1"));
}

#[test]
fn own_addresses_are_guarded_where_a_route_reflects() {
    let ifaces = [
        Interface { name: "a".into(), index: 1, addresses: vec![IpAddr::V4(1), IpAddr::V6(2)] },
        Interface { name: "b".into(), index: 2, addresses: vec![IpAddr::V4(3)] },
    ];
    let config = |output| Config {
        route: vec![RouteConfig {
            name: "r".into(), input: vec![], filter: None, transform: vec![], output: vec![output],
        }],
    };
    let reflecting = config(OutputConfig::Reflect { interfaces: vec![] });
    let wanted = vec![IpAddr::V4(1), IpAddr::V6(2), IpAddr::V4(3)];
    assert_eq!(guarded_addresses(&reflecting, &ifaces), wanted);
    let logging = config(OutputConfig::Log { format: "json".into() });
    assert!(guarded_addresses(&logging, &ifaces).is_empty());
}

#[test]
fn empty_packets_pass_where_nothing_transforms_them() {
    let route = build_test_route(
        "r", vec!["eth0".into()], None, TransformChain::new(vec![]),
        vec![capture(), Sink::Log(LogOutput::new("json"))],
    );
    assert_eq!(captured(&route, &make_event([10, 0, 0, 1])).len(), 2);
}
