use mdnssdpd::config::OutputConfig;
use mdnssdpd::message::{DnsHeader, DnsMessage, DnsRecord, DomainName, RecordData};
use mdnssdpd::output::log::LogOutput;
use mdnssdpd::output::{build_outputs, Delivery, OutputContext, Sink};
use mdnssdpd::receiver::{IpAddr, PacketEvent, SocketAddr};
use mdnssdpd::wire::encode;

fn make_test_context() -> (PacketEvent, DnsMessage, Vec<u8>) {
    let labels = vec![b"test".to_vec(), b"local".to_vec()];
    let msg = DnsMessage {
        header: DnsHeader {
            id: 0,
            response: true,
            opcode: 0,
            authoritative: true,
            truncated: false,
            recursion_desired: false,
            recursion_available: false,
            authentic_data: false,
            checking_disabled: false,
            response_code: 0,
            query_count: 0,
            answer_count: 0,
            authority_count: 0,
            additional_count: 0,
        },
        queries: vec![],
        answers: vec![DnsRecord {
            name: DomainName::from_labels(labels).unwrap(),
            dns_class: 1,
            ttl: 120,
            data: RecordData::A(u32::from_be_bytes([10, 0, 0, 1])),
        }],
        authorities: vec![],
        additionals: vec![],
        edns: None,
    };
    let wire = encode(&msg).unwrap();
    let event = PacketEvent {
        data: wire.clone(),
        source: SocketAddr {
            ip: IpAddr::V4(u32::from_be_bytes([192, 168, 1, 1])),
            port: 5353,
            scope_id: 0,
        },
        interface: "eth0:v4".to_string(),
        timestamp: "2024-01-01T00:00:00Z".to_string(),
    };
    (event, msg, wire)
}

#[test]
fn test_log_output_new() {
    let log = LogOutput::new("json");
    assert_eq!(log.format, "json");
    assert_eq!(log.name(), "log");
}

#[test]
fn test_format_entry_json() {
    let (event, msg, wire) = make_test_context();
    let log = LogOutput::new("json");
    let ctx = OutputContext { event: &event, msg: &msg, wire_bytes: &wire };
    let json_str = log.format_entry(&ctx).unwrap();

    let parsed: serde_json::Value = serde_json::from_str(&json_str).unwrap();
    assert_eq!(parsed["interface"], "eth0:v4");
    assert_eq!(parsed["source"], "192.168.1.1:5353");
    assert_eq!(parsed["message"]["message_type"], "response");
    assert_eq!(parsed["message"]["authoritative"], true);
    assert_eq!(parsed["message"]["answers"][0]["record_type"], "A");
    assert_eq!(parsed["message"]["answers"][0]["rdata"], "10.0.0.1");
}

#[test]
fn test_format_entry_unknown_format_still_works() {
    let (event, msg, wire) = make_test_context();
    let log = LogOutput::new("unknown_format");
    let ctx = OutputContext { event: &event, msg: &msg, wire_bytes: &wire };
    // Should still produce valid JSON (fallback)
    let json_str = log.format_entry(&ctx).unwrap();
    let parsed: serde_json::Value = serde_json::from_str(&json_str).unwrap();
    assert!(parsed["timestamp"].is_string());
}

#[test]
fn test_format_entry_contains_all_fields() {
    let (event, msg, wire) = make_test_context();
    let log = LogOutput::new("json");
    let ctx = OutputContext { event: &event, msg: &msg, wire_bytes: &wire };
    let json_str = log.format_entry(&ctx).unwrap();
    let parsed: serde_json::Value = serde_json::from_str(&json_str).unwrap();

    assert!(parsed["timestamp"].is_string());
    assert!(parsed["interface"].is_string());
    assert!(parsed["source"].is_string());
    assert!(parsed["packet_size"].is_number());
    assert!(parsed["message"].is_object());
    assert!(parsed["message"]["questions"].is_array());
    assert!(parsed["message"]["answers"].is_array());
    assert!(parsed["message"]["authorities"].is_array());
    assert!(parsed["message"]["additionals"].is_array());
}

#[test]
fn the_whole_log_line() {
    let (event, msg, wire) = make_test_context();
    let ctx = OutputContext { event: &event, msg: &msg, wire_bytes: &wire };
    let line = LogOutput::new("json").format_entry(&ctx).unwrap();
    let wanted = format!(
        "{{\"timestamp\":\"2024-01-01T00:00:00Z\",\"interface\":\"eth0:v4\",\"source\":\"192.168.1.1:5353\",\
         \"packet_size\":{},\"message\":{{\"id\":0,\"message_type\":\"response\",\"opcode\":\"QUERY\",\
         \"authoritative\":true,\"truncated\":false,\"recursion_desired\":false,\"recursion_available\":false,\
         \"response_code\":\"No Error\",\"question_count\":0,\"answer_count\":0,\"authority_count\":0,\
         \"additional_count\":0,\"questions\":[],\"answers\":[{{\"name\":\"test.local.\",\"record_type\":\"A\",\
         \"class\":\"IN\",\"ttl\":120,\"rdata\":\"10.0.0.1\"}}],\"authorities\":[],\"additionals\":[]}}}}",
        wire.len()
    );
    assert_eq!(line, wanted);
}

#[test]
fn sinks_of_a_configuration() {
    let outputs = build_outputs(&[
        OutputConfig::Log { format: "json".into() },
        OutputConfig::Reflect { interfaces: vec!["eth0".into(), "eth1".into()] },
        OutputConfig::Reflect { interfaces: vec![] },
    ]);
    assert_eq!(outputs.len(), 3);
    assert!(matches!(&outputs[0], Sink::Log(log) if log.format == "json"));
    assert!(matches!(&outputs[1], Sink::Reflect(i) if i == "eth0"));
    assert!(matches!(&outputs[2], Sink::Reflect(i) if i == "eth1"));
}

#[test]
fn sinks_are_handed_lines_and_packets() {
    let (event, msg, _) = make_test_context();
    let bytes = [1, 2, 3];
    let ctx = OutputContext { event: &event, msg: &msg, wire_bytes: &bytes };
    let line = Sink::Log(LogOutput::new("json")).deliver(&ctx).unwrap();
    assert!(matches!(line, Delivery::Line(l) if l.starts_with("{\"timestamp\"")));
    let packet = Sink::Reflect("eth7".to_string()).deliver(&ctx).unwrap();
    assert!(matches!(packet, Delivery::Packet { interface, data } if interface == "eth7" && data == vec![1, 2, 3]));
}
