use hickory_proto::op::{Edns, Message, MessageType, OpCode, Query, ResponseCode};
use hickory_proto::rr::rdata;
use hickory_proto::rr::{DNSClass, Name, RData, Record, RecordType};
use mdnssdpd::dns_util::{message_to_json, parse_message, parse_rdata_detail, RdataDetail};
use mdnssdpd::error::Error;
use mdnssdpd::filter::path::{parse_path, resolve};
use mdnssdpd::message::{DnsMessage, DnsRecord, DomainName, RecordData};
use mdnssdpd::value::Value;
use mdnssdpd::wire::{decode, encode};
use std::str::FromStr;

fn name(text: &str) -> Name {
    Name::from_str(text).unwrap()
}

fn own_name(text: &str) -> DomainName {
    let labels = text.trim_end_matches('.').split('.').map(|l| l.as_bytes().to_vec()).collect();
    DomainName::from_labels(labels).unwrap()
}

fn read(msg: &Message) -> DnsMessage {
    parse_message(&msg.to_vec().unwrap()).unwrap()
}

/// Build a response Message with cache-flush records, mimicking real mDNS traffic.
fn make_mdns_response_with_cache_flush() -> Message {
    let mut msg = Message::new();
    msg.set_message_type(MessageType::Response);
    msg.set_authoritative(true);

    // PTR record: normal class IN (no cache-flush on PTR per RFC 6762)
    let ptr = Record::from_rdata(
        name("_smb._tcp.local."),
        4500,
        RData::PTR(rdata::PTR(name("myhost._smb._tcp.local."))),
    );
    msg.add_answer(ptr);

    // SRV record: cache-flush set (class IN | 0x8000 = 0x8001)
    let mut srv = Record::from_rdata(
        name("myhost._smb._tcp.local."),
        120,
        RData::SRV(rdata::SRV::new(0, 0, 445, name("myhost.local."))),
    );
    srv.set_dns_class(DNSClass::from(0x8001u16));
    msg.add_answer(srv);

    // A record: cache-flush set
    let mut a = Record::from_rdata(
        name("myhost.local."),
        120,
        RData::A(rdata::A::new(192, 168, 1, 100)),
    );
    a.set_dns_class(DNSClass::from(0x8001u16));
    msg.add_answer(a);

    // AAAA record: cache-flush set, link-local
    let mut aaaa = Record::from_rdata(
        name("myhost.local."),
        120,
        RData::AAAA(rdata::AAAA("fe80::1".parse().unwrap())),
    );
    aaaa.set_dns_class(DNSClass::from(0x8001u16));
    msg.add_answer(aaaa);

    // AAAA record: cache-flush set, global
    let mut aaaa_global = Record::from_rdata(
        name("myhost.local."),
        120,
        RData::AAAA(rdata::AAAA("2001:db8::1".parse().unwrap())),
    );
    aaaa_global.set_dns_class(DNSClass::from(0x8001u16));
    msg.add_answer(aaaa_global);

    msg
}

#[test]
fn test_cache_flush_class_not_unknown() {
    let msg = read(&make_mdns_response_with_cache_flush());
    let entry = message_to_json(&msg, "eth0:v4", "10.0.0.1:5353", 200, "2024-01-01T00:00:00Z");

    // PTR: normal IN, no cache-flush
    assert_eq!(entry.message.answers[0].class, "IN");
    assert_eq!(entry.message.answers[0].cache_flush, None);

    // SRV: IN with cache-flush
    assert_eq!(entry.message.answers[1].class, "IN");
    assert_eq!(entry.message.answers[1].cache_flush, Some(true));

    // A: IN with cache-flush
    assert_eq!(entry.message.answers[2].class, "IN");
    assert_eq!(entry.message.answers[2].cache_flush, Some(true));

    // AAAA link-local: IN with cache-flush
    assert_eq!(entry.message.answers[3].class, "IN");
    assert_eq!(entry.message.answers[3].cache_flush, Some(true));

    // AAAA global: IN with cache-flush
    assert_eq!(entry.message.answers[4].class, "IN");
    assert_eq!(entry.message.answers[4].cache_flush, Some(true));
}

#[test]
fn test_cache_flush_class_not_unknown_after_roundtrip() {
    // Simulate what happens with a wire-format packet: serialize, parse, and again
    let msg = read(&make_mdns_response_with_cache_flush());
    let wire = encode(&msg).unwrap();
    let parsed = parse_message(&wire).unwrap();

    let entry = message_to_json(&parsed, "eth0:v4", "10.0.0.1:5353", wire.len(), "2024-01-01T00:00:00Z");

    // All records must show class "IN", not "UNKNOWN"
    for (i, answer) in entry.message.answers.iter().enumerate() {
        assert_eq!(
            answer.class, "IN",
            "Answer {} ({} {}) has class '{}' instead of 'IN'",
            i, answer.name, answer.record_type, answer.class
        );
    }

    // Cache-flush records (SRV, A, AAAA) must have cache_flush = Some(true)
    assert_eq!(entry.message.answers[0].cache_flush, None); // PTR
    for answer in &entry.message.answers[1..] {
        assert_eq!(
            answer.cache_flush,
            Some(true),
            "Record {} {} missing cache_flush flag",
            answer.name, answer.record_type
        );
    }
}

#[test]
fn test_question_class_with_qu_bit() {
    let mut msg = Message::new();
    msg.set_message_type(MessageType::Query);

    // Question with QU bit set (unicast-response requested)
    let mut query = Query::new();
    query.set_name(name("_smb._tcp.local."));
    query.set_query_type(RecordType::PTR);
    query.set_query_class(DNSClass::from(0x8001u16)); // IN + QU bit
    msg.add_query(query);

    // Normal question without QU bit
    let mut query2 = Query::new();
    query2.set_name(name("_http._tcp.local."));
    query2.set_query_type(RecordType::PTR);
    query2.set_query_class(DNSClass::IN);
    msg.add_query(query2);

    let msg = read(&msg);
    let entry = message_to_json(&msg, "eth0:v4", "10.0.0.1:5353", 100, "2024-01-01T00:00:00Z");

    // QU bit question: class should be "IN", prefer_unicast should be true
    assert_eq!(entry.message.questions[0].class, "IN");
    assert_eq!(entry.message.questions[0].prefer_unicast, Some(true));

    // Normal question: class should be "IN", no prefer_unicast
    assert_eq!(entry.message.questions[1].class, "IN");
    assert_eq!(entry.message.questions[1].prefer_unicast, None);
}

fn rich_message() -> Message {
    let mut msg = make_mdns_response_with_cache_flush();
    msg.set_id(0x1234).set_recursion_desired(true).set_authentic_data(true);
    msg.set_op_code(OpCode::Status).set_response_code(ResponseCode::NXDomain);
    msg.add_query(Query::query(Name::from_ascii("Some.Name.local.").unwrap(), RecordType::ANY));
    let mut add = |rdata: RData| {
        msg.add_additional(Record::from_rdata(name("x.local."), 7, rdata));
    };
    add(RData::TXT(rdata::TXT::from_bytes(vec![b"k=v", b"\xff"])));
    add(RData::CNAME(rdata::CNAME(name("c.local."))));
    add(RData::MX(rdata::MX::new(5, name("mx.local."))));
    add(RData::NS(rdata::NS(name("ns.local."))));
    add(RData::HINFO(rdata::HINFO::new("cpu".to_string(), "os".to_string())));
    msg.add_name_server(Record::from_rdata(
        name("local."),
        9,
        RData::SOA(rdata::SOA::new(name("a."), name("b."), 1, 2, 3, 4, 5)),
    ));
    let mut edns = Edns::new();
    edns.set_max_payload(1440);
    msg.set_edns(edns);
    msg
}

#[test]
fn decoded_messages_hold_what_the_packet_holds() {
    let m = read(&rich_message());
    assert_eq!(m.header.id, 0x1234);
    assert!(m.header.response && m.header.authoritative && m.header.recursion_desired);
    assert!(m.header.authentic_data && !m.header.checking_disabled && !m.header.truncated);
    assert_eq!((m.header.opcode, m.header.response_code), (2, 3));
    assert_eq!((m.header.query_count, m.header.answer_count), (1, 5));
    assert_eq!((m.header.authority_count, m.header.additional_count), (1, 6));
    assert_eq!(m.queries[0].name.text(), "Some.Name.local.");
    assert_eq!((m.queries[0].query_type, m.queries[0].query_class), (255, 1));
    let types: Vec<u16> = m.additionals.iter().map(|r| r.record_type()).collect();
    assert_eq!(types, vec![16, 5, 15, 2, 13]);
    assert!(matches!(m.additionals[4].data, RecordData::Foreign(_)));
    assert_eq!(m.additionals[0].ttl, 7);
    assert_eq!(m.authorities[0].record_type(), 6);
    assert!(m.edns.is_some());
}

#[test]
fn encoded_messages_are_read_by_others() {
    let original = rich_message();
    let packet = encode(&read(&original)).unwrap();
    assert_eq!(packet, original.to_vec().unwrap());
    let reread = Message::from_vec(&packet).unwrap();
    assert_eq!(reread.answers(), original.answers());
    assert_eq!(reread.additionals(), original.additionals());
    assert_eq!(reread.name_servers(), original.name_servers());
    assert_eq!(reread.extensions(), original.extensions());
}

#[test]
fn written_messages_are_read_back() {
    let mut original = rich_message();
    original.take_additionals();
    let mut m = read(&original);
    m.authorities.clear();
    m.edns = None;
    m.answers[1].name = own_name("A.b.c.local.");
    m.answers[2].dns_class = 0xffff;
    m.answers[2].ttl = u32::MAX;
    m.header.query_count = 99;
    let packet = encode(&m).unwrap();
    assert_eq!(packet[2] / 2 % 2, 0);
    let again = decode(&packet).unwrap();
    assert_eq!(again.header.id, m.header.id);
    assert_eq!((again.header.opcode, again.header.response_code), (2, 3));
    assert_eq!((again.header.query_count, again.header.answer_count), (1, 5));
    assert_eq!((again.header.authority_count, again.header.additional_count), (0, 0));
    assert_eq!(again.queries[0].name.labels(), m.queries[0].name.labels());
    assert_eq!(again.queries[0].query_type, m.queries[0].query_type);
    for (a, b) in again.answers.iter().zip(&m.answers) {
        assert_eq!(a.name.labels(), b.name.labels());
        assert_eq!((a.dns_class, a.ttl), (b.dns_class, b.ttl));
        assert_eq!(a.record_type(), b.record_type());
        assert_eq!(a.data.display(), b.data.display());
    }
    assert!(again.edns.is_none());
}

#[test]
fn service_targets_are_read_back_in_lower_case() {
    let mut m = read(&Message::new());
    let service = || RecordData::Srv {
        priority: 1,
        weight: 2,
        port: 445,
        target: own_name("My-HOST[Z].Local."),
    };
    let others = vec![
        service(),
        RecordData::Ptr(own_name("Some.Local.")),
        RecordData::Cname(own_name("My-HOST[Z].Local.")),
        RecordData::Ns(own_name("NS.Local.")),
        RecordData::Mx { preference: 3, exchange: own_name("MX.Local.") },
        RecordData::Txt(vec![b"Key=Value".to_vec()]),
    ];
    for data in others {
        m.answers.push(DnsRecord { name: own_name("Srv.Local."), dns_class: 1, ttl: 1, data });
    }
    m.additionals.push(DnsRecord { name: own_name("X."), dns_class: 1, ttl: 1, data: service() });
    let packet = encode(&m).unwrap();
    let again = decode(&packet).unwrap();
    let shown: Vec<String> = again.answers.iter().map(|r| r.data.display().unwrap()).collect();
    let wanted = vec![
        r"1 2 445 my-host\[z\].local.",
        "Some.Local.",
        r"My-HOST\[Z\].Local.",
        "NS.Local.",
        "3 MX.Local.",
        "Key=Value",
    ];
    assert_eq!(shown, wanted);
    assert_eq!(again.answers[0].name.text(), "Srv.Local.");
    assert_eq!(again.additionals[0].data.display().unwrap(), r"1 2 445 my-host\[z\].local.");
    // What was read back is written as the same packet.
    assert_eq!(encode(&again).unwrap(), packet);
}

#[test]
fn texts_without_entries_are_read_back_as_something_else() {
    let mut m = read(&Message::new());
    let txt = RecordData::Txt(vec![]);
    m.answers.push(DnsRecord { name: own_name("t.local."), dns_class: 1, ttl: 1, data: txt });
    let again = decode(&encode(&m).unwrap()).unwrap();
    assert_eq!(again.answers[0].record_type(), 16);
    assert!(matches!(again.answers[0].data, RecordData::Foreign(_)));
}

#[test]
fn what_does_not_fit_is_left_out_and_marked() {
    let mut m = read(&Message::new());
    for _ in 0..300 {
        let txt = RecordData::Txt(vec![vec![b'x'; 255]]);
        m.answers.push(DnsRecord { name: own_name("t.local."), dns_class: 1, ttl: 1, data: txt });
    }
    let packet = encode(&m).unwrap();
    assert_eq!(packet[2] / 2 % 2, 1);
    assert!(packet.len() <= 65535);
}

#[test]
fn garbage_is_malformed() {
    let e = decode(&[0xff, 0xff]).err().unwrap();
    assert!(matches!(e, Error::Malformed));
    assert_eq!(e.message(), "Failed to parse DNS message");
    assert!(parse_message(&[]).is_err());
}

#[test]
fn oversized_texts_cannot_be_encoded() {
    let mut m = read(&rich_message());
    m.additionals[0].data = RecordData::Txt(vec![vec![b'x'; 300]]);
    assert!(matches!(encode(&m), Err(Error::Encoding(_))));
}

#[test]
fn log_entry_of_a_rich_message() {
    let m = read(&rich_message());
    let entry = message_to_json(&m, "eth0:v4", "10.0.0.1:5353", 77, "now");
    assert_eq!(entry.message.message_type, "response");
    assert_eq!(entry.message.opcode, "STATUS");
    assert_eq!(entry.message.response_code, "Non-Existent Domain");
    assert_eq!(entry.message.questions[0].record_type, "ANY");
    assert_eq!(entry.message.answers[1].rdata, "myhost.local.:445 -> 0");
    assert_eq!(entry.message.additionals[0].rdata, "k=v; \u{fffd}");
    assert_eq!(entry.message.additionals[2].rdata, "5 mx.local.");
    assert_eq!(entry.message.additionals[1].rdata, "c.local.");
    assert_eq!(entry.message.additionals[3].record_type, "NS");
    assert!(entry.message.additionals[4].rdata.starts_with("HINFO("));
    assert_eq!(entry.message.additional_count, 6);
}

#[test]
fn log_entries_agree_as_value_and_as_text() {
    let m = read(&rich_message());
    let entry = message_to_json(&m, "eth\"0:v4", "10.0.0.1:5353", 77, "now");
    let value: serde_json::Value = serde_json::from_str(&entry.to_value().text()).unwrap();
    let text: serde_json::Value = serde_json::from_str(&entry.to_text()).unwrap();
    assert_eq!(value, text);
    assert_eq!(value["interface"], "eth\"0:v4");
    assert_eq!(value["message"]["answers"][1]["rdata_detail"]["port"], 445);
    assert_eq!(value["message"]["answers"][1]["cache_flush"], true);
    assert!(value["message"]["answers"][0].get("cache_flush").is_none());
    assert!(value["message"]["answers"][0].get("rdata_detail").is_none());
    assert_eq!(value["message"]["additionals"][0]["rdata_detail"]["entries"][0], "k=v");
    assert_eq!(value["message"]["additionals"][2]["rdata_detail"]["preference"], 5);
    assert!(entry.to_text().starts_with("{\"timestamp\":\"now\",\"interface\":\"eth\\\"0:v4\",\"source\":"));
}

fn found(value: &Value, path: &str) -> Vec<String> {
    resolve(value, &parse_path(path)).iter().map(|v| v.text()).collect()
}

#[test]
fn paths_find_what_is_logged() {
    let m = read(&rich_message());
    let value = message_to_json(&m, "eth0:v4", "10.0.0.1:5353", 77, "now").to_value();
    assert_eq!(found(&value, "interface"), vec!["\"eth0:v4\""]);
    assert_eq!(found(&value, "packet_size"), vec!["77"]);
    assert_eq!(found(&value, "message.message_type"), vec!["\"response\""]);
    assert_eq!(found(&value, "message.authoritative"), vec!["true"]);
    assert_eq!(found(&value, "message.questions[*].name"), vec!["\"Some.Name.local.\""]);
    let types = vec!["\"PTR\"", "\"SRV\"", "\"A\"", "\"AAAA\"", "\"AAAA\""];
    assert_eq!(found(&value, "message.answers[*].record_type"), types);
    assert_eq!(found(&value, "message.answers[*].rdata_detail.port"), vec!["445"]);
    assert!(found(&value, "message.nothing").is_empty());
}

#[test]
fn log_entries_stay_on_one_line() {
    let mut m = read(&Message::new());
    let txt = RecordData::Txt(vec![b"a\nb\"\\\x01\x1f\x7f\t".to_vec()]);
    m.answers.push(DnsRecord { name: own_name("t.local."), dns_class: 1, ttl: 1, data: txt });
    let line = message_to_json(&m, "e\nth", "s\r", 1, "t\u{8}\u{c}").to_text();
    assert!(!line.contains('\n'));
    assert!(line.contains("\"timestamp\":\"t\\b\\f\",\"interface\":\"e\\nth\",\"source\":\"s\\r\""));
    let entry = "a\\nb\\\"\\\\\\u0001\\u001f\u{7f}\\t";
    assert!(line.contains(&format!("{{\"entries\":[\"{}\"]}}", entry)));
}

#[test]
fn parts_of_record_data() {
    let (text, detail) = parse_rdata_detail(&RecordData::A(0xc0a80101));
    assert_eq!(text, "192.168.1.1");
    assert!(detail.is_none());
    let (text, detail) = parse_rdata_detail(&RecordData::Aaaa(1));
    assert_eq!(text, "::1");
    assert!(detail.is_none());
    let srv = RecordData::Srv { priority: 1, weight: 2, port: 3, target: own_name("t.local.") };
    let (text, detail) = parse_rdata_detail(&srv);
    assert_eq!(text, "t.local.:3 -> 1");
    let detail = detail.unwrap();
    assert!(matches!(&detail, RdataDetail::Srv { priority: 1, weight: 2, port: 3, target } if target == "t.local."));
    assert_eq!(detail.to_text(), "{\"port\":3,\"priority\":1,\"target\":\"t.local.\",\"weight\":2}");
    assert_eq!(detail.to_value().text(), detail.to_text());
    assert_eq!(RdataDetail::Opt.to_text(), "{\"type\":\"OPT\"}");
}

#[test]
fn option_records_outside_their_place_are_shown() {
    let mut msg = Message::new();
    let mut opt = rdata::OPT::default();
    opt.insert(rdata::opt::EdnsOption::Unknown(65001, vec![1, 2]));
    msg.add_answer(Record::from_rdata(Name::root(), 0, RData::OPT(opt)));
    let m = read(&msg);
    let entry = message_to_json(&m, "i", "s", 0, "t");
    assert_eq!(entry.message.answers[0].rdata, "OPT");
    assert_eq!(entry.message.answers[0].record_type, "OPT");
    assert!(matches!(entry.message.answers[0].rdata_detail, Some(RdataDetail::Opt)));
    assert!(m.answers[0].data.display().is_none());
}

#[test]
fn unknown_codes_are_shown() {
    let mut msg = Message::new();
    msg.set_op_code(OpCode::Unknown(9)).set_response_code(ResponseCode::Unknown(12));
    let mut query = Query::query(name("a."), RecordType::Unknown(7777));
    query.set_query_class(DNSClass::from(77u16));
    msg.add_query(query);
    let entry = message_to_json(&read(&msg), "i", "s", 0, "t");
    assert_eq!(entry.message.message_type, "query");
    assert_eq!(entry.message.opcode, "Unknown opcode (9)");
    assert_eq!(entry.message.response_code, "Unknown response code");
    assert_eq!(entry.message.questions[0].record_type, "Unknown");
    assert_eq!(entry.message.questions[0].class, "UNKNOWN");
}
