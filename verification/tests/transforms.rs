use mdnssdpd::codes::record_type_code;
use mdnssdpd::config::TransformConfig;
use mdnssdpd::error::Error;
use mdnssdpd::message::{
    DnsHeader, DnsMessage, DnsQuery, DnsRecord, DomainName, MessageView, RecordData,
};
use mdnssdpd::transform::remove_records::{RemoveRecords, RemoveServices};
use mdnssdpd::transform::set_ttl::SetTtl;
use mdnssdpd::transform::{
    build_chain, filter_section, mutate_section, AnyTransform, Outcome, RecordMatcher, Section,
    Transform, TransformChain,
};

const A: u16 = 1;
const AAAA: u16 = 28;

fn name(text: &str) -> DomainName {
    let labels = text.trim_end_matches('.').split('.').map(|l| l.as_bytes().to_vec()).collect();
    DomainName::from_labels(labels).unwrap()
}

fn message() -> DnsMessage {
    DnsMessage {
        header: DnsHeader {
            id: 0,
            response: false,
            opcode: 0,
            authoritative: false,
            truncated: false,
            recursion_desired: false,
            recursion_available: false,
            authentic_data: false,
            checking_disabled: false,
            response_code: 0,
            query_count: 0,
            answer_count: 0,
            authority_count: 0,
            additional_count: 0,
        },
        queries: vec![],
        answers: vec![],
        authorities: vec![],
        additionals: vec![],
        edns: None,
    }
}

fn record(owner: &str, ttl: u32, data: RecordData) -> DnsRecord {
    DnsRecord { name: name(owner), dns_class: 1, ttl, data }
}

fn make_record(owner: &str) -> DnsRecord {
    record(owner, 120, RecordData::A(0x0a000001))
}

fn make_aaaa_record(owner: &str) -> DnsRecord {
    make_ipv6_record(owner, "fe80::1")
}

fn make_a_record(owner: &str, ip: [u8; 4]) -> DnsRecord {
    record(owner, 120, RecordData::A(u32::from_be_bytes(ip)))
}

fn make_ipv6_record(owner: &str, ip: &str) -> DnsRecord {
    let address = match ip {
        "fe80::1" => 0xfe80_0000_0000_0000_0000_0000_0000_0001,
        "fe80::521e:2dff:fe95:226a" => 0xfe80_0000_0000_0000_521e_2dff_fe95_226a,
        "2001:db8::1" => 0x2001_0db8_0000_0000_0000_0000_0000_0001,
        "::1" => 1,
        "::2" => 2,
        _ => panic!("no such address"),
    };
    let made = record(owner, 120, RecordData::Aaaa(address));
    assert_eq!(made.data.display().unwrap(), ip);
    made
}

fn query(text: &str) -> DnsQuery {
    DnsQuery { name: name(text), query_type: 12, query_class: 1 }
}

fn ptr(owner: &str, ttl: u32, target: &str) -> DnsRecord {
    record(owner, ttl, RecordData::Ptr(name(target)))
}

#[test]
fn test_section_parse_all_variants() {
    assert!(matches!(Section::parse("answers").unwrap(), Section::Answers));
    assert!(matches!(Section::parse("authorities").unwrap(), Section::Authorities));
    assert!(matches!(Section::parse("additionals").unwrap(), Section::Additionals));
    assert!(matches!(Section::parse("all").unwrap(), Section::All));
}

#[test]
fn test_section_parse_invalid() {
    assert!(Section::parse("unknown").is_err());
    assert!(Section::parse("").is_err());
    assert!(Section::parse("answres").is_err()); // typo
    assert!(Section::parse("ALL").is_err()); // case sensitive
    assert!(Section::parse("Answers").is_err()); // case sensitive
}

#[test]
fn test_section_parse_error_message() {
    let err = Section::parse("answres").unwrap_err();
    assert!(err.message().contains("answres"));
    assert!(err.message().contains("answers"));
}

#[test]
fn test_section_default_from_config_is_all() {
    // config.rs sets default_section_all() -> "all"
    // verify that "all" is accepted
    assert!(matches!(Section::parse("all").unwrap(), Section::All));
}

#[test]
fn test_matcher_no_filters() {
    let m = RecordMatcher::new(None, None, None).unwrap();
    assert!(m.matches(&make_record("test.local.")));
}

#[test]
fn test_matcher_record_type_only() {
    let m = RecordMatcher::new(Some("A"), None, None).unwrap();
    assert!(m.matches(&make_record("test.local.")));
    assert!(!m.matches(&make_aaaa_record("test.local.")));
}

#[test]
fn test_matcher_name_regex_only() {
    let m = RecordMatcher::new(None, Some("test"), None).unwrap();
    assert!(m.matches(&make_record("test.local.")));
    assert!(!m.matches(&make_record("other.local.")));
}

#[test]
fn test_matcher_rdata_regex_only() {
    let m = RecordMatcher::new(None, None, Some("fe80")).unwrap();
    assert!(m.matches(&make_aaaa_record("x.local.")));
    assert!(!m.matches(&make_record("x.local."))); // A record rdata is 10.0.0.1
}

#[test]
fn test_matcher_all_filters_combined() {
    let m = RecordMatcher::new(Some("AAAA"), Some("x\\.local"), Some("fe80")).unwrap();
    assert!(m.matches(&make_aaaa_record("x.local.")));
    // Wrong type
    assert!(!m.matches(&make_record("x.local.")));
}

#[test]
fn test_matcher_invalid_regex() {
    assert!(RecordMatcher::new(None, Some("[invalid"), None).is_err());
    assert!(RecordMatcher::new(None, None, Some("[invalid")).is_err());
}

#[test]
fn test_matcher_invalid_record_type() {
    assert!(RecordMatcher::new(Some("NOTARECORDTYPE"), None, None).is_err());
}

#[test]
fn test_filter_section_answers() {
    let mut msg = message();
    msg.answers.push(make_record("keep.local."));
    msg.answers.push(make_aaaa_record("remove.local."));
    msg.authorities.push(make_aaaa_record("authority.local."));

    filter_section(&mut msg, &Section::Answers, |r: &DnsRecord| r.record_type() == AAAA);

    assert_eq!(msg.answers.len(), 1);
    assert_eq!(msg.authorities.len(), 1); // untouched
}

#[test]
fn test_filter_section_authorities() {
    let mut msg = message();
    msg.answers.push(make_record("answer.local."));
    msg.authorities.push(make_record("ns1.local."));
    msg.authorities.push(make_record("ns2.local."));

    filter_section(&mut msg, &Section::Authorities, |_: &DnsRecord| true); // remove all

    assert_eq!(msg.answers.len(), 1); // untouched
    assert_eq!(msg.authorities.len(), 0);
}

#[test]
fn test_filter_section_additionals() {
    let mut msg = message();
    msg.additionals.push(make_record("a.local."));
    msg.additionals.push(make_record("b.local."));

    filter_section(&mut msg, &Section::Additionals, |_: &DnsRecord| true);

    assert_eq!(msg.additionals.len(), 0);
}

#[test]
fn test_filter_section_all() {
    let mut msg = message();
    msg.answers.push(make_record("a.local."));
    msg.authorities.push(make_record("ns.local."));
    msg.additionals.push(make_record("add.local."));

    filter_section(&mut msg, &Section::All, |_: &DnsRecord| true);

    assert_eq!(msg.answers.len(), 0);
    assert_eq!(msg.authorities.len(), 0);
    assert_eq!(msg.additionals.len(), 0);
}

#[test]
fn test_mutate_section_answers() {
    let mut msg = message();
    msg.answers.push(make_record("a.local."));
    msg.authorities.push(make_record("ns.local."));

    mutate_section(&mut msg, &Section::Answers, |r: &mut DnsRecord| r.ttl = 999);

    assert_eq!(msg.answers[0].ttl, 999);
    assert_eq!(msg.authorities[0].ttl, 120); // untouched
}

#[test]
fn test_mutate_section_all() {
    let mut msg = message();
    msg.answers.push(make_record("a.local."));
    msg.authorities.push(make_record("ns.local."));
    msg.additionals.push(make_record("add.local."));

    mutate_section(&mut msg, &Section::All, |r: &mut DnsRecord| r.ttl = 42);

    assert_eq!(msg.answers[0].ttl, 42);
    assert_eq!(msg.authorities[0].ttl, 42);
    assert_eq!(msg.additionals[0].ttl, 42);
}

#[test]
fn test_chain_empty() {
    let chain = TransformChain::new(vec![]);
    assert!(chain.is_empty());
    let mut msg = message();
    assert!(chain.apply(&mut msg).unwrap());
}

#[test]
fn test_chain_applies_in_order() {
    // Two SetTtl transforms: first sets 60, second sets 30
    let t1 = AnyTransform::SetTtl(SetTtl::new("answers", 60, None).unwrap());
    let t2 = AnyTransform::SetTtl(SetTtl::new("answers", 30, None).unwrap());
    let chain = TransformChain::new(vec![t1, t2]);
    assert!(!chain.is_empty());

    let mut msg = message();
    msg.answers.push(make_record("a.local."));
    chain.apply(&mut msg).unwrap();
    assert_eq!(msg.answers[0].ttl, 30); // second wins
}

#[test]
fn test_build_chain_empty() {
    let chain = build_chain(&[]).unwrap();
    assert!(chain.is_empty());
}

#[test]
fn test_build_chain_multiple() {
    let configs = vec![
        TransformConfig::SetTtl {
            section: "answers".into(),
            value: 60,
            record_type: None,
        },
        TransformConfig::RemoveRecords {
            section: "all".into(),
            record_type: Some("AAAA".into()),
            match_name: None,
            match_rdata: None,
        },
    ];
    let chain = build_chain(&configs).unwrap();
    assert!(!chain.is_empty());
}

#[test]
fn test_build_chain_remove_services() {
    let configs = vec![
        TransformConfig::RemoveServices {
            match_name: "_googlecast".into(),
        },
    ];
    let chain = build_chain(&configs).unwrap();
    assert!(!chain.is_empty());
}

struct DropTransform;
impl Transform for DropTransform {
    fn outcome(&self, _message: MessageView) -> Outcome { unreachable!("ghost") }
    fn apply(&self, _msg: &mut DnsMessage) -> Result<bool, Error> { Ok(false) }
}

struct PanicTransform;
impl Transform for PanicTransform {
    fn outcome(&self, _message: MessageView) -> Outcome { unreachable!("ghost") }
    fn apply(&self, _msg: &mut DnsMessage) -> Result<bool, Error> { panic!("should not be called") }
}

#[test]
fn test_chain_early_exit_on_false() {
    // First transform drops, second should never run
    let chain = TransformChain::new(vec![
        AnyTransform::Custom(Box::new(DropTransform)),
        AnyTransform::Custom(Box::new(PanicTransform)),
    ]);
    let mut msg = message();
    assert!(!chain.apply(&mut msg).unwrap());
}

#[test]
fn test_mutate_section_authorities() {
    let mut msg = message();
    msg.answers.push(make_record("a.local."));
    msg.authorities.push(make_record("ns.local."));

    mutate_section(&mut msg, &Section::Authorities, |r: &mut DnsRecord| r.ttl = 7);

    assert_eq!(msg.answers[0].ttl, 120); // untouched
    assert_eq!(msg.authorities[0].ttl, 7);
}

#[test]
fn test_mutate_section_additionals() {
    let mut msg = message();
    msg.answers.push(make_record("a.local."));
    msg.additionals.push(make_record("add.local."));

    mutate_section(&mut msg, &Section::Additionals, |r: &mut DnsRecord| r.ttl = 3);

    assert_eq!(msg.answers[0].ttl, 120); // untouched
    assert_eq!(msg.additionals[0].ttl, 3);
}

#[test]
fn test_remove_link_local_ipv6_from_answers() {
    let mut msg = message();
    msg.header.response = true;
    msg.answers.push(make_a_record("streamer.local.", [192, 168, 1, 100]));
    msg.answers.push(make_ipv6_record("streamer.local.", "fe80::1"));
    msg.answers.push(make_ipv6_record("streamer.local.", "2001:db8::1"));

    assert_eq!(msg.answers.len(), 3);

    let transform = RemoveRecords::new("answers", Some("AAAA"), None, Some("fe80")).unwrap();
    transform.apply(&mut msg).unwrap();

    assert_eq!(msg.answers.len(), 2);
    assert_eq!(msg.answers[0].record_type(), A);
    assert_eq!(msg.answers[1].record_type(), AAAA);
}

#[test]
fn test_remove_link_local_ipv6_from_all_sections() {
    let mut msg = message();
    msg.header.response = true;

    // PTR answer
    msg.answers.push(ptr("_tidalconnect._tcp.local.", 4500, "S3._tidalconnect._tcp.local."));

    // Additionals: A, global AAAA, link-local AAAA
    msg.additionals.push(make_a_record("streamer.local.", [192, 168, 37, 114]));
    msg.additionals.push(make_ipv6_record("streamer.local.", "2001:db8::1"));
    msg.additionals.push(make_ipv6_record("streamer.local.", "fe80::521e:2dff:fe95:226a"));

    assert_eq!(msg.additionals.len(), 3);

    let transform = RemoveRecords::new("all", Some("AAAA"), None, Some("fe80")).unwrap();
    transform.apply(&mut msg).unwrap();

    // PTR answer preserved
    assert_eq!(msg.answers.len(), 1);
    // A and global AAAA preserved, link-local stripped
    assert_eq!(msg.additionals.len(), 2);
    assert_eq!(msg.additionals[0].record_type(), A);
    assert_eq!(msg.additionals[1].record_type(), AAAA);
    // Verify the remaining AAAA is the global one, not link-local
    let rdata_str = msg.additionals[1].data.display().unwrap();
    assert!(
        rdata_str.contains("2001:"),
        "Remaining AAAA should be global, got: {rdata_str}"
    );
}

#[test]
fn test_remove_all_aaaa() {
    let mut msg = message();
    msg.answers.push(make_a_record("a.local.", [10, 0, 0, 1]));
    msg.answers.push(make_ipv6_record("a.local.", "::1"));
    msg.additionals.push(make_ipv6_record("b.local.", "::2"));

    let transform = RemoveRecords::new("all", Some("AAAA"), None, None).unwrap();
    transform.apply(&mut msg).unwrap();

    assert_eq!(msg.answers.len(), 1);
    assert_eq!(msg.additionals.len(), 0);
}

#[test]
fn test_remove_services_leaves_empty_message() {
    let mut msg = message();
    // A query for _googlecast only
    msg.queries.push(query("_googlecast._tcp.local."));

    let transform = RemoveServices::new("_googlecast").unwrap();
    transform.apply(&mut msg).unwrap();

    assert!(msg.queries.is_empty(), "Questions should be empty after stripping");
    assert!(msg.answers.is_empty());
    assert!(msg.authorities.is_empty());
    assert!(msg.additionals.is_empty());
}

#[test]
fn test_remove_services_partial_strip() {
    let mut msg = message();
    // Two questions: one google, one tidal
    msg.queries.push(query("_googlecast._tcp.local."));
    msg.queries.push(query("_tidalconnect._tcp.local."));

    let transform = RemoveServices::new("_googlecast").unwrap();
    transform.apply(&mut msg).unwrap();

    assert_eq!(msg.queries.len(), 1, "Only tidal question should remain");
    assert_eq!(
        msg.queries[0].name.text(),
        "_tidalconnect._tcp.local."
    );
}

#[test]
fn test_remove_from_authorities_only() {
    let mut msg = message();
    msg.answers.push(make_ipv6_record("a.local.", "::1"));
    msg.authorities.push(make_ipv6_record("ns.local.", "::2"));

    RemoveRecords::new("authorities", Some("AAAA"), None, None).unwrap()
        .apply(&mut msg).unwrap();

    assert_eq!(msg.answers.len(), 1); // untouched
    assert_eq!(msg.authorities.len(), 0);
}

#[test]
fn test_remove_from_additionals_only() {
    let mut msg = message();
    msg.answers.push(make_a_record("a.local.", [10, 0, 0, 1]));
    msg.additionals.push(make_ipv6_record("add.local.", "::1"));

    RemoveRecords::new("additionals", Some("AAAA"), None, None).unwrap()
        .apply(&mut msg).unwrap();

    assert_eq!(msg.answers.len(), 1);
    assert_eq!(msg.additionals.len(), 0);
}

#[test]
fn test_remove_no_matches() {
    let mut msg = message();
    msg.answers.push(make_a_record("a.local.", [10, 0, 0, 1]));

    RemoveRecords::new("all", Some("AAAA"), None, None).unwrap()
        .apply(&mut msg).unwrap();

    assert_eq!(msg.answers.len(), 1); // unchanged
}

#[test]
fn test_remove_by_name_regex_only() {
    let mut msg = message();
    msg.answers.push(make_a_record("google.local.", [10, 0, 0, 1]));
    msg.answers.push(make_a_record("tidal.local.", [10, 0, 0, 2]));

    RemoveRecords::new("answers", None, Some("google"), None).unwrap()
        .apply(&mut msg).unwrap();

    assert_eq!(msg.answers.len(), 1);
    assert!(msg.answers[0].name.text().contains("tidal"));
}

#[test]
fn test_remove_by_rdata_regex_only() {
    let mut msg = message();
    msg.answers.push(make_a_record("a.local.", [10, 0, 0, 1]));
    msg.answers.push(make_a_record("b.local.", [192, 168, 1, 1]));

    RemoveRecords::new("answers", None, None, Some("^10\\.")).unwrap()
        .apply(&mut msg).unwrap();

    assert_eq!(msg.answers.len(), 1);
    assert!(msg.answers[0].data.display().unwrap().contains("192.168"));
}

#[test]
fn test_remove_empty_message() {
    let mut msg = message();
    // Should not panic
    RemoveRecords::new("all", Some("A"), None, None).unwrap()
        .apply(&mut msg).unwrap();
    assert!(msg.answers.is_empty());
}

#[test]
fn test_remove_services_no_matches() {
    let mut msg = message();
    msg.queries.push(query("_tidal._tcp.local."));
    msg.answers.push(make_a_record("tidal.local.", [10, 0, 0, 1]));

    RemoveServices::new("_googlecast").unwrap().apply(&mut msg).unwrap();

    assert_eq!(msg.queries.len(), 1); // unchanged
    assert_eq!(msg.answers.len(), 1);
}

#[test]
fn test_remove_services_from_answers_and_additionals() {
    let mut msg = message();
    msg.answers.push(ptr("_googlecast._tcp.local.", 120, "device._googlecast._tcp.local."));
    msg.answers.push(make_a_record("tidal.local.", [10, 0, 0, 1]));
    msg.additionals.push(make_a_record("device._googlecast._tcp.local.", [10, 0, 0, 2]));

    RemoveServices::new("_googlecast").unwrap().apply(&mut msg).unwrap();

    assert_eq!(msg.answers.len(), 1); // only tidal remains
    assert_eq!(msg.additionals.len(), 0);
}

#[test]
fn test_set_ttl() {
    let mut msg = message();
    msg.answers.push(record("a.local.", 120, RecordData::A(0x0a000001)));
    msg.answers.push(record("b.local.", 300, RecordData::A(0x0a000001)));

    let transform = SetTtl::new("answers", 60, None).unwrap();
    transform.apply(&mut msg).unwrap();

    assert_eq!(msg.answers[0].ttl, 60);
    assert_eq!(msg.answers[1].ttl, 60);
}

#[test]
fn test_preserves_goodbye() {
    let mut msg = message();
    msg.answers.push(record("a.local.", 0, RecordData::A(0x0a000001))); // goodbye
    msg.answers.push(record("b.local.", 120, RecordData::A(0x0a000001)));

    let transform = SetTtl::new("answers", 60, None).unwrap();
    transform.apply(&mut msg).unwrap();

    assert_eq!(msg.answers[0].ttl, 0); // preserved
    assert_eq!(msg.answers[1].ttl, 60);
}

#[test]
fn ttls_of_one_type_only() {
    let mut msg = message();
    msg.answers.push(make_record("a.local."));
    msg.additionals.push(make_aaaa_record("a.local."));
    SetTtl::new("all", 5, Some("AAAA")).unwrap().apply(&mut msg).unwrap();
    assert_eq!(msg.answers[0].ttl, 120);
    assert_eq!(msg.additionals[0].ttl, 5);
    assert_eq!(msg.additionals[0].name.text(), "a.local.");
}

#[test]
fn setting_a_ttl_again_changes_nothing() {
    let mut msg = message();
    msg.answers.push(make_record("a.local."));
    let goodbye = SetTtl::new("all", 0, None).unwrap();
    goodbye.apply(&mut msg).unwrap();
    goodbye.apply(&mut msg).unwrap();
    assert_eq!(msg.answers[0].ttl, 0);
    // A goodbye is never overwritten, whoever made it.
    SetTtl::new("all", 9, None).unwrap().apply(&mut msg).unwrap();
    assert_eq!(msg.answers[0].ttl, 0);
}

#[test]
fn removal_keeps_order_and_is_idempotent() {
    let mut msg = message();
    for (owner, last) in [("a.x.", 1), ("b.y.", 2), ("c.x.", 3), ("d.y.", 4)] {
        msg.answers.push(make_a_record(owner, [10, 0, 0, last]));
    }
    let transform = RemoveRecords::new("answers", None, Some("\\.x\\.$"), None).unwrap();
    for _ in 0..2 {
        assert!(transform.apply(&mut msg).unwrap());
        let left: Vec<String> = msg.answers.iter().map(|r| r.name.text()).collect();
        assert_eq!(left, vec!["b.y.", "d.y."]);
    }
}

#[test]
fn faults_of_transforms() {
    let e = RemoveRecords::new("some", Some("XYZ"), None, None).err().unwrap();
    assert!(matches!(&e, Error::UnknownSection(s) if s == "some"));
    let e = RemoveRecords::new("all", Some("XYZ"), Some("["), None).err().unwrap();
    assert!(matches!(&e, Error::UnknownRecordType(s) if s == "XYZ"));
    assert_eq!(e.message(), "Unknown record type: XYZ");
    let e = RemoveServices::new("[").err().unwrap();
    assert!(matches!(&e, Error::Pattern(_)));
    assert!(e.message().starts_with("regex parse error"));
    let e = SetTtl::new("some", 1, Some("XYZ")).err().unwrap();
    assert!(matches!(&e, Error::UnknownRecordType(_)));
    let e = SetTtl::new("some", 1, None).err().unwrap();
    assert!(matches!(&e, Error::UnknownSection(_)));
}

#[test]
fn the_first_faulty_transform_is_reported() {
    let configs = vec![
        TransformConfig::RemoveServices { match_name: "ok".into() },
        TransformConfig::SetTtl { section: "nowhere".into(), value: 1, record_type: None },
        TransformConfig::RemoveServices { match_name: "[".into() },
    ];
    let e = build_chain(&configs).err().unwrap();
    assert!(matches!(&e, Error::UnknownSection(s) if s == "nowhere"));
}

#[test]
fn lower_case_record_types_are_unknown() {
    assert!(matches!(record_type_code("aaaa"), Err(Error::UnknownRecordType(_))));
    assert_eq!(record_type_code("AAAA").unwrap(), 28);
    assert_eq!(record_type_code("*").unwrap(), 255);
    assert_eq!(record_type_code("ANY").unwrap(), 255);
    assert!(record_type_code("OPT").is_err());
}

struct FailTransform;
impl Transform for FailTransform {
    fn outcome(&self, _message: MessageView) -> Outcome { unreachable!("ghost") }
    fn apply(&self, msg: &mut DnsMessage) -> Result<bool, Error> {
        msg.header.id = 7;
        Err(Error::Transform("broken".to_string()))
    }
}

#[test]
fn failures_end_a_chain() {
    let chain = TransformChain::new(vec![
        AnyTransform::SetTtl(SetTtl::new("all", 1, None).unwrap()),
        AnyTransform::Custom(Box::new(FailTransform)),
        AnyTransform::Custom(Box::new(PanicTransform)),
    ]);
    let mut msg = message();
    msg.answers.push(make_record("a.local."));
    let e = chain.apply(&mut msg).err().unwrap();
    assert_eq!(e.message(), "broken");
    assert_eq!((msg.header.id, msg.answers[0].ttl), (7, 1));
}

#[test]
fn data_for_people() {
    let srv = RecordData::Srv { priority: 1, weight: 2, port: 80, target: name("h.local.") };
    assert_eq!(srv.display().unwrap(), "1 2 80 h.local.");
    let mx = RecordData::Mx { preference: 10, exchange: name("m.local.") };
    assert_eq!(mx.display().unwrap(), "10 m.local.");
    let txt = RecordData::Txt(vec![b"a=1".to_vec(), b"b\xff".to_vec()]);
    assert_eq!(txt.display().unwrap(), "a=1b\u{fffd}");
    assert_eq!(RecordData::Ns(name("n.")).display().unwrap(), "n.");
    assert_eq!(RecordData::Cname(name("c.")).display().unwrap(), "c.");
    assert_eq!(RecordData::A(0xffffffff).display().unwrap(), "255.255.255.255");
    let codes: Vec<u16> = vec![srv, mx, txt].iter().map(|d| d.record_type()).collect();
    assert_eq!(codes, vec![33, 15, 16]);
}

#[test]
fn names_have_limits() {
    assert!(DomainName::from_labels(vec![]).is_some());
    assert!(DomainName::from_labels(vec![vec![]]).is_none());
    assert!(DomainName::from_labels(vec![vec![b'a'; 63]]).is_some());
    assert!(DomainName::from_labels(vec![vec![b'a'; 64]]).is_none());
    assert!(DomainName::from_labels(vec![vec![b'a'; 1]; 127]).is_some());
    assert!(DomainName::from_labels(vec![vec![b'a'; 1]; 128]).is_none());
    assert_eq!(DomainName::from_labels(vec![]).unwrap().text(), ".");
}
