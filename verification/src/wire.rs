//! DNS messages on the wire.
//!
//! Packets are read and written by `hickory_proto`. What it reads is taken
//! over piece by piece into the types of this library, and what it writes is
//! put together from them piece by piece.
use hickory_proto::op::{MessageType, OpCode, Query, ResponseCode};
use hickory_proto::rr::{rdata, Name, RData, Record};
use vstd::prelude::*;

use crate::error::{Error, Fault};
use crate::message::{
    self, DataView, DnsHeader, DnsMessage, DnsQuery, DnsRecord, DomainName, ForeignData,
    MessageView, RecordData, RecordView,
};

verus! {

/// The message type of `hickory_proto`.
#[verifier::external_type_specification]
#[verifier::external_body]
pub struct ExMessage(hickory_proto::op::Message);

/// The message that a packet holds, if it holds one.
pub uninterp spec fn wire_message(packet: Seq<u8>) -> Option<MessageView>;

/// The packet that holds a message, or why none does.
pub uninterp spec fn wire_packet(message: MessageView) -> Result<Seq<u8>, Seq<char>>;

/// What a message of `hickory_proto` holds.
pub uninterp spec fn contents(message: hickory_proto::op::Message) -> MessageView;

/// A record whose data this library looks into. A text record has entries.
pub open spec fn is_plain_record(record: RecordView) -> bool {
    match record.data {
        DataView::Foreign(_) => false,
        DataView::Txt(entries) => entries.len() > 0,
        _ => true,
    }
}

/// All records are plain.
pub open spec fn are_plain_records(records: Seq<RecordView>) -> bool {
    forall|i: int| 0 <= i < records.len() ==> is_plain_record(#[trigger] records[i])
}

/// A message of plain records, without an extension, whose codes fit into the
/// four bits that a packet has for each.
pub open spec fn is_plain(message: MessageView) -> bool {
    &&& message.header.opcode < 16
    &&& message.header.response_code < 16
    &&& are_plain_records(message.answers)
    &&& are_plain_records(message.authorities)
    &&& are_plain_records(message.additionals)
    &&& message.edns is None
}

/// A packet is marked as truncated.
pub open spec fn is_marked_truncated(packet: Seq<u8>) -> bool {
    packet[2] / 2 % 2 == 1
}

/// A message whose header counts what is in it.
pub open spec fn counted(message: MessageView) -> MessageView {
    MessageView {
        header: DnsHeader {
            query_count: message.queries.len() as u16,
            answer_count: message.answers.len() as u16,
            authority_count: message.authorities.len() as u16,
            additional_count: message.additionals.len() as u16,
            ..message.header
        },
        ..message
    }
}

/// A byte, with an upper case letter of ASCII turned to lower case.
pub open spec fn lowered_byte(byte: u8) -> u8 {
    if 65 <= byte <= 90 {
        (byte + 32) as u8
    } else {
        byte
    }
}

/// A name in lower case.
pub open spec fn lowered_name(labels: Seq<Seq<u8>>) -> Seq<Seq<u8>> {
    labels.map_values(|label: Seq<u8>| label.map_values(|byte: u8| lowered_byte(byte)))
}

/// A record with the target of a service in lower case.
pub open spec fn lowered_record(record: RecordView) -> RecordView {
    match record.data {
        DataView::Srv { priority, weight, port, target } => RecordView {
            data: DataView::Srv { priority, weight, port, target: lowered_name(target) },
            ..record
        },
        _ => record,
    }
}

/// Records with the targets of services in lower case.
pub open spec fn lowered_records(records: Seq<RecordView>) -> Seq<RecordView> {
    records.map_values(|record: RecordView| lowered_record(record))
}

/// A message with the targets of services in lower case, as packets have them.
pub open spec fn lowered(message: MessageView) -> MessageView {
    MessageView {
        answers: lowered_records(message.answers),
        authorities: lowered_records(message.authorities),
        additionals: lowered_records(message.additionals),
        ..message
    }
}

/// A name has no upper case letter of ASCII.
pub open spec fn is_lower_name(labels: Seq<Seq<u8>>) -> bool {
    forall|i: int, j: int|
        0 <= i < labels.len() && 0 <= j < labels[i].len() ==> !(65 <= #[trigger] labels[i][j] <= 90)
}

/// The targets of services among some records have no upper case letter.
pub open spec fn have_lower_targets(records: Seq<RecordView>) -> bool {
    forall|i: int|
        0 <= i < records.len() ==> match (#[trigger] records[i]).data {
            DataView::Srv { target, .. } => is_lower_name(target),
            _ => true,
        }
}

/// Packets have a message as it is where no target of a service has an upper
/// case letter.
pub proof fn lower_targets_stay(message: MessageView)
    requires
        have_lower_targets(message.answers),
        have_lower_targets(message.authorities),
        have_lower_targets(message.additionals),
    ensures
        lowered(message) == message,
{
    lemma_lower_records_stay(message.answers);
    lemma_lower_records_stay(message.authorities);
    lemma_lower_records_stay(message.additionals);
}

proof fn lemma_lower_records_stay(records: Seq<RecordView>)
    requires
        have_lower_targets(records),
    ensures
        lowered_records(records) == records,
{
    assert forall|i: int| 0 <= i < records.len() implies lowered_record(#[trigger] records[i])
        == records[i] by {
        if let DataView::Srv { target, .. } = records[i].data {
            assert forall|j: int| 0 <= j < target.len() implies #[trigger] lowered_name(target)[j]
                == target[j] by {
                assert(lowered_name(target)[j] =~= target[j]);
            }
            assert(lowered_name(target) =~= target);
        }
    }
    assert(lowered_records(records) =~= records);
}

/// A record whose data is that of `hickory_proto`.
struct RawRecord {
    name: DomainName,
    dns_class: u16,
    ttl: u32,
    data: hickory_proto::rr::RData,
}

impl View for RawRecord {
    type V = RecordView;

    closed spec fn view(&self) -> RecordView {
        RecordView {
            name: self.name@,
            dns_class: self.dns_class,
            ttl: self.ttl,
            data: message::data_contents(self.data),
        }
    }
}

/// What some records hold.
spec fn raw_view(records: Seq<RawRecord>) -> Seq<RecordView> {
    records.map_values(|r: RawRecord| r@)
}

// --- Reading ---

/// `hickory_proto::op::Message::from_vec`. Whether it reads a message, and
/// which, depends on the packet alone.
#[verifier::external_body]
fn read_packet(packet: &[u8]) -> (r: Option<hickory_proto::op::Message>)
    ensures
        match r {
            Some(message) => wire_message(packet@) == Some(contents(message)),
            None => wire_message(packet@) is None,
        },
{
    hickory_proto::op::Message::from_vec(packet).ok()
}

/// `hickory_proto::op::Message::header`, field by field.
#[verifier::external_body]
fn header_of(message: &hickory_proto::op::Message) -> (r: DnsHeader)
    ensures
        r == contents(*message).header,
{
    let h = message.header();
    let (query_count, answer_count) = (h.query_count(), h.answer_count());
    DnsHeader {
        id: h.id(), response: h.message_type() == MessageType::Response,
        opcode: h.op_code().into(), authoritative: h.authoritative(), truncated: h.truncated(),
        recursion_desired: h.recursion_desired(), recursion_available: h.recursion_available(),
        authentic_data: h.authentic_data(), checking_disabled: h.checking_disabled(),
        response_code: h.response_code().into(), query_count, answer_count,
        authority_count: h.name_server_count(), additional_count: h.additional_count(),
    }
}

/// `hickory_proto::op::Message::queries`. The names that `hickory_proto` reads
/// fit, as its `Name::read` sees to.
#[verifier::external_body]
fn queries_of(message: &hickory_proto::op::Message) -> (r: Vec<DnsQuery>)
    ensures
        message::queries_view(r@) == contents(*message).queries,
{
    message.queries().iter().map(|q| DnsQuery {
        name: DomainName { labels: q.name().iter().map(|l| l.to_vec()).collect() },
        query_type: q.query_type().into(),
        query_class: q.query_class().into(),
    }).collect()
}

/// `hickory_proto::op::Message::answers`. The names fit, as in `queries_of`.
#[verifier::external_body]
fn answers_of(message: &hickory_proto::op::Message) -> (r: Vec<RawRecord>)
    ensures
        raw_view(r@) == contents(*message).answers,
{
    message.answers().iter().map(|r| RawRecord {
        name: DomainName { labels: r.name().iter().map(|l| l.to_vec()).collect() },
        dns_class: r.dns_class().into(),
        ttl: r.ttl(),
        data: r.data().clone(),
    }).collect()
}

/// `hickory_proto::op::Message::name_servers`. The names fit, as in
/// `queries_of`.
#[verifier::external_body]
fn authorities_of(message: &hickory_proto::op::Message) -> (r: Vec<RawRecord>)
    ensures
        raw_view(r@) == contents(*message).authorities,
{
    message.name_servers().iter().map(|r| RawRecord {
        name: DomainName { labels: r.name().iter().map(|l| l.to_vec()).collect() },
        dns_class: r.dns_class().into(),
        ttl: r.ttl(),
        data: r.data().clone(),
    }).collect()
}

/// `hickory_proto::op::Message::additionals`. The names fit, as in
/// `queries_of`.
#[verifier::external_body]
fn additionals_of(message: &hickory_proto::op::Message) -> (r: Vec<RawRecord>)
    ensures
        raw_view(r@) == contents(*message).additionals,
{
    message.additionals().iter().map(|r| RawRecord {
        name: DomainName { labels: r.name().iter().map(|l| l.to_vec()).collect() },
        dns_class: r.dns_class().into(),
        ttl: r.ttl(),
        data: r.data().clone(),
    }).collect()
}

/// `hickory_proto::op::Message::extensions`.
#[verifier::external_body]
fn edns_of(message: &hickory_proto::op::Message) -> (r: Option<hickory_proto::op::Edns>)
    ensures
        r == contents(*message).edns,
{
    message.extensions().clone()
}

/// The data of `hickory_proto::rr::RData` where it is an address or a name.
/// The names fit, as in `queries_of`. Data that is of no type of this library
/// is its own contents.
#[verifier::external_body]
fn simple_data(data: &hickory_proto::rr::RData) -> (r: Option<RecordData>)
    ensures
        match r {
            Some(d) => d@ == message::data_contents(*data),
            None => match message::data_contents(*data) {
                DataView::A(_) | DataView::Aaaa(_) => false,
                DataView::Ptr(_) | DataView::Cname(_) | DataView::Ns(_) => false,
                DataView::Foreign(d) => d == *data,
                _ => true,
            },
        },
{
    let name = |n: &Name| DomainName { labels: n.iter().map(|l| l.to_vec()).collect() };
    match data {
        RData::A(d) => Some(RecordData::A(d.0.into())),
        RData::AAAA(d) => Some(RecordData::Aaaa(d.0.into())),
        RData::PTR(d) => Some(RecordData::Ptr(name(&d.0))),
        RData::CNAME(d) => Some(RecordData::Cname(name(&d.0))),
        RData::NS(d) => Some(RecordData::Ns(name(&d.0))),
        _ => None,
    }
}

/// The data of `hickory_proto::rr::RData` where it is of several parts. The
/// names fit, as in `queries_of`.
#[verifier::external_body]
fn structured_data(data: &hickory_proto::rr::RData) -> (r: Option<RecordData>)
    ensures
        match r {
            Some(d) => d@ == message::data_contents(*data),
            None => match message::data_contents(*data) {
                DataView::Srv { .. } | DataView::Txt(_) | DataView::Mx { .. } => false,
                _ => true,
            },
        },
{
    let name = |n: &Name| DomainName { labels: n.iter().map(|l| l.to_vec()).collect() };
    match data {
        RData::SRV(d) => Some(RecordData::Srv {
            priority: d.priority(), weight: d.weight(), port: d.port(), target: name(d.target()),
        }),
        RData::TXT(d) => Some(RecordData::Txt(d.iter().map(|t| t.to_vec()).collect())),
        RData::MX(d) => Some(RecordData::Mx {
            preference: d.preference(), exchange: name(d.exchange()),
        }),
        _ => None,
    }
}

/// Takes over the data of a record.
fn read_data(data: hickory_proto::rr::RData) -> (r: RecordData)
    ensures
        r@ == message::data_contents(data),
{
    if let Some(d) = simple_data(&data) {
        return d;
    }
    if let Some(d) = structured_data(&data) {
        return d;
    }
    RecordData::Foreign(ForeignData::new(data))
}

/// Takes over some records.
fn read_records(raw: Vec<RawRecord>) -> (r: Vec<DnsRecord>)
    ensures
        message::records_view(r@) == raw_view(raw@),
{
    let ghost wanted = raw_view(raw@);
    let mut records: Vec<DnsRecord> = Vec::new();
    for record in it: raw
        invariant
            wanted == raw_view(it.seq()),
            message::records_view(records@) == wanted.take(it.index() as int),
    {
        let ghost so_far = records@;
        records.push(
            DnsRecord {
                name: record.name,
                dns_class: record.dns_class,
                ttl: record.ttl,
                data: read_data(record.data),
            },
        );
        proof {
            assert(message::records_view(records@) =~= message::records_view(so_far).push(record@));
        }
    }
    records
}

/// The message that a packet holds.
pub fn decode(packet: &[u8]) -> (r: Result<DnsMessage, Error>)
    ensures
        match r {
            Ok(message) => wire_message(packet@) == Some(message@),
            Err(e) => wire_message(packet@) is None && e@ == Fault::Malformed,
        },
{
    match read_packet(packet) {
        Some(m) => Ok(
            DnsMessage {
                header: header_of(&m),
                queries: queries_of(&m),
                answers: read_records(answers_of(&m)),
                authorities: read_records(authorities_of(&m)),
                additionals: read_records(additionals_of(&m)),
                edns: edns_of(&m),
            },
        ),
        None => Err(Error::Malformed),
    }
}

// --- Writing ---

/// `hickory_proto::op::Message::new` and its setters for the header. Codes are
/// kept by the types that stand for them.
#[verifier::external_body]
fn new_message(h: &DnsHeader) -> (r: hickory_proto::op::Message)
    ensures
        contents(r) == (MessageView {
            header: *h,
            queries: Seq::empty(),
            answers: Seq::empty(),
            authorities: Seq::empty(),
            additionals: Seq::empty(),
            edns: None,
        }),
{
    let mut m = hickory_proto::op::Message::new();
    m.set_id(h.id).set_op_code(OpCode::from_u8(h.opcode)).set_authoritative(h.authoritative);
    m.set_message_type(if h.response { MessageType::Response } else { MessageType::Query });
    m.set_truncated(h.truncated).set_recursion_desired(h.recursion_desired);
    m.set_recursion_available(h.recursion_available).set_authentic_data(h.authentic_data);
    m.set_checking_disabled(h.checking_disabled);
    m.set_response_code(<ResponseCode as From<u16>>::from(h.response_code));
    m.set_query_count(h.query_count).set_answer_count(h.answer_count);
    m.set_name_server_count(h.authority_count).set_additional_count(h.additional_count);
    m
}

/// `hickory_proto::op::Message::add_queries`. Its `Name::from_labels` accepts
/// every name that fits, as the names of this library do.
#[verifier::external_body]
fn add_queries(message: &mut hickory_proto::op::Message, queries: &Vec<DnsQuery>)
    ensures
        contents(*final(message)) == (MessageView {
            queries: contents(*old(message)).queries + message::queries_view(queries@),
            ..contents(*old(message))
        }),
{
    message.add_queries(queries.iter().map(|q| {
        let name = Name::from_labels(q.name.labels.iter().map(|l| l.as_slice())).unwrap();
        let mut query = Query::query(name, q.query_type.into());
        query.set_query_class(q.query_class.into());
        query
    }));
}

/// `hickory_proto::op::Message::insert_answers`, which panics where there are
/// answers already. Names as in `add_queries`.
#[verifier::external_body]
fn insert_answers(message: &mut hickory_proto::op::Message, records: Vec<RawRecord>)
    requires
        contents(*old(message)).answers.len() == 0,
    ensures
        contents(*final(message)) == (MessageView {
            answers: raw_view(records@),
            ..contents(*old(message))
        }),
{
    message.insert_answers(records.into_iter().map(|r| {
        let name = Name::from_labels(r.name.labels.iter().map(|l| l.as_slice())).unwrap();
        let mut record = Record::from_rdata(name, r.ttl, r.data);
        record.set_dns_class(r.dns_class.into());
        record
    }).collect());
}

/// `hickory_proto::op::Message::insert_name_servers`, which panics where there
/// are some already. Names as in `add_queries`.
#[verifier::external_body]
fn insert_authorities(message: &mut hickory_proto::op::Message, records: Vec<RawRecord>)
    requires
        contents(*old(message)).authorities.len() == 0,
    ensures
        contents(*final(message)) == (MessageView {
            authorities: raw_view(records@),
            ..contents(*old(message))
        }),
{
    message.insert_name_servers(records.into_iter().map(|r| {
        let name = Name::from_labels(r.name.labels.iter().map(|l| l.as_slice())).unwrap();
        let mut record = Record::from_rdata(name, r.ttl, r.data);
        record.set_dns_class(r.dns_class.into());
        record
    }).collect());
}

/// `hickory_proto::op::Message::insert_additionals`, which panics where there
/// are some already. Names as in `add_queries`.
#[verifier::external_body]
fn insert_additionals(message: &mut hickory_proto::op::Message, records: Vec<RawRecord>)
    requires
        contents(*old(message)).additionals.len() == 0,
    ensures
        contents(*final(message)) == (MessageView {
            additionals: raw_view(records@),
            ..contents(*old(message))
        }),
{
    message.insert_additionals(records.into_iter().map(|r| {
        let name = Name::from_labels(r.name.labels.iter().map(|l| l.as_slice())).unwrap();
        let mut record = Record::from_rdata(name, r.ttl, r.data);
        record.set_dns_class(r.dns_class.into());
        record
    }).collect());
}

/// `hickory_proto::op::Message::set_edns`.
#[verifier::external_body]
fn set_edns(message: &mut hickory_proto::op::Message, edns: &hickory_proto::op::Edns)
    ensures
        contents(*final(message)) == (MessageView {
            edns: Some(*edns),
            ..contents(*old(message))
        }),
{
    message.set_edns(edns.clone());
}

/// `hickory_proto::op::Message::to_vec`. The packet, or the text of the error,
/// depends on what the message holds alone. Messages have no signatures here:
/// they are read only where `hickory_proto` is built with DNSSEC. A packet of
/// plain records from which nothing had to be left out, as its mark says, reads
/// back as what was written, with the counts set and the targets of services,
/// which alone it writes in canonical form, in lower case. Of other records
/// nothing is said: some are read back as something else, as text without
/// entries is.
#[verifier::external_body]
fn write_packet(message: &hickory_proto::op::Message) -> (r: Result<Vec<u8>, String>)
    ensures
        match r {
            Ok(packet) => {
                &&& wire_packet(contents(*message)) == Ok::<Seq<u8>, Seq<char>>(packet@)
                &&& is_plain(contents(*message)) && !is_marked_truncated(packet@)
                    ==> wire_message(packet@) == Some(counted(lowered(contents(*message))))
            },
            Err(text) => wire_packet(contents(*message)) == Err::<Seq<u8>, Seq<char>>(text@),
        },
{
    message.to_vec().map_err(|e| e.to_string())
}

/// `hickory_proto::rr::RData` of an address or a name. Names as in
/// `add_queries`.
#[verifier::external_body]
fn write_simple_data(data: &RecordData) -> (r: Option<hickory_proto::rr::RData>)
    ensures
        match r {
            Some(d) => message::data_contents(d) == data@,
            None => match data@ {
                DataView::A(_) | DataView::Aaaa(_) => false,
                DataView::Ptr(_) | DataView::Cname(_) | DataView::Ns(_) => false,
                _ => true,
            },
        },
{
    let name = |n: &DomainName| Name::from_labels(n.labels.iter().map(|l| l.as_slice())).unwrap();
    match data {
        RecordData::A(address) => Some(RData::A(rdata::A((*address).into()))),
        RecordData::Aaaa(address) => Some(RData::AAAA(rdata::AAAA((*address).into()))),
        RecordData::Ptr(n) => Some(RData::PTR(rdata::PTR(name(n)))),
        RecordData::Cname(n) => Some(RData::CNAME(rdata::CNAME(name(n)))),
        RecordData::Ns(n) => Some(RData::NS(rdata::NS(name(n)))),
        _ => None,
    }
}

/// `hickory_proto::rr::RData` of several parts. Names as in `add_queries`.
#[verifier::external_body]
fn write_structured_data(data: &RecordData) -> (r: Option<hickory_proto::rr::RData>)
    ensures
        match r {
            Some(d) => message::data_contents(d) == data@,
            None => match data@ {
                DataView::Srv { .. } | DataView::Txt(_) | DataView::Mx { .. } => false,
                _ => true,
            },
        },
{
    let name = |n: &DomainName| Name::from_labels(n.labels.iter().map(|l| l.as_slice())).unwrap();
    match data {
        RecordData::Srv { priority, weight, port, target } => Some(RData::SRV(
            rdata::SRV::new(*priority, *weight, *port, name(target)),
        )),
        RecordData::Txt(entries) => Some(RData::TXT(
            rdata::TXT::from_bytes(entries.iter().map(|e| e.as_slice()).collect()),
        )),
        RecordData::Mx { preference, exchange } => Some(RData::MX(
            rdata::MX::new(*preference, name(exchange)),
        )),
        _ => None,
    }
}

/// The `Clone` of `hickory_proto::rr::RData`, which returns the same data.
#[verifier::external_body]
fn copy_data(data: &hickory_proto::rr::RData) -> (r: hickory_proto::rr::RData)
    ensures
        r == *data,
{
    data.clone()
}

/// Hands over the data of a record.
fn write_data(data: &RecordData) -> (r: hickory_proto::rr::RData)
    ensures
        message::data_contents(r) == data@,
{
    if let RecordData::Foreign(foreign) = data {
        return copy_data(foreign.data());
    }
    if let Some(d) = write_simple_data(data) {
        return d;
    }
    match write_structured_data(data) {
        Some(d) => d,
        None => {
            assert(false);
            vstd::pervasive::unreached()
        },
    }
}

/// Hands over some records.
fn write_records(records: &Vec<DnsRecord>) -> (r: Vec<RawRecord>)
    ensures
        raw_view(r@) == message::records_view(records@),
{
    let mut raw: Vec<RawRecord> = Vec::new();
    let mut i: usize = 0;
    while i < records.len()
        invariant
            i <= records@.len(),
            raw@.len() == i,
            forall|j: int| 0 <= j < i ==> (#[trigger] raw@[j])@ == records@[j]@,
        decreases records@.len() - i,
    {
        let record = &records[i];
        raw.push(
            RawRecord {
                name: record.name.copy(),
                dns_class: record.dns_class,
                ttl: record.ttl,
                data: write_data(&record.data),
            },
        );
        i += 1;
    }
    assert(raw_view(raw@) =~= message::records_view(records@));
    raw
}

/// The packet that holds a message. Where the message is plain and the packet
/// is not marked as truncated, the packet reads back as the message, with the
/// targets of services in lower case.
pub fn encode(message: &DnsMessage) -> (r: Result<Vec<u8>, Error>)
    ensures
        match r {
            Ok(packet) => {
                &&& wire_packet(message@) == Ok::<Seq<u8>, Seq<char>>(packet@)
                &&& is_plain(message@) && !is_marked_truncated(packet@) ==> wire_message(packet@)
                    == Some(counted(lowered(message@)))
            },
            Err(e) => match wire_packet(message@) {
                Ok(_) => false,
                Err(text) => e@ == Fault::Encoding(text),
            },
        },
{
    let mut m = new_message(&message.header);
    add_queries(&mut m, &message.queries);
    insert_answers(&mut m, write_records(&message.answers));
    insert_authorities(&mut m, write_records(&message.authorities));
    insert_additionals(&mut m, write_records(&message.additionals));
    if let Some(edns) = &message.edns {
        set_edns(&mut m, edns);
    }
    proof {
        assert(contents(m).queries =~= message@.queries);
        assert(contents(m) == message@);
    }
    match write_packet(&m) {
        Ok(packet) => Ok(packet),
        Err(text) => Err(Error::Encoding(text)),
    }
}

} // verus!
