//! The JSON form of DNS messages.
use vstd::prelude::*;

use crate::codes::{self, write_class, write_opcode, write_response, write_type};
use crate::error::{Error, Fault};
use crate::message::{
    self, write_entries, write_ipv4, write_ipv6, DataView, DnsMessage, DnsQuery, DnsRecord,
    MessageView, QueryView, RecordData, RecordView,
};
use crate::text::{self, decimal_text, join_text};
use crate::wire;

verus! {

/// What is logged of a packet.
#[derive(Debug, Clone)]
pub struct MdnsLogEntry {
    pub timestamp: String,
    pub interface: String,
    pub source: String,
    pub packet_size: usize,
    pub message: DnsMessageInfo,
}

/// What is logged of a message.
#[derive(Debug, Clone)]
pub struct DnsMessageInfo {
    pub id: u16,
    pub message_type: String,
    pub opcode: String,
    pub authoritative: bool,
    pub truncated: bool,
    pub recursion_desired: bool,
    pub recursion_available: bool,
    pub response_code: String,
    pub question_count: usize,
    pub answer_count: usize,
    pub authority_count: usize,
    pub additional_count: usize,
    pub questions: Vec<QuestionInfo>,
    pub answers: Vec<RecordInfo>,
    pub authorities: Vec<RecordInfo>,
    pub additionals: Vec<RecordInfo>,
}

/// What is logged of a question.
#[derive(Debug, Clone)]
pub struct QuestionInfo {
    pub name: String,
    pub record_type: String,
    pub class: String,
    pub prefer_unicast: Option<bool>,
}

/// What is logged of a record.
#[derive(Debug, Clone)]
pub struct RecordInfo {
    pub name: String,
    pub record_type: String,
    pub class: String,
    pub ttl: u32,
    pub cache_flush: Option<bool>,
    pub rdata: String,
    pub rdata_detail: Option<RdataDetail>,
}

/// The parts of the data of a record.
#[derive(Debug, Clone)]
pub enum RdataDetail {
    Srv { priority: u16, weight: u16, port: u16, target: String },
    Txt { entries: Vec<String> },
    Mx { preference: u16, exchange: String },
    Opt,
}

/// What the log says of a packet.
pub struct EntryView {
    pub timestamp: Seq<char>,
    pub interface: Seq<char>,
    pub source: Seq<char>,
    pub packet_size: usize,
    pub message: MessageInfoView,
}

/// What the log says of a message.
pub struct MessageInfoView {
    pub id: u16,
    pub message_type: Seq<char>,
    pub opcode: Seq<char>,
    pub authoritative: bool,
    pub truncated: bool,
    pub recursion_desired: bool,
    pub recursion_available: bool,
    pub response_code: Seq<char>,
    pub question_count: usize,
    pub answer_count: usize,
    pub authority_count: usize,
    pub additional_count: usize,
    pub questions: Seq<QuestionInfoView>,
    pub answers: Seq<RecordInfoView>,
    pub authorities: Seq<RecordInfoView>,
    pub additionals: Seq<RecordInfoView>,
}

/// What the log says of a question.
pub struct QuestionInfoView {
    pub name: Seq<char>,
    pub record_type: Seq<char>,
    pub class: Seq<char>,
    pub prefer_unicast: Option<bool>,
}

/// What the log says of a record.
pub struct RecordInfoView {
    pub name: Seq<char>,
    pub record_type: Seq<char>,
    pub class: Seq<char>,
    pub ttl: u32,
    pub cache_flush: Option<bool>,
    pub rdata: Seq<char>,
    pub rdata_detail: Option<DetailView>,
}

/// What the log says of the parts of the data of a record.
pub enum DetailView {
    Srv { priority: u16, weight: u16, port: u16, target: Seq<char> },
    Txt { entries: Seq<Seq<char>> },
    Mx { preference: u16, exchange: Seq<char> },
    Opt,
}

impl View for RdataDetail {
    type V = DetailView;

    open spec fn view(&self) -> DetailView {
        match self {
            RdataDetail::Srv { priority, weight, port, target } => DetailView::Srv {
                priority: *priority,
                weight: *weight,
                port: *port,
                target: target@,
            },
            RdataDetail::Txt { entries } => DetailView::Txt { entries: text::views(entries@) },
            RdataDetail::Mx { preference, exchange } => DetailView::Mx {
                preference: *preference,
                exchange: exchange@,
            },
            RdataDetail::Opt => DetailView::Opt,
        }
    }
}

impl View for QuestionInfo {
    type V = QuestionInfoView;

    open spec fn view(&self) -> QuestionInfoView {
        QuestionInfoView {
            name: self.name@,
            record_type: self.record_type@,
            class: self.class@,
            prefer_unicast: self.prefer_unicast,
        }
    }
}

impl View for RecordInfo {
    type V = RecordInfoView;

    open spec fn view(&self) -> RecordInfoView {
        RecordInfoView {
            name: self.name@,
            record_type: self.record_type@,
            class: self.class@,
            ttl: self.ttl,
            cache_flush: self.cache_flush,
            rdata: self.rdata@,
            rdata_detail: match self.rdata_detail {
                Some(detail) => Some(detail@),
                None => None,
            },
        }
    }
}

/// What the log says of some questions.
pub open spec fn question_views(questions: Seq<QuestionInfo>) -> Seq<QuestionInfoView> {
    questions.map_values(|q: QuestionInfo| q@)
}

/// What the log says of some records.
pub open spec fn record_views(records: Seq<RecordInfo>) -> Seq<RecordInfoView> {
    records.map_values(|r: RecordInfo| r@)
}

impl View for DnsMessageInfo {
    type V = MessageInfoView;

    open spec fn view(&self) -> MessageInfoView {
        MessageInfoView {
            id: self.id,
            message_type: self.message_type@,
            opcode: self.opcode@,
            authoritative: self.authoritative,
            truncated: self.truncated,
            recursion_desired: self.recursion_desired,
            recursion_available: self.recursion_available,
            response_code: self.response_code@,
            question_count: self.question_count,
            answer_count: self.answer_count,
            authority_count: self.authority_count,
            additional_count: self.additional_count,
            questions: question_views(self.questions@),
            answers: record_views(self.answers@),
            authorities: record_views(self.authorities@),
            additionals: record_views(self.additionals@),
        }
    }
}

impl View for MdnsLogEntry {
    type V = EntryView;

    open spec fn view(&self) -> EntryView {
        EntryView {
            timestamp: self.timestamp@,
            interface: self.interface@,
            source: self.source@,
            packet_size: self.packet_size,
            message: self.message@,
        }
    }
}

// --- From message to log entry ---

/// The top bit of a class, which mDNS uses as a flag: set or absent.
pub open spec fn class_flag(class: u16) -> Option<bool> {
    if class >= 0x8000 {
        Some(true)
    } else {
        None
    }
}

/// The name of a class without its top bit.
pub open spec fn plain_class(class: u16) -> Seq<char> {
    codes::class_name((class % 0x8000) as u16)
}

/// What the log says of a question.
pub open spec fn question_info(query: QueryView) -> QuestionInfoView {
    QuestionInfoView {
        name: message::name_text(query.name),
        record_type: codes::record_type_name(query.query_type),
        class: plain_class(query.query_class),
        prefer_unicast: class_flag(query.query_class),
    }
}

/// How the log writes the data of a record.
pub open spec fn data_text(data: DataView) -> Seq<char> {
    match data {
        DataView::A(address) => message::ipv4_text(address),
        DataView::Aaaa(address) => message::ipv6_text(address),
        DataView::Ptr(name) => message::name_text(name),
        DataView::Srv { priority, weight, port, target } => message::name_text(target) + ":"@
            + text::decimal(port as nat) + " -> "@ + text::decimal(priority as nat),
        DataView::Txt(entries) => text::joined(message::lossy_texts(entries), "; "@),
        DataView::Cname(name) => message::name_text(name),
        DataView::Mx { preference, exchange } => text::decimal(preference as nat) + " "@
            + message::name_text(exchange),
        DataView::Ns(name) => message::name_text(name),
        DataView::Foreign(data) => if message::foreign_is_opt(data) {
            "OPT"@
        } else {
            message::foreign_debug(data)
        },
    }
}

/// The parts of the data of a record, where the log gives them.
pub open spec fn data_detail(data: DataView) -> Option<DetailView> {
    match data {
        DataView::Srv { priority, weight, port, target } => Some(
            DetailView::Srv { priority, weight, port, target: message::name_text(target) },
        ),
        DataView::Txt(entries) => Some(DetailView::Txt { entries: message::lossy_texts(entries) }),
        DataView::Mx { preference, exchange } => Some(
            DetailView::Mx { preference, exchange: message::name_text(exchange) },
        ),
        DataView::Foreign(data) => if message::foreign_is_opt(data) {
            Some(DetailView::Opt)
        } else {
            None
        },
        _ => None,
    }
}

/// What the log says of a record.
pub open spec fn record_info(record: RecordView) -> RecordInfoView {
    RecordInfoView {
        name: message::name_text(record.name),
        record_type: codes::record_type_name(message::data_type(record.data)),
        class: plain_class(record.dns_class),
        ttl: record.ttl,
        cache_flush: class_flag(record.dns_class),
        rdata: data_text(record.data),
        rdata_detail: data_detail(record.data),
    }
}

/// What the log says of some records.
pub open spec fn record_infos(records: Seq<RecordView>) -> Seq<RecordInfoView> {
    records.map_values(|r: RecordView| record_info(r))
}

/// What the log says of a message.
pub open spec fn message_info(message: MessageView) -> MessageInfoView {
    let header = message.header;
    MessageInfoView {
        id: header.id,
        message_type: if header.response {
            "response"@
        } else {
            "query"@
        },
        opcode: codes::opcode_name(header.opcode),
        authoritative: header.authoritative,
        truncated: header.truncated,
        recursion_desired: header.recursion_desired,
        recursion_available: header.recursion_available,
        response_code: codes::response_name(header.response_code),
        question_count: header.query_count as usize,
        answer_count: header.answer_count as usize,
        authority_count: header.authority_count as usize,
        additional_count: header.additional_count as usize,
        questions: message.queries.map_values(|q: QueryView| question_info(q)),
        answers: record_infos(message.answers),
        authorities: record_infos(message.authorities),
        additionals: record_infos(message.additionals),
    }
}

/// Parses a packet.
pub fn parse_message(buf: &[u8]) -> (r: Result<DnsMessage, Error>)
    ensures
        match r {
            Ok(message) => wire::wire_message(buf@) == Some(message@),
            Err(e) => wire::wire_message(buf@) is None && e@ == Fault::Malformed,
        },
{
    wire::decode(buf)
}

/// The flag in the top bit of a class.
fn flag_of(class: u16) -> (r: Option<bool>)
    ensures
        r == class_flag(class),
{
    if class >= 0x8000 {
        Some(true)
    } else {
        None
    }
}

/// What the log says of a question.
fn query_to_info(query: &DnsQuery) -> (r: QuestionInfo)
    ensures
        r@ == question_info(query@),
{
    QuestionInfo {
        name: query.name.text(),
        record_type: write_type(query.query_type),
        class: write_class(query.query_class % 0x8000),
        prefer_unicast: flag_of(query.query_class),
    }
}

/// How the log writes the data of a record, and its parts where it gives them.
pub fn parse_rdata_detail(rdata: &RecordData) -> (r: (String, Option<RdataDetail>))
    ensures
        r.0@ == data_text(rdata@),
        match r.1 {
            Some(detail) => data_detail(rdata@) == Some(detail@),
            None => data_detail(rdata@) is None,
        },
{
    match rdata {
        RecordData::A(address) => (write_ipv4(*address), None),
        RecordData::Aaaa(address) => (write_ipv6(*address), None),
        RecordData::Ptr(name) => (name.text(), None),
        RecordData::Srv { priority, weight, port, target } => {
            let mut r = target.text();
            r.append(":");
            r.append(decimal_text(*port as u64).as_str());
            r.append(" -> ");
            r.append(decimal_text(*priority as u64).as_str());
            let detail = RdataDetail::Srv {
                priority: *priority,
                weight: *weight,
                port: *port,
                target: target.text(),
            };
            (r, Some(detail))
        },
        RecordData::Txt(entries) => {
            let texts = write_entries(entries);
            (join_text(texts.as_slice(), "; "), Some(RdataDetail::Txt { entries: texts }))
        },
        RecordData::Cname(name) => (name.text(), None),
        RecordData::Mx { preference, exchange } => {
            let mut r = decimal_text(*preference as u64);
            r.append(" ");
            r.append(exchange.text().as_str());
            let detail = RdataDetail::Mx { preference: *preference, exchange: exchange.text() };
            (r, Some(detail))
        },
        RecordData::Ns(name) => (name.text(), None),
        RecordData::Foreign(data) => {
            if data.is_opt() {
                ("OPT".to_owned(), Some(RdataDetail::Opt))
            } else {
                (data.debug(), None)
            }
        },
    }
}

/// What the log says of a record.
pub fn record_to_info(record: &DnsRecord) -> (r: RecordInfo)
    ensures
        r@ == record_info(record@),
{
    let (rdata, rdata_detail) = parse_rdata_detail(&record.data);
    RecordInfo {
        name: record.name.text(),
        record_type: write_type(record.record_type()),
        class: write_class(record.dns_class % 0x8000),
        ttl: record.ttl,
        cache_flush: flag_of(record.dns_class),
        rdata,
        rdata_detail,
    }
}

/// What the log says of some records.
fn records_to_infos(records: &Vec<DnsRecord>) -> (r: Vec<RecordInfo>)
    ensures
        record_views(r@) == record_infos(message::records_view(records@)),
{
    let mut infos: Vec<RecordInfo> = Vec::new();
    let mut i: usize = 0;
    while i < records.len()
        invariant
            i <= records@.len(),
            infos@.len() == i,
            forall|j: int| 0 <= j < i ==> (#[trigger] infos@[j])@ == record_info(records@[j]@),
        decreases records@.len() - i,
    {
        infos.push(record_to_info(&records[i]));
        i += 1;
    }
    assert(record_views(infos@) =~= record_infos(message::records_view(records@)));
    infos
}

/// What the log says of some questions.
fn queries_to_infos(queries: &Vec<DnsQuery>) -> (r: Vec<QuestionInfo>)
    ensures
        question_views(r@) == message::queries_view(queries@).map_values(
            |q: QueryView| question_info(q),
        ),
{
    let mut infos: Vec<QuestionInfo> = Vec::new();
    let mut i: usize = 0;
    while i < queries.len()
        invariant
            i <= queries@.len(),
            infos@.len() == i,
            forall|j: int| 0 <= j < i ==> (#[trigger] infos@[j])@ == question_info(queries@[j]@),
        decreases queries@.len() - i,
    {
        infos.push(query_to_info(&queries[i]));
        i += 1;
    }
    assert(question_views(infos@) =~= message::queries_view(queries@).map_values(
        |q: QueryView| question_info(q),
    ));
    infos
}

/// The log entry of a packet.
pub fn message_to_json(
    msg: &DnsMessage,
    iface: &str,
    source: &str,
    packet_size: usize,
    timestamp: &str,
) -> (r: MdnsLogEntry)
    ensures
        r@ == (EntryView {
            timestamp: timestamp@,
            interface: iface@,
            source: source@,
            packet_size,
            message: message_info(msg@),
        }),
{
    let header = &msg.header;
    let message = DnsMessageInfo {
        id: header.id,
        message_type: if header.response {
            "response".to_owned()
        } else {
            "query".to_owned()
        },
        opcode: write_opcode(header.opcode),
        authoritative: header.authoritative,
        truncated: header.truncated,
        recursion_desired: header.recursion_desired,
        recursion_available: header.recursion_available,
        response_code: write_response(header.response_code),
        question_count: header.query_count as usize,
        answer_count: header.answer_count as usize,
        authority_count: header.authority_count as usize,
        additional_count: header.additional_count as usize,
        questions: queries_to_infos(&msg.queries),
        answers: records_to_infos(&msg.answers),
        authorities: records_to_infos(&msg.authorities),
        additionals: records_to_infos(&msg.additionals),
    };
    MdnsLogEntry {
        timestamp: timestamp.to_owned(),
        interface: iface.to_owned(),
        source: source.to_owned(),
        packet_size,
        message,
    }
}

/// The log shows the class as if its top bit were not set: the flag changes
/// nothing but whether the flag is shown.
pub proof fn flags_do_not_hide_the_class(class: u16)
    requires
        class < 0x8000,
    ensures
        plain_class((class + 0x8000) as u16) == codes::class_name(class),
        plain_class(class) == codes::class_name(class),
        class_flag((class + 0x8000) as u16) == Some(true),
        class_flag(class) is None,
{
}

/// The log shows of a record that points to a name the text of that name,
/// whether it is a pointer, an alias or a name server.
pub proof fn names_are_logged(record: RecordView, name: Seq<Seq<u8>>)
    requires
        record.data == DataView::Ptr(name) || record.data == DataView::Cname(name) || record.data
            == DataView::Ns(name),
    ensures
        record_info(record).rdata == message::name_text(name),
        record_info(record).rdata_detail is None,
{
}

/// Records that point to names with different texts are logged differently.
pub proof fn different_names_are_logged_differently(
    record: RecordView,
    a: Seq<Seq<u8>>,
    b: Seq<Seq<u8>>,
)
    requires
        message::name_text(a) != message::name_text(b),
    ensures
        record_info(RecordView { data: DataView::Ptr(a), ..record }).rdata != record_info(
            RecordView { data: DataView::Ptr(b), ..record },
        ).rdata,
        record_info(RecordView { data: DataView::Cname(a), ..record }).rdata != record_info(
            RecordView { data: DataView::Cname(b), ..record },
        ).rdata,
        record_info(RecordView { data: DataView::Ns(a), ..record }).rdata != record_info(
            RecordView { data: DataView::Ns(b), ..record },
        ).rdata,
{
}

/// The log shows of an address record the address.
pub proof fn addresses_are_logged(record: RecordView)
    ensures
        record.data matches DataView::A(address) ==> record_info(record).rdata
            == message::ipv4_text(address) && record_info(record).rdata_detail is None,
        record.data matches DataView::Aaaa(address) ==> record_info(record).rdata
            == message::ipv6_text(address) && record_info(record).rdata_detail is None,
{
}

/// The log shows of a service its target, port and priority in one text, and
/// these and its weight as parts.
pub proof fn services_are_logged(
    record: RecordView,
    priority: u16,
    weight: u16,
    port: u16,
    target: Seq<Seq<u8>>,
)
    requires
        record.data == (DataView::Srv { priority, weight, port, target }),
    ensures
        record_info(record).rdata == message::name_text(target) + ":"@ + text::decimal(port as nat)
            + " -> "@ + text::decimal(priority as nat),
        record_info(record).rdata_detail == Some(
            DetailView::Srv { priority, weight, port, target: message::name_text(target) },
        ),
{
}

/// The log shows of a text record all its entries, one by one and in one text
/// with semicolons between them.
pub proof fn texts_are_logged(record: RecordView, entries: Seq<Seq<u8>>, i: int)
    requires
        record.data == DataView::Txt(entries),
    ensures
        record_info(record).rdata_detail matches Some(DetailView::Txt { entries: shown })
            && shown.len() == entries.len() && (0 <= i < entries.len() ==> shown[i]
            == message::lossy_text(entries[i])) && record_info(record).rdata == text::joined(
            shown,
            "; "@,
        ),
{
}

/// The log shows of a mail exchange its preference and its name in one text, and
/// both as parts.
pub proof fn mail_exchanges_are_logged(
    record: RecordView,
    preference: u16,
    exchange: Seq<Seq<u8>>,
)
    requires
        record.data == (DataView::Mx { preference, exchange }),
    ensures
        record_info(record).rdata == text::decimal(preference as nat) + " "@ + message::name_text(
            exchange,
        ),
        record_info(record).rdata_detail == Some(
            DetailView::Mx { preference, exchange: message::name_text(exchange) },
        ),
{
}

/// The log shows of any other record how its data is written for debugging, but
/// of an option record only that it is one.
pub proof fn other_records_are_logged(record: RecordView)
    ensures
        record.data matches DataView::Foreign(data) ==> if message::foreign_is_opt(data) {
            record_info(record).rdata == "OPT"@ && record_info(record).rdata_detail == Some(
                DetailView::Opt,
            )
        } else {
            record_info(record).rdata == message::foreign_debug(data)
                && record_info(record).rdata_detail is None
        },
{
}

/// The log shows of every record its name, its type, its class without the
/// cache-flush bit, its TTL, and that bit where it is set.
pub proof fn records_are_logged_in_full(record: RecordView)
    ensures
        record_info(record).name == message::name_text(record.name),
        record_info(record).record_type == codes::record_type_name(
            message::data_type(record.data),
        ),
        record_info(record).ttl == record.ttl,
        record.dns_class < 0x8000 ==> record_info(record).cache_flush is None && record_info(
            record,
        ).class == codes::class_name(record.dns_class),
        record.dns_class >= 0x8000 ==> record_info(record).cache_flush == Some(true)
            && record_info(record).class == codes::class_name((record.dns_class - 0x8000) as u16),
{
}

/// The log shows of every question its name, its type, its class without the
/// unicast bit, and that bit where it is set.
pub proof fn questions_are_logged_in_full(query: QueryView)
    ensures
        question_info(query).name == message::name_text(query.name),
        question_info(query).record_type == codes::record_type_name(query.query_type),
        query.query_class < 0x8000 ==> question_info(query).prefer_unicast is None && question_info(
            query,
        ).class == codes::class_name(query.query_class),
        query.query_class >= 0x8000 ==> question_info(query).prefer_unicast == Some(true)
            && question_info(query).class == codes::class_name(
            (query.query_class - 0x8000) as u16,
        ),
{
}

/// The log shows of a message every part of its header, and every question and
/// record of it, each in its section and in order.
pub proof fn messages_are_logged_in_full(message: MessageView, i: int)
    ensures
        ({
            let info = message_info(message);
            &&& info.id == message.header.id
            &&& message.header.response ==> info.message_type == "response"@
            &&& !message.header.response ==> info.message_type == "query"@
            &&& info.opcode == codes::opcode_name(message.header.opcode)
            &&& info.authoritative == message.header.authoritative
            &&& info.truncated == message.header.truncated
            &&& info.recursion_desired == message.header.recursion_desired
            &&& info.recursion_available == message.header.recursion_available
            &&& info.response_code == codes::response_name(message.header.response_code)
            &&& info.question_count == message.header.query_count
            &&& info.answer_count == message.header.answer_count
            &&& info.authority_count == message.header.authority_count
            &&& info.additional_count == message.header.additional_count
            &&& info.questions.len() == message.queries.len()
            &&& info.answers.len() == message.answers.len()
            &&& info.authorities.len() == message.authorities.len()
            &&& info.additionals.len() == message.additionals.len()
            &&& 0 <= i < message.queries.len() ==> info.questions[i] == question_info(
                message.queries[i],
            )
            &&& 0 <= i < message.answers.len() ==> info.answers[i] == record_info(
                message.answers[i],
            )
            &&& 0 <= i < message.authorities.len() ==> info.authorities[i] == record_info(
                message.authorities[i],
            )
            &&& 0 <= i < message.additionals.len() ==> info.additionals[i] == record_info(
                message.additionals[i],
            )
        }),
{
}

/// What an entry of the log says is what is in its fields, down to every question
/// and record, in order.
pub proof fn entries_say_what_is_in_them(entry: MdnsLogEntry, i: int)
    ensures
        entry@.timestamp == entry.timestamp@,
        entry@.interface == entry.interface@,
        entry@.source == entry.source@,
        entry@.packet_size == entry.packet_size,
        entry@.message == entry.message@,
        ({
            let info = entry.message;
            &&& info@.id == info.id
            &&& info@.message_type == info.message_type@
            &&& info@.opcode == info.opcode@
            &&& info@.authoritative == info.authoritative
            &&& info@.truncated == info.truncated
            &&& info@.recursion_desired == info.recursion_desired
            &&& info@.recursion_available == info.recursion_available
            &&& info@.response_code == info.response_code@
            &&& info@.question_count == info.question_count
            &&& info@.answer_count == info.answer_count
            &&& info@.authority_count == info.authority_count
            &&& info@.additional_count == info.additional_count
            &&& info@.questions.len() == info.questions@.len()
            &&& info@.answers.len() == info.answers@.len()
            &&& info@.authorities.len() == info.authorities@.len()
            &&& info@.additionals.len() == info.additionals@.len()
            &&& 0 <= i < info.questions@.len() ==> info@.questions[i] == info.questions@[i]@
            &&& 0 <= i < info.answers@.len() ==> info@.answers[i] == info.answers@[i]@
            &&& 0 <= i < info.authorities@.len() ==> info@.authorities[i] == info.authorities@[i]@
            &&& 0 <= i < info.additionals@.len() ==> info@.additionals[i] == info.additionals@[i]@
        }),
{
}

/// What the log says of a record or a question is what is in its fields.
pub proof fn infos_say_what_is_in_them(record: RecordInfo, question: QuestionInfo, i: int)
    ensures
        record@.name == record.name@,
        record@.record_type == record.record_type@,
        record@.class == record.class@,
        record@.ttl == record.ttl,
        record@.cache_flush == record.cache_flush,
        record@.rdata == record.rdata@,
        record.rdata_detail is None <==> record@.rdata_detail is None,
        record.rdata_detail matches Some(detail) ==> {
            &&& record@.rdata_detail == Some(detail@)
            &&& detail matches RdataDetail::Srv { priority, weight, port, target } ==> detail@ == (
            DetailView::Srv { priority, weight, port, target: target@ })
            &&& detail matches RdataDetail::Mx { preference, exchange } ==> detail@ == (
            DetailView::Mx { preference, exchange: exchange@ })
            &&& detail is Opt ==> detail@ is Opt
            &&& detail matches RdataDetail::Txt { entries } ==> {
                &&& detail@ is Txt
                &&& detail@->entries.len() == entries@.len()
                &&& 0 <= i < entries@.len() ==> detail@->entries[i] == entries@[i]@
            }
        },
        question@.name == question.name@,
        question@.record_type == question.record_type@,
        question@.class == question.class@,
        question@.prefer_unicast == question.prefer_unicast,
{
}

} // verus!
