//! DNS messages.
use std::fmt::Write;

use vstd::prelude::*;
use vstd::slice::slice_to_vec;

use crate::codes;
use crate::text::{self, decimal_text, join_text};

verus! {

/// The record data of `hickory_proto`.
#[verifier::external_type_specification]
#[verifier::external_body]
pub struct ExRData(hickory_proto::rr::RData);

/// The extension of a message, of `hickory_proto`.
#[verifier::external_type_specification]
#[verifier::external_body]
pub struct ExEdns(hickory_proto::op::Edns);

/// The header of a message. The counts are what the packet claimed.
#[derive(Debug, Clone, Copy)]
pub struct DnsHeader {
    pub id: u16,
    pub response: bool,
    pub opcode: u8,
    pub authoritative: bool,
    pub truncated: bool,
    pub recursion_desired: bool,
    pub recursion_available: bool,
    pub authentic_data: bool,
    pub checking_disabled: bool,
    pub response_code: u16,
    pub query_count: u16,
    pub answer_count: u16,
    pub authority_count: u16,
    pub additional_count: u16,
}

/// A domain name, from the first label to the last.
pub struct DomainName {
    pub(crate) labels: Vec<Vec<u8>>,
}

/// A question of a message.
pub struct DnsQuery {
    pub name: DomainName,
    pub query_type: u16,
    pub query_class: u16,
}

/// The data of a record.
pub enum RecordData {
    A(u32),
    Aaaa(u128),
    Ptr(DomainName),
    Srv { priority: u16, weight: u16, port: u16, target: DomainName },
    Txt(Vec<Vec<u8>>),
    Cname(DomainName),
    Mx { preference: u16, exchange: DomainName },
    Ns(DomainName),
    /// Data of any other type, which is passed on as it is.
    Foreign(ForeignData),
}

/// Data of a type that this library does not look into.
pub struct ForeignData {
    data: hickory_proto::rr::RData,
}

/// A record of a message.
pub struct DnsRecord {
    pub name: DomainName,
    pub dns_class: u16,
    pub ttl: u32,
    pub data: RecordData,
}

/// A DNS message.
pub struct DnsMessage {
    pub header: DnsHeader,
    pub queries: Vec<DnsQuery>,
    pub answers: Vec<DnsRecord>,
    pub authorities: Vec<DnsRecord>,
    pub additionals: Vec<DnsRecord>,
    pub edns: Option<hickory_proto::op::Edns>,
}

/// What a question holds.
pub struct QueryView {
    pub name: Seq<Seq<u8>>,
    pub query_type: u16,
    pub query_class: u16,
}

/// What the data of a record holds.
pub enum DataView {
    A(u32),
    Aaaa(u128),
    Ptr(Seq<Seq<u8>>),
    Srv { priority: u16, weight: u16, port: u16, target: Seq<Seq<u8>> },
    Txt(Seq<Seq<u8>>),
    Cname(Seq<Seq<u8>>),
    Mx { preference: u16, exchange: Seq<Seq<u8>> },
    Ns(Seq<Seq<u8>>),
    Foreign(hickory_proto::rr::RData),
}

/// What record data of `hickory_proto` holds.
pub uninterp spec fn data_contents(data: hickory_proto::rr::RData) -> DataView;

/// The code of the type of record data of `hickory_proto`.
pub uninterp spec fn foreign_type(data: hickory_proto::rr::RData) -> u16;

/// Whether record data of `hickory_proto` is that of an option record.
pub uninterp spec fn foreign_is_opt(data: hickory_proto::rr::RData) -> bool;

/// How record data of `hickory_proto` is written for people, if it can be.
pub uninterp spec fn foreign_display(data: hickory_proto::rr::RData) -> Option<Seq<char>>;

/// How record data of `hickory_proto` is written for debugging.
pub uninterp spec fn foreign_debug(data: hickory_proto::rr::RData) -> Seq<char>;

/// What a record holds.
pub struct RecordView {
    pub name: Seq<Seq<u8>>,
    pub dns_class: u16,
    pub ttl: u32,
    pub data: DataView,
}

/// What a message holds.
pub struct MessageView {
    pub header: DnsHeader,
    pub queries: Seq<QueryView>,
    pub answers: Seq<RecordView>,
    pub authorities: Seq<RecordView>,
    pub additionals: Seq<RecordView>,
    pub edns: Option<hickory_proto::op::Edns>,
}

/// The contents of some byte strings.
pub open spec fn byte_views(strings: Seq<Vec<u8>>) -> Seq<Seq<u8>> {
    strings.map_values(|b: Vec<u8>| b@)
}

/// How many bytes the labels of a name take in a packet.
pub open spec fn labels_size(labels: Seq<Seq<u8>>) -> nat
    decreases labels.len(),
{
    if labels.len() == 0 {
        0
    } else {
        labels_size(labels.drop_last()) + labels.last().len() + 1
    }
}

/// The labels make up a domain name: each has 1 to 63 bytes, and with the
/// byte that ends it the name takes at most 255.
pub open spec fn name_fits(labels: Seq<Seq<u8>>) -> bool {
    &&& forall|i: int| 0 <= i < labels.len() ==> 1 <= (#[trigger] labels[i]).len() <= 63
    &&& labels_size(labels) + 1 <= 255
}

impl View for DomainName {
    type V = Seq<Seq<u8>>;

    closed spec fn view(&self) -> Seq<Seq<u8>> {
        byte_views(self.labels@)
    }
}

impl View for DnsQuery {
    type V = QueryView;

    open spec fn view(&self) -> QueryView {
        QueryView {
            name: self.name@,
            query_type: self.query_type,
            query_class: self.query_class,
        }
    }
}

impl View for ForeignData {
    type V = hickory_proto::rr::RData;

    closed spec fn view(&self) -> hickory_proto::rr::RData {
        self.data
    }
}

/// `hickory_proto::rr::RData::record_type`, as a code. It depends on the data
/// alone.
#[verifier::external_body]
fn type_of_data(data: &hickory_proto::rr::RData) -> (r: u16)
    ensures
        r == foreign_type(*data),
{
    data.record_type().into()
}

/// `hickory_proto::rr::RData::is_opt`. It depends on the data alone.
#[verifier::external_body]
fn is_opt_data(data: &hickory_proto::rr::RData) -> (r: bool)
    ensures
        r == foreign_is_opt(*data),
{
    data.is_opt()
}

/// The `Display` of `hickory_proto::rr::RData`, which fails for some types. The
/// text depends on the data alone.
#[verifier::external_body]
fn display_data(data: &hickory_proto::rr::RData) -> (r: Option<String>)
    ensures
        match r {
            Some(text) => foreign_display(*data) == Some(text@),
            None => foreign_display(*data) is None,
        },
{
    let mut text = String::new();
    write!(text, "{}", data).ok().map(|()| text)
}

/// The `Debug` of `hickory_proto::rr::RData`. The text depends on the data
/// alone.
#[verifier::external_body]
fn debug_data(data: &hickory_proto::rr::RData) -> (r: String)
    ensures
        r@ == foreign_debug(*data),
{
    format!("{:?}", data)
}

impl ForeignData {
    /// The data is of no type that this library looks into.
    #[verifier::type_invariant]
    spec fn is_foreign(&self) -> bool {
        data_contents(self.data) == DataView::Foreign(self.data)
    }

    /// Data of a type that this library does not look into.
    pub(crate) fn new(data: hickory_proto::rr::RData) -> (r: ForeignData)
        requires
            data_contents(data) == DataView::Foreign(data),
        ensures
            r@ == data,
    {
        ForeignData { data }
    }

    /// The data itself.
    pub(crate) fn data(&self) -> (r: &hickory_proto::rr::RData)
        ensures
            *r == self@,
            data_contents(self@) == DataView::Foreign(self@),
    {
        proof {
            use_type_invariant(self);
        }
        &self.data
    }

    /// The code of the type of a record with this data.
    pub fn record_type(&self) -> (r: u16)
        ensures
            r == foreign_type(self@),
    {
        type_of_data(&self.data)
    }

    /// Whether this is the data of an option record.
    pub fn is_opt(&self) -> (r: bool)
        ensures
            r == foreign_is_opt(self@),
    {
        is_opt_data(&self.data)
    }

    /// How the data is written for people, if it can be.
    pub fn display(&self) -> (r: Option<String>)
        ensures
            match r {
                Some(text) => foreign_display(self@) == Some(text@),
                None => foreign_display(self@) is None,
            },
    {
        display_data(&self.data)
    }

    /// How the data is written for debugging.
    pub fn debug(&self) -> (r: String)
        ensures
            r@ == foreign_debug(self@),
    {
        debug_data(&self.data)
    }
}

impl View for RecordData {
    type V = DataView;

    open spec fn view(&self) -> DataView {
        match self {
            RecordData::A(address) => DataView::A(*address),
            RecordData::Aaaa(address) => DataView::Aaaa(*address),
            RecordData::Ptr(name) => DataView::Ptr(name@),
            RecordData::Srv { priority, weight, port, target } => DataView::Srv {
                priority: *priority,
                weight: *weight,
                port: *port,
                target: target@,
            },
            RecordData::Txt(entries) => DataView::Txt(byte_views(entries@)),
            RecordData::Cname(name) => DataView::Cname(name@),
            RecordData::Mx { preference, exchange } => DataView::Mx {
                preference: *preference,
                exchange: exchange@,
            },
            RecordData::Ns(name) => DataView::Ns(name@),
            RecordData::Foreign(data) => DataView::Foreign(data@),
        }
    }
}

impl View for DnsRecord {
    type V = RecordView;

    open spec fn view(&self) -> RecordView {
        RecordView {
            name: self.name@,
            dns_class: self.dns_class,
            ttl: self.ttl,
            data: self.data@,
        }
    }
}

/// What some records hold.
pub open spec fn records_view(records: Seq<DnsRecord>) -> Seq<RecordView> {
    records.map_values(|r: DnsRecord| r@)
}

/// What some questions hold.
pub open spec fn queries_view(queries: Seq<DnsQuery>) -> Seq<QueryView> {
    queries.map_values(|q: DnsQuery| q@)
}

impl View for DnsMessage {
    type V = MessageView;

    open spec fn view(&self) -> MessageView {
        MessageView {
            header: self.header,
            queries: queries_view(self.queries@),
            answers: records_view(self.answers@),
            authorities: records_view(self.authorities@),
            additionals: records_view(self.additionals@),
            edns: self.edns,
        }
    }
}

/// The code of the type of a record with some data.
pub open spec fn data_type(data: DataView) -> u16 {
    match data {
        DataView::A(_) => 1,
        DataView::Aaaa(_) => 28,
        DataView::Ptr(_) => 12,
        DataView::Srv { .. } => 33,
        DataView::Txt(_) => 16,
        DataView::Cname(_) => 5,
        DataView::Mx { .. } => 15,
        DataView::Ns(_) => 2,
        DataView::Foreign(data) => foreign_type(data),
    }
}

/// How a domain name is written.
pub uninterp spec fn name_text(labels: Seq<Seq<u8>>) -> Seq<char>;

/// How an IPv6 address is written.
pub uninterp spec fn ipv6_text(address: u128) -> Seq<char>;

/// Bytes as text, with a replacement for what is no UTF-8.
pub uninterp spec fn lossy_text(bytes: Seq<u8>) -> Seq<char>;

/// How an IPv4 address is written: its four bytes, with dots between them.
pub open spec fn ipv4_text(address: u32) -> Seq<char> {
    let a = address as nat;
    text::decimal(a / 0x1000000) + "."@ + text::decimal(a / 0x10000 % 0x100) + "."@ + text::decimal(
        a / 0x100 % 0x100,
    ) + "."@ + text::decimal(a % 0x100)
}

/// The `Display` of the fully qualified `hickory_proto::rr::Name` that
/// `from_labels` makes of some labels. It depends on the labels alone. Labels
/// that make up no name are refused by `from_labels`.
#[verifier::external_body]
fn write_name(labels: &Vec<Vec<u8>>) -> (r: String)
    requires
        name_fits(byte_views(labels@)),
    ensures
        r@ == name_text(byte_views(labels@)),
{
    let name = hickory_proto::rr::Name::from_labels(labels.iter().map(|l| l.as_slice()));
    name.unwrap().to_string()
}

/// The `Display` of `hickory_proto::rr::rdata::AAAA`, which writes its address
/// as std's `Ipv6Addr` does.
#[verifier::external_body]
pub(crate) fn write_ipv6(address: u128) -> (r: String)
    ensures
        r@ == ipv6_text(address),
{
    hickory_proto::rr::rdata::AAAA(address.into()).to_string()
}

/// `String::from_utf8_lossy`. The text depends on the bytes alone.
#[verifier::external_body]
pub(crate) fn write_lossy(bytes: &Vec<u8>) -> (r: String)
    ensures
        r@ == lossy_text(bytes@),
{
    String::from_utf8_lossy(bytes.as_slice()).into_owned()
}

/// The text of an IPv4 address.
pub fn write_ipv4(address: u32) -> (r: String)
    ensures
        r@ == ipv4_text(address),
{
    let mut r = decimal_text((address / 0x1000000) as u64);
    r.append(".");
    r.append(decimal_text((address / 0x10000 % 0x100) as u64).as_str());
    r.append(".");
    r.append(decimal_text((address / 0x100 % 0x100) as u64).as_str());
    r.append(".");
    r.append(decimal_text((address % 0x100) as u64).as_str());
    r
}

/// Copies of some byte strings.
fn copy_strings(strings: &Vec<Vec<u8>>) -> (r: Vec<Vec<u8>>)
    ensures
        byte_views(r@) == byte_views(strings@),
{
    let mut copies: Vec<Vec<u8>> = Vec::new();
    let mut i: usize = 0;
    while i < strings.len()
        invariant
            i <= strings@.len(),
            copies@.len() == i,
            forall|j: int| 0 <= j < i ==> (#[trigger] copies@[j])@ == strings@[j]@,
        decreases strings@.len() - i,
    {
        copies.push(slice_to_vec(strings[i].as_slice()));
        i += 1;
    }
    assert(byte_views(copies@) =~= byte_views(strings@));
    copies
}

impl DomainName {
    #[verifier::type_invariant]
    spec fn fits(&self) -> bool {
        name_fits(self@)
    }

    /// The name with the given labels, if they make up one.
    pub fn from_labels(labels: Vec<Vec<u8>>) -> (r: Option<DomainName>)
        ensures
            match r {
                Some(name) => name_fits(byte_views(labels@)) && name@ == byte_views(labels@),
                None => !name_fits(byte_views(labels@)),
            },
    {
        let ghost all = byte_views(labels@);
        let mut size: usize = 0;
        let mut i: usize = 0;
        while i < labels.len()
            invariant
                i <= labels@.len(),
                all == byte_views(labels@),
                forall|j: int| 0 <= j < i ==> 1 <= (#[trigger] all[j]).len() <= 63,
                size == labels_size(all.take(i as int)),
                size + 1 <= 255,
            decreases labels@.len() - i,
        {
            assert(all[i as int] == labels@[i as int]@);
            if labels[i].len() < 1 || labels[i].len() > 63 {
                return None;
            }
            proof {
                assert(all.take(i + 1).drop_last() =~= all.take(i as int));
                lemma_labels_size_grows(all, (i + 1) as nat);
            }
            size = size + labels[i].len() + 1;
            if size + 1 > 255 {
                return None;
            }
            i += 1;
        }
        assert(all.take(i as int) =~= all);
        Some(DomainName { labels })
    }

    /// The text of the name.
    pub fn text(&self) -> (r: String)
        ensures
            r@ == name_text(self@),
    {
        proof {
            use_type_invariant(self);
        }
        write_name(&self.labels)
    }

    /// A copy of the name.
    pub fn copy(&self) -> (r: DomainName)
        ensures
            r@ == self@,
    {
        proof {
            use_type_invariant(self);
        }
        let labels = copy_strings(&self.labels);
        DomainName { labels }
    }

    /// The labels of the name.
    pub fn labels(&self) -> (r: &Vec<Vec<u8>>)
        ensures
            byte_views(r@) == self@,
            name_fits(self@),
    {
        proof {
            use_type_invariant(self);
        }
        &self.labels
    }
}

/// Further labels do not make a name smaller.
proof fn lemma_labels_size_grows(labels: Seq<Seq<u8>>, n: nat)
    requires
        n <= labels.len(),
    ensures
        labels_size(labels.take(n as int)) <= labels_size(labels),
    decreases labels.len(),
{
    if n == labels.len() {
        assert(labels.take(n as int) =~= labels);
    } else {
        assert(labels.drop_last().take(n as int) =~= labels.take(n as int));
        lemma_labels_size_grows(labels.drop_last(), n);
    }
}

/// The texts of some byte strings.
pub open spec fn lossy_texts(entries: Seq<Seq<u8>>) -> Seq<Seq<char>> {
    entries.map_values(|e: Seq<u8>| lossy_text(e))
}

/// The texts of some byte strings.
pub(crate) fn write_entries(entries: &Vec<Vec<u8>>) -> (r: Vec<String>)
    ensures
        text::views(r@) == lossy_texts(byte_views(entries@)),
{
    let mut texts: Vec<String> = Vec::new();
    let mut i: usize = 0;
    while i < entries.len()
        invariant
            i <= entries@.len(),
            texts@.len() == i,
            forall|j: int| 0 <= j < i ==> (#[trigger] texts@[j])@ == lossy_text(entries@[j]@),
        decreases entries@.len() - i,
    {
        texts.push(write_lossy(&entries[i]));
        i += 1;
    }
    assert(text::views(texts@) =~= lossy_texts(byte_views(entries@)));
    texts
}

/// How the data of a record is written for people, if it can be. The names
/// and numbers of a record are written with spaces between them, the entries
/// of a text record without.
pub open spec fn data_display(data: DataView) -> Option<Seq<char>> {
    match data {
        DataView::A(address) => Some(ipv4_text(address)),
        DataView::Aaaa(address) => Some(ipv6_text(address)),
        DataView::Ptr(name) => Some(name_text(name)),
        DataView::Srv { priority, weight, port, target } => Some(
            text::decimal(priority as nat) + " "@ + text::decimal(weight as nat) + " "@
                + text::decimal(port as nat) + " "@ + name_text(target),
        ),
        DataView::Txt(entries) => Some(text::joined(lossy_texts(entries), Seq::empty())),
        DataView::Cname(name) => Some(name_text(name)),
        DataView::Mx { preference, exchange } => Some(
            text::decimal(preference as nat) + " "@ + name_text(exchange),
        ),
        DataView::Ns(name) => Some(name_text(name)),
        DataView::Foreign(data) => foreign_display(data),
    }
}

impl RecordData {
    /// The code of the type of a record with this data.
    pub fn record_type(&self) -> (r: u16)
        ensures
            r == data_type(self@),
    {
        match self {
            RecordData::A(_) => 1,
            RecordData::Aaaa(_) => 28,
            RecordData::Ptr(_) => 12,
            RecordData::Srv { .. } => 33,
            RecordData::Txt(_) => 16,
            RecordData::Cname(_) => 5,
            RecordData::Mx { .. } => 15,
            RecordData::Ns(_) => 2,
            RecordData::Foreign(data) => data.record_type(),
        }
    }

    /// How the data is written for people, if it can be.
    pub fn display(&self) -> (r: Option<String>)
        ensures
            match r {
                Some(text) => data_display(self@) == Some(text@),
                None => data_display(self@) is None,
            },
    {
        match self {
            RecordData::A(address) => Some(write_ipv4(*address)),
            RecordData::Aaaa(address) => Some(write_ipv6(*address)),
            RecordData::Ptr(name) => Some(name.text()),
            RecordData::Srv { priority, weight, port, target } => {
                let mut r = decimal_text(*priority as u64);
                r.append(" ");
                r.append(decimal_text(*weight as u64).as_str());
                r.append(" ");
                r.append(decimal_text(*port as u64).as_str());
                r.append(" ");
                r.append(target.text().as_str());
                Some(r)
            },
            RecordData::Txt(entries) => {
                let texts = write_entries(entries);
                proof {
                    reveal_strlit("");
                    assert(""@ =~= Seq::<char>::empty());
                }
                Some(join_text(texts.as_slice(), ""))
            },
            RecordData::Cname(name) => Some(name.text()),
            RecordData::Mx { preference, exchange } => {
                let mut r = decimal_text(*preference as u64);
                r.append(" ");
                r.append(exchange.text().as_str());
                Some(r)
            },
            RecordData::Ns(name) => Some(name.text()),
            RecordData::Foreign(data) => data.display(),
        }
    }
}

impl DnsRecord {
    /// The code of the type of the record.
    pub fn record_type(&self) -> (r: u16)
        ensures
            r == data_type(self@.data),
    {
        self.data.record_type()
    }
}

/// The type of a record is that of its data.
pub proof fn records_have_the_type_of_their_data(
    address: u32,
    address6: u128,
    name: Seq<Seq<u8>>,
    number: u16,
    entries: Seq<Seq<u8>>,
)
    ensures
        codes::type_code("A"@) == Some(data_type(DataView::A(address))),
        codes::type_code("AAAA"@) == Some(data_type(DataView::Aaaa(address6))),
        codes::type_code("PTR"@) == Some(data_type(DataView::Ptr(name))),
        codes::type_code("SRV"@) == Some(
            data_type(
                DataView::Srv { priority: number, weight: number, port: number, target: name },
            ),
        ),
        codes::type_code("TXT"@) == Some(data_type(DataView::Txt(entries))),
        codes::type_code("CNAME"@) == Some(data_type(DataView::Cname(name))),
        codes::type_code("MX"@) == Some(
            data_type(DataView::Mx { preference: number, exchange: name }),
        ),
        codes::type_code("NS"@) == Some(data_type(DataView::Ns(name))),
{
    codes::lemma_type_codes();
}

/// An IPv4 address is written as its four bytes, the highest first, with dots
/// between them.
pub proof fn ipv4_addresses_are_four_bytes(address: u32, a: u8, b: u8, c: u8, d: u8)
    requires
        address == a * 0x1000000 + b * 0x10000 + c * 0x100 + d,
    ensures
        ipv4_text(address) == text::decimal(a as nat) + "."@ + text::decimal(b as nat) + "."@
            + text::decimal(c as nat) + "."@ + text::decimal(d as nat),
{
    assert(address / 0x1000000 == a && address / 0x10000 % 0x100 == b && address / 0x100 % 0x100
        == c && address % 0x100 == d) by (bit_vector)
        requires
            address == a * 0x1000000 + b * 0x10000 + c * 0x100 + d,
    ;
}

/// The data of a record is shown to expressions as its address, its names and its
/// numbers, and as its entries one after the other.
pub proof fn data_is_shown_as_it_is(
    address: u32,
    address6: u128,
    name: Seq<Seq<u8>>,
    priority: u16,
    weight: u16,
    port: u16,
)
    ensures
        data_display(DataView::A(address)) == Some(ipv4_text(address)),
        data_display(DataView::Aaaa(address6)) == Some(ipv6_text(address6)),
        data_display(DataView::Ptr(name)) == Some(name_text(name)),
        data_display(DataView::Cname(name)) == Some(name_text(name)),
        data_display(DataView::Ns(name)) == Some(name_text(name)),
        data_display(DataView::Mx { preference: priority, exchange: name }) == Some(
            text::decimal(priority as nat) + " "@ + name_text(name),
        ),
        data_display(DataView::Srv { priority, weight, port, target: name }) == Some(
            text::decimal(priority as nat) + " "@ + text::decimal(weight as nat) + " "@
                + text::decimal(port as nat) + " "@ + name_text(name),
        ),
{
}

/// Every entry of a text record stands in what is shown of it.
pub proof fn text_entries_are_shown(entries: Seq<Seq<u8>>, i: int)
    requires
        0 <= i < entries.len(),
    ensures
        data_display(DataView::Txt(entries)) is Some,
        text::contains_text(data_display(DataView::Txt(entries))->0, lossy_text(entries[i])),
{
    text::joined_parts_are_contained(lossy_texts(entries), Seq::empty(), i);
    assert(lossy_texts(entries)[i] == lossy_text(entries[i]));
}

/// Entries of a text record are shown in order, with nothing between them.
pub proof fn text_entries_are_shown_in_order(entries: Seq<Seq<u8>>, entry: Seq<u8>)
    ensures
        data_display(DataView::Txt(Seq::empty())) == Some(Seq::<char>::empty()),
        data_display(DataView::Txt(entries.push(entry))) == Some(
            data_display(DataView::Txt(entries))->0 + lossy_text(entry),
        ),
{
    let none = Seq::<char>::empty();
    let texts = lossy_texts(entries);
    assert(lossy_texts(Seq::empty()) =~= Seq::<Seq<char>>::empty());
    assert(lossy_texts(entries.push(entry)) =~= texts.push(lossy_text(entry)));
    text::parts_are_joined_in_order(texts, lossy_text(entry), none);
    if entries.len() == 0 {
        assert(texts =~= Seq::<Seq<char>>::empty());
        assert(texts.push(lossy_text(entry)) =~= seq![lossy_text(entry)]);
        assert(none + lossy_text(entry) =~= lossy_text(entry));
    } else {
        assert(text::joined(texts, none) + none =~= text::joined(texts, none));
    }
}

/// Labels make up a name exactly when each has 1 to 63 bytes and all together,
/// with a byte for the length of each and one to end the name, take at most 255.
pub proof fn names_have_their_limits(labels: Seq<Seq<u8>>, label: Seq<u8>)
    ensures
        labels_size(Seq::empty()) == 0,
        labels_size(labels.push(label)) == labels_size(labels) + label.len() + 1,
        name_fits(Seq::empty()),
        name_fits(labels.push(label)) <==> (name_fits(labels) && 1 <= label.len() <= 63
            && labels_size(labels) + label.len() + 2 <= 255),
{
    let longer = labels.push(label);
    assert(longer.drop_last() =~= labels);
    assert(longer[labels.len() as int] == label);
    if name_fits(longer) {
        assert forall|i: int| 0 <= i < labels.len() implies 1 <= (
        #[trigger] labels[i]).len() <= 63 by {
            assert(longer[i] == labels[i]);
        }
    }
}

/// What a message holds is what is in its fields, section by section and in order.
pub proof fn messages_hold_their_fields(message: DnsMessage, i: int)
    ensures
        message@.header == message.header,
        message@.edns == message.edns,
        message@.queries.len() == message.queries@.len(),
        message@.answers.len() == message.answers@.len(),
        message@.authorities.len() == message.authorities@.len(),
        message@.additionals.len() == message.additionals@.len(),
        0 <= i < message.queries@.len() ==> message@.queries[i] == message.queries@[i]@,
        0 <= i < message.answers@.len() ==> message@.answers[i] == message.answers@[i]@,
        0 <= i < message.authorities@.len() ==> message@.authorities[i]
            == message.authorities@[i]@,
        0 <= i < message.additionals@.len() ==> message@.additionals[i]
            == message.additionals@[i]@,
{
}

/// What a record or a question holds is what is in its fields.
pub proof fn records_hold_their_fields(record: DnsRecord, query: DnsQuery)
    ensures
        record@.name == record.name@,
        record@.dns_class == record.dns_class,
        record@.ttl == record.ttl,
        record@.data == record.data@,
        query@.name == query.name@,
        query@.query_type == query.query_type,
        query@.query_class == query.query_class,
{
}

/// What the data of a record holds is of its kind, with its numbers, names and
/// entries.
pub proof fn data_holds_its_parts(data: RecordData, i: int)
    ensures
        data matches RecordData::A(address) ==> data@ == DataView::A(address),
        data matches RecordData::Aaaa(address) ==> data@ == DataView::Aaaa(address),
        data matches RecordData::Ptr(name) ==> data@ == DataView::Ptr(name@),
        data matches RecordData::Cname(name) ==> data@ == DataView::Cname(name@),
        data matches RecordData::Ns(name) ==> data@ == DataView::Ns(name@),
        data matches RecordData::Foreign(foreign) ==> data@ == DataView::Foreign(foreign@),
        data matches RecordData::Srv { priority, weight, port, target } ==> data@ == (
        DataView::Srv { priority, weight, port, target: target@ }),
        data matches RecordData::Mx { preference, exchange } ==> data@ == (DataView::Mx {
            preference,
            exchange: exchange@,
        }),
        data matches RecordData::Txt(entries) ==> {
            &&& data@ is Txt
            &&& data@->Txt_0.len() == entries@.len()
            &&& 0 <= i < entries@.len() ==> data@->Txt_0[i] == entries@[i]@
        },
{
}

} // verus!
