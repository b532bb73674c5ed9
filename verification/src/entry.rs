//! The JSON of log entries.
//!
//! A log entry is written in the order in which its fields are declared,
//! without those that are absent. As a value to look into, its objects have
//! their keys in ascending order, as the objects of values do.
use vstd::prelude::*;

use crate::dns_util::{
    self, DetailView, DnsMessageInfo, EntryView, MdnsLogEntry, MessageInfoView, QuestionInfo,
    QuestionInfoView, RdataDetail, RecordInfo, RecordInfoView,
};
use crate::number::{JsonNumber, NumberView};
use crate::text::{self, decimal_text};
use crate::value::{self, quoted, write_field, write_fields, write_list, Json, Value};

verus! {

// --- As a value ---

/// A number that is not negative, as a value.
pub open spec fn number(n: u64) -> Json {
    Json::Number(NumberView::PosInt(n))
}

/// An optional flag, as a field.
pub open spec fn flag_json(key: Seq<char>, flag: Option<bool>) -> Seq<(Seq<char>, Json)> {
    match flag {
        Some(b) => seq![(key, Json::Bool(b))],
        None => Seq::empty(),
    }
}

/// The parts of the data of a record, as a value.
pub open spec fn detail_json(detail: DetailView) -> Json {
    Json::Object(
        value::object_of(
            match detail {
                DetailView::Srv { priority, weight, port, target } => seq![
                    ("priority"@, number(priority as u64)),
                    ("weight"@, number(weight as u64)),
                    ("port"@, number(port as u64)),
                    ("target"@, Json::String(target)),
                ],
                DetailView::Txt { entries } => seq![
                    (
                        "entries"@,
                        Json::Array(entries.map_values(|s: Seq<char>| Json::String(s))),
                    ),
                ],
                DetailView::Mx { preference, exchange } => seq![
                    ("preference"@, number(preference as u64)),
                    ("exchange"@, Json::String(exchange)),
                ],
                DetailView::Opt => seq![("type"@, Json::String("OPT"@))],
            },
        ),
    )
}

/// A question, as a value.
pub open spec fn question_json(q: QuestionInfoView) -> Json {
    Json::Object(
        value::object_of(
            seq![
                ("name"@, Json::String(q.name)),
                ("record_type"@, Json::String(q.record_type)),
                ("class"@, Json::String(q.class)),
            ] + flag_json("prefer_unicast"@, q.prefer_unicast),
        ),
    )
}

/// A record, as a value.
pub open spec fn record_json(r: RecordInfoView) -> Json {
    Json::Object(
        value::object_of(
            seq![
                ("name"@, Json::String(r.name)),
                ("record_type"@, Json::String(r.record_type)),
                ("class"@, Json::String(r.class)),
                ("ttl"@, number(r.ttl as u64)),
            ] + flag_json("cache_flush"@, r.cache_flush) + seq![("rdata"@, Json::String(r.rdata))]
                + match r.rdata_detail {
                Some(detail) => seq![("rdata_detail"@, detail_json(detail))],
                None => Seq::empty(),
            },
        ),
    )
}

/// Some questions, as values.
pub open spec fn questions_json(questions: Seq<QuestionInfoView>) -> Seq<Json> {
    questions.map_values(|q: QuestionInfoView| question_json(q))
}

/// Some records, as values.
pub open spec fn records_json(records: Seq<RecordInfoView>) -> Seq<Json> {
    records.map_values(|r: RecordInfoView| record_json(r))
}

/// A message, as a value.
pub open spec fn message_json(m: MessageInfoView) -> Json {
    Json::Object(
        value::object_of(
            seq![
                ("id"@, number(m.id as u64)),
                ("message_type"@, Json::String(m.message_type)),
                ("opcode"@, Json::String(m.opcode)),
                ("authoritative"@, Json::Bool(m.authoritative)),
                ("truncated"@, Json::Bool(m.truncated)),
                ("recursion_desired"@, Json::Bool(m.recursion_desired)),
                ("recursion_available"@, Json::Bool(m.recursion_available)),
                ("response_code"@, Json::String(m.response_code)),
                ("question_count"@, number(m.question_count as u64)),
                ("answer_count"@, number(m.answer_count as u64)),
                ("authority_count"@, number(m.authority_count as u64)),
                ("additional_count"@, number(m.additional_count as u64)),
                ("questions"@, Json::Array(questions_json(m.questions))),
                ("answers"@, Json::Array(records_json(m.answers))),
                ("authorities"@, Json::Array(records_json(m.authorities))),
                ("additionals"@, Json::Array(records_json(m.additionals))),
            ],
        ),
    )
}

/// A log entry, as a value.
pub open spec fn entry_json(e: EntryView) -> Json {
    Json::Object(
        value::object_of(
            seq![
                ("timestamp"@, Json::String(e.timestamp)),
                ("interface"@, Json::String(e.interface)),
                ("source"@, Json::String(e.source)),
                ("packet_size"@, number(e.packet_size as u64)),
                ("message"@, message_json(e.message)),
            ],
        ),
    )
}

/// A log entry holds no floats.
pub proof fn lemma_entry_float_free(e: EntryView)
    ensures
        value::float_free(entry_json(e)),
{
    lemma_message_float_free(e.message);
    value::lemma_object_float_free(
        seq![
            ("timestamp"@, Json::String(e.timestamp)),
            ("interface"@, Json::String(e.interface)),
            ("source"@, Json::String(e.source)),
            ("packet_size"@, number(e.packet_size as u64)),
            ("message"@, message_json(e.message)),
        ],
    );
}

proof fn lemma_message_float_free(m: MessageInfoView)
    ensures
        value::float_free(message_json(m)),
{
    let questions = questions_json(m.questions);
    assert forall|i: int| 0 <= i < questions.len() implies value::float_free(
        #[trigger] questions[i],
    ) by {
        lemma_question_float_free(m.questions[i]);
    }
    lemma_records_float_free(m.answers);
    lemma_records_float_free(m.authorities);
    lemma_records_float_free(m.additionals);
    value::lemma_object_float_free(
        seq![
            ("id"@, number(m.id as u64)),
            ("message_type"@, Json::String(m.message_type)),
            ("opcode"@, Json::String(m.opcode)),
            ("authoritative"@, Json::Bool(m.authoritative)),
            ("truncated"@, Json::Bool(m.truncated)),
            ("recursion_desired"@, Json::Bool(m.recursion_desired)),
            ("recursion_available"@, Json::Bool(m.recursion_available)),
            ("response_code"@, Json::String(m.response_code)),
            ("question_count"@, number(m.question_count as u64)),
            ("answer_count"@, number(m.answer_count as u64)),
            ("authority_count"@, number(m.authority_count as u64)),
            ("additional_count"@, number(m.additional_count as u64)),
            ("questions"@, Json::Array(questions_json(m.questions))),
            ("answers"@, Json::Array(records_json(m.answers))),
            ("authorities"@, Json::Array(records_json(m.authorities))),
            ("additionals"@, Json::Array(records_json(m.additionals))),
        ],
    );
}

proof fn lemma_records_float_free(records: Seq<RecordInfoView>)
    ensures
        value::float_free(Json::Array(records_json(records))),
{
    let all = records_json(records);
    assert forall|i: int| 0 <= i < all.len() implies value::float_free(#[trigger] all[i]) by {
        lemma_record_float_free(records[i]);
    }
}

proof fn lemma_question_float_free(q: QuestionInfoView)
    ensures
        value::float_free(question_json(q)),
{
    value::lemma_object_float_free(
        seq![
            ("name"@, Json::String(q.name)),
            ("record_type"@, Json::String(q.record_type)),
            ("class"@, Json::String(q.class)),
        ] + flag_json("prefer_unicast"@, q.prefer_unicast),
    );
}

proof fn lemma_record_float_free(r: RecordInfoView)
    ensures
        value::float_free(record_json(r)),
{
    if let Some(detail) = r.rdata_detail {
        lemma_detail_float_free(detail);
    }
    value::lemma_object_float_free(
        seq![
            ("name"@, Json::String(r.name)),
            ("record_type"@, Json::String(r.record_type)),
            ("class"@, Json::String(r.class)),
            ("ttl"@, number(r.ttl as u64)),
        ] + flag_json("cache_flush"@, r.cache_flush) + seq![("rdata"@, Json::String(r.rdata))]
            + match r.rdata_detail {
            Some(detail) => seq![("rdata_detail"@, detail_json(detail))],
            None => Seq::empty(),
        },
    );
}

proof fn lemma_detail_float_free(detail: DetailView)
    ensures
        value::float_free(detail_json(detail)),
{
    match detail {
        DetailView::Srv { priority, weight, port, target } => {
            value::lemma_object_float_free(
                seq![
                    ("priority"@, number(priority as u64)),
                    ("weight"@, number(weight as u64)),
                    ("port"@, number(port as u64)),
                    ("target"@, Json::String(target)),
                ],
            );
        },
        DetailView::Txt { entries } => {
            let items = entries.map_values(|s: Seq<char>| Json::String(s));
            assert forall|i: int| 0 <= i < items.len() implies value::float_free(
                #[trigger] items[i],
            ) by {
                assert(items[i] == Json::String(entries[i]));
            }
            assert(value::float_free(Json::Array(items)));
            value::lemma_object_float_free(seq![("entries"@, Json::Array(items))]);
        },
        DetailView::Mx { preference, exchange } => {
            value::lemma_object_float_free(
                seq![
                    ("preference"@, number(preference as u64)),
                    ("exchange"@, Json::String(exchange)),
                ],
            );
        },
        DetailView::Opt => {
            value::lemma_object_float_free(seq![("type"@, Json::String("OPT"@))]);
        },
    }
}

/// Adds a field.
fn put(fields: &mut Vec<(String, Value)>, key: &str, value: Value)
    ensures
        value::fields_of(final(fields)@) == value::fields_of(old(fields)@).push((key@, value@)),
{
    let ghost before = fields@;
    fields.push((key.to_owned(), value));
    assert(value::fields_of(fields@) =~= value::fields_of(before).push((key@, value@)));
}

/// A number that is not negative, as a value.
fn number_value(n: u64) -> (r: Value)
    ensures
        r@ == number(n),
{
    Value::Number(JsonNumber::PosInt(n))
}

/// A string, as a value.
fn string_value(s: &String) -> (r: Value)
    ensures
        r@ == Json::String(s@),
{
    Value::String(s.clone())
}

impl RdataDetail {
    /// The parts, as a value.
    pub fn to_value(&self) -> (r: Value)
        ensures
            r@ == detail_json(self@),
    {
        let mut fields: Vec<(String, Value)> = Vec::new();
        let ghost empty = value::fields_of(fields@);
        assert(empty =~= Seq::<(Seq<char>, Json)>::empty());
        match self {
            RdataDetail::Srv { priority, weight, port, target } => {
                put(&mut fields, "priority", number_value(*priority as u64));
                put(&mut fields, "weight", number_value(*weight as u64));
                put(&mut fields, "port", number_value(*port as u64));
                put(&mut fields, "target", string_value(target));
                assert(value::fields_of(fields@) =~= seq![
                    ("priority"@, number(*priority as u64)),
                    ("weight"@, number(*weight as u64)),
                    ("port"@, number(*port as u64)),
                    ("target"@, Json::String(target@)),
                ]);
            },
            RdataDetail::Txt { entries } => {
                put(&mut fields, "entries", Value::strings(entries));
                let ghost texts = text::views(entries@);
                assert(value::fields_of(fields@) =~= seq![
                    (
                        "entries"@,
                        Json::Array(texts.map_values(|s: Seq<char>| Json::String(s))),
                    ),
                ]);
            },
            RdataDetail::Mx { preference, exchange } => {
                put(&mut fields, "preference", number_value(*preference as u64));
                put(&mut fields, "exchange", string_value(exchange));
                assert(value::fields_of(fields@) =~= seq![
                    ("preference"@, number(*preference as u64)),
                    ("exchange"@, Json::String(exchange@)),
                ]);
            },
            RdataDetail::Opt => {
                put(&mut fields, "type", Value::String("OPT".to_owned()));
                assert(value::fields_of(fields@) =~= seq![("type"@, Json::String("OPT"@))]);
            },
        }
        Value::object(fields)
    }
}

impl QuestionInfo {
    /// The question, as a value.
    pub fn to_value(&self) -> (r: Value)
        ensures
            r@ == question_json(self@),
    {
        let mut fields: Vec<(String, Value)> = Vec::new();
        put(&mut fields, "name", string_value(&self.name));
        put(&mut fields, "record_type", string_value(&self.record_type));
        put(&mut fields, "class", string_value(&self.class));
        if let Some(flag) = self.prefer_unicast {
            put(&mut fields, "prefer_unicast", Value::Bool(flag));
        }
        assert(value::fields_of(fields@) =~= seq![
            ("name"@, Json::String(self.name@)),
            ("record_type"@, Json::String(self.record_type@)),
            ("class"@, Json::String(self.class@)),
        ] + flag_json("prefer_unicast"@, self.prefer_unicast));
        Value::object(fields)
    }
}

impl RecordInfo {
    /// The record, as a value.
    pub fn to_value(&self) -> (r: Value)
        ensures
            r@ == record_json(self@),
    {
        let mut fields: Vec<(String, Value)> = Vec::new();
        put(&mut fields, "name", string_value(&self.name));
        put(&mut fields, "record_type", string_value(&self.record_type));
        put(&mut fields, "class", string_value(&self.class));
        put(&mut fields, "ttl", number_value(self.ttl as u64));
        if let Some(flag) = self.cache_flush {
            put(&mut fields, "cache_flush", Value::Bool(flag));
        }
        put(&mut fields, "rdata", string_value(&self.rdata));
        if let Some(detail) = &self.rdata_detail {
            put(&mut fields, "rdata_detail", detail.to_value());
        }
        assert(value::fields_of(fields@) =~= seq![
            ("name"@, Json::String(self.name@)),
            ("record_type"@, Json::String(self.record_type@)),
            ("class"@, Json::String(self.class@)),
            ("ttl"@, number(self.ttl as u64)),
        ] + flag_json("cache_flush"@, self.cache_flush) + seq![
            ("rdata"@, Json::String(self.rdata@)),
        ] + match self@.rdata_detail {
            Some(detail) => seq![("rdata_detail"@, detail_json(detail))],
            None => Seq::empty(),
        });
        Value::object(fields)
    }
}

/// Some questions, as an array.
fn question_values(questions: &Vec<QuestionInfo>) -> (r: Value)
    ensures
        r@ == Json::Array(questions_json(dns_util::question_views(questions@))),
{
    let mut values: Vec<Value> = Vec::new();
    let mut i: usize = 0;
    while i < questions.len()
        invariant
            i <= questions@.len(),
            values@.len() == i,
            forall|j: int|
                0 <= j < i ==> (#[trigger] values@[j])@ == question_json(questions@[j]@),
        decreases questions@.len() - i,
    {
        values.push(questions[i].to_value());
        i += 1;
    }
    let r = Value::Array(values);
    assert(r@->Array_0 =~= questions_json(dns_util::question_views(questions@)));
    r
}

/// Some records, as an array.
fn record_values(records: &Vec<RecordInfo>) -> (r: Value)
    ensures
        r@ == Json::Array(records_json(dns_util::record_views(records@))),
{
    let mut values: Vec<Value> = Vec::new();
    let mut i: usize = 0;
    while i < records.len()
        invariant
            i <= records@.len(),
            values@.len() == i,
            forall|j: int| 0 <= j < i ==> (#[trigger] values@[j])@ == record_json(records@[j]@),
        decreases records@.len() - i,
    {
        values.push(records[i].to_value());
        i += 1;
    }
    let r = Value::Array(values);
    assert(r@->Array_0 =~= records_json(dns_util::record_views(records@)));
    r
}

impl DnsMessageInfo {
    /// The message, as a value.
    pub fn to_value(&self) -> (r: Value)
        ensures
            r@ == message_json(self@),
    {
        let mut fields: Vec<(String, Value)> = Vec::new();
        put(&mut fields, "id", number_value(self.id as u64));
        put(&mut fields, "message_type", string_value(&self.message_type));
        put(&mut fields, "opcode", string_value(&self.opcode));
        put(&mut fields, "authoritative", Value::Bool(self.authoritative));
        put(&mut fields, "truncated", Value::Bool(self.truncated));
        put(&mut fields, "recursion_desired", Value::Bool(self.recursion_desired));
        put(&mut fields, "recursion_available", Value::Bool(self.recursion_available));
        put(&mut fields, "response_code", string_value(&self.response_code));
        put(&mut fields, "question_count", number_value(self.question_count as u64));
        put(&mut fields, "answer_count", number_value(self.answer_count as u64));
        put(&mut fields, "authority_count", number_value(self.authority_count as u64));
        put(&mut fields, "additional_count", number_value(self.additional_count as u64));
        put(&mut fields, "questions", question_values(&self.questions));
        put(&mut fields, "answers", record_values(&self.answers));
        put(&mut fields, "authorities", record_values(&self.authorities));
        put(&mut fields, "additionals", record_values(&self.additionals));
        let ghost m = self@;
        assert(value::fields_of(fields@) =~= seq![
            ("id"@, number(m.id as u64)),
            ("message_type"@, Json::String(m.message_type)),
            ("opcode"@, Json::String(m.opcode)),
            ("authoritative"@, Json::Bool(m.authoritative)),
            ("truncated"@, Json::Bool(m.truncated)),
            ("recursion_desired"@, Json::Bool(m.recursion_desired)),
            ("recursion_available"@, Json::Bool(m.recursion_available)),
            ("response_code"@, Json::String(m.response_code)),
            ("question_count"@, number(m.question_count as u64)),
            ("answer_count"@, number(m.answer_count as u64)),
            ("authority_count"@, number(m.authority_count as u64)),
            ("additional_count"@, number(m.additional_count as u64)),
            ("questions"@, Json::Array(questions_json(m.questions))),
            ("answers"@, Json::Array(records_json(m.answers))),
            ("authorities"@, Json::Array(records_json(m.authorities))),
            ("additionals"@, Json::Array(records_json(m.additionals))),
        ]);
        Value::object(fields)
    }
}

impl MdnsLogEntry {
    /// The log entry, as a value.
    pub fn to_value(&self) -> (r: Value)
        ensures
            r@ == entry_json(self@),
    {
        let mut fields: Vec<(String, Value)> = Vec::new();
        put(&mut fields, "timestamp", string_value(&self.timestamp));
        put(&mut fields, "interface", string_value(&self.interface));
        put(&mut fields, "source", string_value(&self.source));
        put(&mut fields, "packet_size", number_value(self.packet_size as u64));
        put(&mut fields, "message", self.message.to_value());
        let ghost e = self@;
        assert(value::fields_of(fields@) =~= seq![
            ("timestamp"@, Json::String(e.timestamp)),
            ("interface"@, Json::String(e.interface)),
            ("source"@, Json::String(e.source)),
            ("packet_size"@, number(e.packet_size as u64)),
            ("message"@, message_json(e.message)),
        ]);
        Value::object(fields)
    }
}

// --- As a line ---

/// The text of a field that holds a string.
pub open spec fn string_field(key: Seq<char>, s: Seq<char>) -> Seq<char> {
    value::field_text(key, value::json_quoted(s))
}

/// The text of a field that holds a number.
pub open spec fn number_field(key: Seq<char>, n: nat) -> Seq<char> {
    value::field_text(key, text::decimal(n))
}

/// The text of a field that holds a boolean.
pub open spec fn bool_field(key: Seq<char>, b: bool) -> Seq<char> {
    value::field_text(
        key,
        if b {
            "true"@
        } else {
            "false"@
        },
    )
}

/// The text of an optional flag.
pub open spec fn flag_texts(key: Seq<char>, flag: Option<bool>) -> Seq<Seq<char>> {
    match flag {
        Some(b) => seq![bool_field(key, b)],
        None => Seq::empty(),
    }
}

/// The JSON strings of some texts.
pub open spec fn quoted_texts(texts: Seq<Seq<char>>) -> Seq<Seq<char>> {
    texts.map_values(|t: Seq<char>| value::json_quoted(t))
}

/// The text of the parts of the data of a record.
pub open spec fn detail_text(detail: DetailView) -> Seq<char> {
    value::fields_text(
        match detail {
            DetailView::Srv { priority, weight, port, target } => seq![
                number_field("port"@, port as nat),
                number_field("priority"@, priority as nat),
                string_field("target"@, target),
                number_field("weight"@, weight as nat),
            ],
            DetailView::Txt { entries } => seq![
                value::field_text("entries"@, value::list_text(quoted_texts(entries))),
            ],
            DetailView::Mx { preference, exchange } => seq![
                string_field("exchange"@, exchange),
                number_field("preference"@, preference as nat),
            ],
            DetailView::Opt => seq![string_field("type"@, "OPT"@)],
        },
    )
}

/// The text of a question.
pub open spec fn question_text(q: QuestionInfoView) -> Seq<char> {
    value::fields_text(
        seq![
            string_field("name"@, q.name),
            string_field("record_type"@, q.record_type),
            string_field("class"@, q.class),
        ] + flag_texts("prefer_unicast"@, q.prefer_unicast),
    )
}

/// The text of a record.
pub open spec fn record_text(r: RecordInfoView) -> Seq<char> {
    value::fields_text(
        seq![
            string_field("name"@, r.name),
            string_field("record_type"@, r.record_type),
            string_field("class"@, r.class),
            number_field("ttl"@, r.ttl as nat),
        ] + flag_texts("cache_flush"@, r.cache_flush) + seq![string_field("rdata"@, r.rdata)]
            + match r.rdata_detail {
            Some(detail) => seq![value::field_text("rdata_detail"@, detail_text(detail))],
            None => Seq::empty(),
        },
    )
}

/// The texts of some questions.
pub open spec fn question_texts(questions: Seq<QuestionInfoView>) -> Seq<Seq<char>> {
    questions.map_values(|q: QuestionInfoView| question_text(q))
}

/// The texts of some records.
pub open spec fn record_texts(records: Seq<RecordInfoView>) -> Seq<Seq<char>> {
    records.map_values(|r: RecordInfoView| record_text(r))
}

/// The text of a message.
pub open spec fn message_text(m: MessageInfoView) -> Seq<char> {
    value::fields_text(
        seq![
            number_field("id"@, m.id as nat),
            string_field("message_type"@, m.message_type),
            string_field("opcode"@, m.opcode),
            bool_field("authoritative"@, m.authoritative),
            bool_field("truncated"@, m.truncated),
            bool_field("recursion_desired"@, m.recursion_desired),
            bool_field("recursion_available"@, m.recursion_available),
            string_field("response_code"@, m.response_code),
            number_field("question_count"@, m.question_count as nat),
            number_field("answer_count"@, m.answer_count as nat),
            number_field("authority_count"@, m.authority_count as nat),
            number_field("additional_count"@, m.additional_count as nat),
            value::field_text("questions"@, value::list_text(question_texts(m.questions))),
            value::field_text("answers"@, value::list_text(record_texts(m.answers))),
            value::field_text("authorities"@, value::list_text(record_texts(m.authorities))),
            value::field_text("additionals"@, value::list_text(record_texts(m.additionals))),
        ],
    )
}

/// The text of a log entry.
pub open spec fn entry_text(e: EntryView) -> Seq<char> {
    value::fields_text(
        seq![
            string_field("timestamp"@, e.timestamp),
            string_field("interface"@, e.interface),
            string_field("source"@, e.source),
            number_field("packet_size"@, e.packet_size as nat),
            value::field_text("message"@, message_text(e.message)),
        ],
    )
}

/// Adds the text of a field.
fn append_part(parts: &mut Vec<String>, part: String)
    ensures
        text::views(final(parts)@) == text::views(old(parts)@).push(part@),
{
    let ghost before = parts@;
    parts.push(part);
    assert(text::views(parts@) =~= text::views(before).push(part@));
}

fn write_string_field(key: &str, s: &str) -> (r: String)
    ensures
        r@ == string_field(key@, s@),
{
    write_field(key, quoted(s).as_str())
}

fn write_number_field(key: &str, n: u64) -> (r: String)
    ensures
        r@ == number_field(key@, n as nat),
{
    write_field(key, decimal_text(n).as_str())
}

fn write_bool_field(key: &str, b: bool) -> (r: String)
    ensures
        r@ == bool_field(key@, b),
{
    write_field(
        key,
        if b {
            "true"
        } else {
            "false"
        },
    )
}

impl RdataDetail {
    /// The text of the parts.
    pub fn to_text(&self) -> (r: String)
        ensures
            r@ == detail_text(self@),
    {
        let mut parts: Vec<String> = Vec::new();
        let ghost none = text::views(parts@);
        assert(none =~= Seq::<Seq<char>>::empty());
        match self {
            RdataDetail::Srv { priority, weight, port, target } => {
                append_part(&mut parts, write_number_field("port", *port as u64));
                append_part(&mut parts, write_number_field("priority", *priority as u64));
                append_part(&mut parts, write_string_field("target", target.as_str()));
                append_part(&mut parts, write_number_field("weight", *weight as u64));
                assert(text::views(parts@) =~= seq![
                    number_field("port"@, *port as nat),
                    number_field("priority"@, *priority as nat),
                    string_field("target"@, target@),
                    number_field("weight"@, *weight as nat),
                ]);
            },
            RdataDetail::Txt { entries } => {
                let ghost texts = text::views(entries@);
                let mut items: Vec<String> = Vec::new();
                let mut i: usize = 0;
                while i < entries.len()
                    invariant
                        i <= entries@.len(),
                        items@.len() == i,
                        forall|j: int|
                            0 <= j < i ==> (#[trigger] items@[j])@ == value::json_quoted(
                                entries@[j]@,
                            ),
                    decreases entries@.len() - i,
                {
                    items.push(quoted(entries[i].as_str()));
                    i += 1;
                }
                assert(text::views(items@) =~= quoted_texts(texts));
                append_part(
                    &mut parts,
                    write_field("entries", write_list(items.as_slice()).as_str()),
                );
                assert(text::views(parts@) =~= seq![
                    value::field_text("entries"@, value::list_text(quoted_texts(texts))),
                ]);
            },
            RdataDetail::Mx { preference, exchange } => {
                append_part(&mut parts, write_string_field("exchange", exchange.as_str()));
                append_part(&mut parts, write_number_field("preference", *preference as u64));
                assert(text::views(parts@) =~= seq![
                    string_field("exchange"@, exchange@),
                    number_field("preference"@, *preference as nat),
                ]);
            },
            RdataDetail::Opt => {
                append_part(&mut parts, write_string_field("type", "OPT"));
                assert(text::views(parts@) =~= seq![string_field("type"@, "OPT"@)]);
            },
        }
        write_fields(parts.as_slice())
    }
}

impl QuestionInfo {
    /// The text of the question.
    pub fn to_text(&self) -> (r: String)
        ensures
            r@ == question_text(self@),
    {
        let mut parts: Vec<String> = Vec::new();
        append_part(&mut parts, write_string_field("name", self.name.as_str()));
        append_part(&mut parts, write_string_field("record_type", self.record_type.as_str()));
        append_part(&mut parts, write_string_field("class", self.class.as_str()));
        if let Some(flag) = self.prefer_unicast {
            append_part(&mut parts, write_bool_field("prefer_unicast", flag));
        }
        assert(text::views(parts@) =~= seq![
            string_field("name"@, self.name@),
            string_field("record_type"@, self.record_type@),
            string_field("class"@, self.class@),
        ] + flag_texts("prefer_unicast"@, self.prefer_unicast));
        write_fields(parts.as_slice())
    }
}

impl RecordInfo {
    /// The text of the record.
    pub fn to_text(&self) -> (r: String)
        ensures
            r@ == record_text(self@),
    {
        let mut parts: Vec<String> = Vec::new();
        append_part(&mut parts, write_string_field("name", self.name.as_str()));
        append_part(&mut parts, write_string_field("record_type", self.record_type.as_str()));
        append_part(&mut parts, write_string_field("class", self.class.as_str()));
        append_part(&mut parts, write_number_field("ttl", self.ttl as u64));
        if let Some(flag) = self.cache_flush {
            append_part(&mut parts, write_bool_field("cache_flush", flag));
        }
        append_part(&mut parts, write_string_field("rdata", self.rdata.as_str()));
        if let Some(detail) = &self.rdata_detail {
            append_part(&mut parts, write_field("rdata_detail", detail.to_text().as_str()));
        }
        assert(text::views(parts@) =~= seq![
            string_field("name"@, self.name@),
            string_field("record_type"@, self.record_type@),
            string_field("class"@, self.class@),
            number_field("ttl"@, self.ttl as nat),
        ] + flag_texts("cache_flush"@, self.cache_flush) + seq![
            string_field("rdata"@, self.rdata@),
        ] + match self@.rdata_detail {
            Some(detail) => seq![value::field_text("rdata_detail"@, detail_text(detail))],
            None => Seq::empty(),
        });
        write_fields(parts.as_slice())
    }
}

/// The text of some questions.
fn write_questions(questions: &Vec<QuestionInfo>) -> (r: String)
    ensures
        r@ == value::list_text(question_texts(dns_util::question_views(questions@))),
{
    let mut parts: Vec<String> = Vec::new();
    let mut i: usize = 0;
    while i < questions.len()
        invariant
            i <= questions@.len(),
            parts@.len() == i,
            forall|j: int| 0 <= j < i ==> (#[trigger] parts@[j])@ == question_text(questions@[j]@),
        decreases questions@.len() - i,
    {
        parts.push(questions[i].to_text());
        i += 1;
    }
    assert(text::views(parts@) =~= question_texts(dns_util::question_views(questions@)));
    write_list(parts.as_slice())
}

/// The text of some records.
fn write_records(records: &Vec<RecordInfo>) -> (r: String)
    ensures
        r@ == value::list_text(record_texts(dns_util::record_views(records@))),
{
    let mut parts: Vec<String> = Vec::new();
    let mut i: usize = 0;
    while i < records.len()
        invariant
            i <= records@.len(),
            parts@.len() == i,
            forall|j: int| 0 <= j < i ==> (#[trigger] parts@[j])@ == record_text(records@[j]@),
        decreases records@.len() - i,
    {
        parts.push(records[i].to_text());
        i += 1;
    }
    assert(text::views(parts@) =~= record_texts(dns_util::record_views(records@)));
    write_list(parts.as_slice())
}

impl DnsMessageInfo {
    /// The text of the message.
    pub fn to_text(&self) -> (r: String)
        ensures
            r@ == message_text(self@),
    {
        let mut parts: Vec<String> = Vec::new();
        append_part(&mut parts, write_number_field("id", self.id as u64));
        append_part(&mut parts, write_string_field("message_type", self.message_type.as_str()));
        append_part(&mut parts, write_string_field("opcode", self.opcode.as_str()));
        append_part(&mut parts, write_bool_field("authoritative", self.authoritative));
        append_part(&mut parts, write_bool_field("truncated", self.truncated));
        append_part(&mut parts, write_bool_field("recursion_desired", self.recursion_desired));
        append_part(&mut parts, write_bool_field("recursion_available", self.recursion_available));
        append_part(&mut parts, write_string_field("response_code", self.response_code.as_str()));
        append_part(&mut parts, write_number_field("question_count", self.question_count as u64));
        append_part(&mut parts, write_number_field("answer_count", self.answer_count as u64));
        append_part(&mut parts, write_number_field("authority_count", self.authority_count as u64));
        append_part(&mut parts, write_number_field("additional_count", self.additional_count as u64));
        append_part(&mut parts, write_field("questions", write_questions(&self.questions).as_str()));
        append_part(&mut parts, write_field("answers", write_records(&self.answers).as_str()));
        append_part(&mut parts, write_field("authorities", write_records(&self.authorities).as_str()));
        append_part(&mut parts, write_field("additionals", write_records(&self.additionals).as_str()));
        let ghost m = self@;
        assert(text::views(parts@) =~= seq![
            number_field("id"@, m.id as nat),
            string_field("message_type"@, m.message_type),
            string_field("opcode"@, m.opcode),
            bool_field("authoritative"@, m.authoritative),
            bool_field("truncated"@, m.truncated),
            bool_field("recursion_desired"@, m.recursion_desired),
            bool_field("recursion_available"@, m.recursion_available),
            string_field("response_code"@, m.response_code),
            number_field("question_count"@, m.question_count as nat),
            number_field("answer_count"@, m.answer_count as nat),
            number_field("authority_count"@, m.authority_count as nat),
            number_field("additional_count"@, m.additional_count as nat),
            value::field_text("questions"@, value::list_text(question_texts(m.questions))),
            value::field_text("answers"@, value::list_text(record_texts(m.answers))),
            value::field_text("authorities"@, value::list_text(record_texts(m.authorities))),
            value::field_text("additionals"@, value::list_text(record_texts(m.additionals))),
        ]);
        write_fields(parts.as_slice())
    }
}

impl MdnsLogEntry {
    /// The text of the log entry.
    pub fn to_text(&self) -> (r: String)
        ensures
            r@ == entry_text(self@),
    {
        let mut parts: Vec<String> = Vec::new();
        append_part(&mut parts, write_string_field("timestamp", self.timestamp.as_str()));
        append_part(&mut parts, write_string_field("interface", self.interface.as_str()));
        append_part(&mut parts, write_string_field("source", self.source.as_str()));
        append_part(&mut parts, write_number_field("packet_size", self.packet_size as u64));
        append_part(&mut parts, write_field("message", self.message.to_text().as_str()));
        let ghost e = self@;
        assert(text::views(parts@) =~= seq![
            string_field("timestamp"@, e.timestamp),
            string_field("interface"@, e.interface),
            string_field("source"@, e.source),
            number_field("packet_size"@, e.packet_size as nat),
            value::field_text("message"@, message_text(e.message)),
        ]);
        write_fields(parts.as_slice())
    }
}

// --- Laws ---

proof fn lemma_string_field(key: Seq<char>, s: Seq<char>)
    ensures
        text::one_line(string_field(key, s)),
{
    value::lemma_quoted_one_line(s);
    value::lemma_field_one_line(key, value::json_quoted(s));
}

proof fn lemma_number_field(key: Seq<char>, n: nat)
    ensures
        text::one_line(number_field(key, n)),
{
    text::lemma_decimal_one_line(n);
    value::lemma_field_one_line(key, text::decimal(n));
}

proof fn lemma_bool_field(key: Seq<char>, b: bool)
    ensures
        text::one_line(bool_field(key, b)),
{
    reveal_strlit("true");
    reveal_strlit("false");
    value::lemma_field_one_line(
        key,
        if b {
            "true"@
        } else {
            "false"@
        },
    );
}

proof fn lemma_detail_one_line(detail: DetailView)
    ensures
        text::one_line(detail_text(detail)),
{
    match detail {
        DetailView::Srv { priority, weight, port, target } => {
            lemma_number_field("port"@, port as nat);
            lemma_number_field("priority"@, priority as nat);
            lemma_string_field("target"@, target);
            lemma_number_field("weight"@, weight as nat);
            value::lemma_fields_one_line(
                seq![
                    number_field("port"@, port as nat),
                    number_field("priority"@, priority as nat),
                    string_field("target"@, target),
                    number_field("weight"@, weight as nat),
                ],
            );
        },
        DetailView::Txt { entries } => {
            let items = quoted_texts(entries);
            assert forall|i: int| 0 <= i < items.len() implies text::one_line(
                #[trigger] items[i],
            ) by {
                value::lemma_quoted_one_line(entries[i]);
            }
            value::lemma_list_one_line(items);
            value::lemma_field_one_line("entries"@, value::list_text(items));
            value::lemma_fields_one_line(
                seq![value::field_text("entries"@, value::list_text(items))],
            );
        },
        DetailView::Mx { preference, exchange } => {
            lemma_string_field("exchange"@, exchange);
            lemma_number_field("preference"@, preference as nat);
            value::lemma_fields_one_line(
                seq![
                    string_field("exchange"@, exchange),
                    number_field("preference"@, preference as nat),
                ],
            );
        },
        DetailView::Opt => {
            lemma_string_field("type"@, "OPT"@);
            value::lemma_fields_one_line(seq![string_field("type"@, "OPT"@)]);
        },
    }
}

proof fn lemma_question_one_line(q: QuestionInfoView)
    ensures
        text::one_line(question_text(q)),
{
    lemma_string_field("name"@, q.name);
    lemma_string_field("record_type"@, q.record_type);
    lemma_string_field("class"@, q.class);
    if let Some(flag) = q.prefer_unicast {
        lemma_bool_field("prefer_unicast"@, flag);
    }
    value::lemma_fields_one_line(
        seq![
            string_field("name"@, q.name),
            string_field("record_type"@, q.record_type),
            string_field("class"@, q.class),
        ] + flag_texts("prefer_unicast"@, q.prefer_unicast),
    );
}

proof fn lemma_record_one_line(r: RecordInfoView)
    ensures
        text::one_line(record_text(r)),
{
    lemma_string_field("name"@, r.name);
    lemma_string_field("record_type"@, r.record_type);
    lemma_string_field("class"@, r.class);
    lemma_number_field("ttl"@, r.ttl as nat);
    lemma_string_field("rdata"@, r.rdata);
    if let Some(flag) = r.cache_flush {
        lemma_bool_field("cache_flush"@, flag);
    }
    if let Some(detail) = r.rdata_detail {
        lemma_detail_one_line(detail);
        value::lemma_field_one_line("rdata_detail"@, detail_text(detail));
    }
    value::lemma_fields_one_line(
        seq![
            string_field("name"@, r.name),
            string_field("record_type"@, r.record_type),
            string_field("class"@, r.class),
            number_field("ttl"@, r.ttl as nat),
        ] + flag_texts("cache_flush"@, r.cache_flush) + seq![string_field("rdata"@, r.rdata)]
            + match r.rdata_detail {
            Some(detail) => seq![value::field_text("rdata_detail"@, detail_text(detail))],
            None => Seq::empty(),
        },
    );
}

proof fn lemma_records_one_line(key: Seq<char>, records: Seq<RecordInfoView>)
    ensures
        text::one_line(value::field_text(key, value::list_text(record_texts(records)))),
{
    let items = record_texts(records);
    assert forall|i: int| 0 <= i < items.len() implies text::one_line(#[trigger] items[i]) by {
        lemma_record_one_line(records[i]);
    }
    value::lemma_list_one_line(items);
    value::lemma_field_one_line(key, value::list_text(items));
}

proof fn lemma_message_one_line(m: MessageInfoView)
    ensures
        text::one_line(message_text(m)),
{
    let items = question_texts(m.questions);
    assert forall|i: int| 0 <= i < items.len() implies text::one_line(#[trigger] items[i]) by {
        lemma_question_one_line(m.questions[i]);
    }
    value::lemma_list_one_line(items);
    value::lemma_field_one_line("questions"@, value::list_text(items));
    lemma_number_field("id"@, m.id as nat);
    lemma_string_field("message_type"@, m.message_type);
    lemma_string_field("opcode"@, m.opcode);
    lemma_bool_field("authoritative"@, m.authoritative);
    lemma_bool_field("truncated"@, m.truncated);
    lemma_bool_field("recursion_desired"@, m.recursion_desired);
    lemma_bool_field("recursion_available"@, m.recursion_available);
    lemma_string_field("response_code"@, m.response_code);
    lemma_number_field("question_count"@, m.question_count as nat);
    lemma_number_field("answer_count"@, m.answer_count as nat);
    lemma_number_field("authority_count"@, m.authority_count as nat);
    lemma_number_field("additional_count"@, m.additional_count as nat);
    lemma_records_one_line("answers"@, m.answers);
    lemma_records_one_line("authorities"@, m.authorities);
    lemma_records_one_line("additionals"@, m.additionals);
    value::lemma_fields_one_line(
        seq![
            number_field("id"@, m.id as nat),
            string_field("message_type"@, m.message_type),
            string_field("opcode"@, m.opcode),
            bool_field("authoritative"@, m.authoritative),
            bool_field("truncated"@, m.truncated),
            bool_field("recursion_desired"@, m.recursion_desired),
            bool_field("recursion_available"@, m.recursion_available),
            string_field("response_code"@, m.response_code),
            number_field("question_count"@, m.question_count as nat),
            number_field("answer_count"@, m.answer_count as nat),
            number_field("authority_count"@, m.authority_count as nat),
            number_field("additional_count"@, m.additional_count as nat),
            value::field_text("questions"@, value::list_text(question_texts(m.questions))),
            value::field_text("answers"@, value::list_text(record_texts(m.answers))),
            value::field_text("authorities"@, value::list_text(record_texts(m.authorities))),
            value::field_text("additionals"@, value::list_text(record_texts(m.additionals))),
        ],
    );
}

/// A log entry is a single line, whatever the names and texts in it hold.
pub proof fn log_entries_are_single_lines(e: EntryView)
    ensures
        text::one_line(entry_text(e)),
{
    lemma_string_field("timestamp"@, e.timestamp);
    lemma_string_field("interface"@, e.interface);
    lemma_string_field("source"@, e.source);
    lemma_number_field("packet_size"@, e.packet_size as nat);
    lemma_message_one_line(e.message);
    value::lemma_field_one_line("message"@, message_text(e.message));
    value::lemma_fields_one_line(
        seq![
            string_field("timestamp"@, e.timestamp),
            string_field("interface"@, e.interface),
            string_field("source"@, e.source),
            number_field("packet_size"@, e.packet_size as nat),
            value::field_text("message"@, message_text(e.message)),
        ],
    );
}

/// A field goes after the first one whose key begins with a smaller letter.
proof fn lemma_goes_after(fields: Seq<(Seq<char>, Json)>, key: Seq<char>, value: Json)
    requires
        fields.len() > 0,
        fields[0].0.len() > 0,
        key.len() > 0,
        fields[0].0[0] < key[0],
    ensures
        value::with_field(fields, key, value) == seq![fields[0]] + value::with_field(
            fields.drop_first(),
            key,
            value,
        ),
{
}

/// The parts of the data of a record are written in a log entry as their value
/// is written on its own.
pub proof fn details_are_written_as_their_value(detail: DetailView)
    ensures
        detail_text(detail) == value::json_text(detail_json(detail)),
{
    match detail {
        DetailView::Srv { priority, weight, port, target } => {
            reveal_strlit("priority");
            reveal_strlit("weight");
            reveal_strlit("port");
            reveal_strlit("target");
            let f0 = ("priority"@, number(priority as u64));
            let f1 = ("weight"@, number(weight as u64));
            let f2 = ("port"@, number(port as u64));
            let f3 = ("target"@, Json::String(target));
            let all = seq![f0, f1, f2, f3];
            let none = Seq::<(Seq<char>, Json)>::empty();
            assert(all.drop_last() =~= seq![f0, f1, f2]);
            assert(seq![f0, f1, f2].drop_last() =~= seq![f0, f1]);
            assert(seq![f0, f1].drop_last() =~= seq![f0]);
            assert(seq![f0].drop_last() =~= none);
            assert(value::object_of(none) =~= none);
            assert(value::object_of(seq![f0]) =~= seq![f0]);
            lemma_goes_after(seq![f0], f1.0, f1.1);
            assert(seq![f0].drop_first() =~= none);
            assert(value::object_of(seq![f0, f1]) =~= seq![f0, f1]);
            assert("port"@.drop_first()[0] == 'o');
            assert("priority"@.drop_first()[0] == 'r');
            assert(text::text_before("port"@.drop_first(), "priority"@.drop_first()));
            assert(text::text_before("port"@, "priority"@));
            assert(value::object_of(seq![f0, f1, f2]) =~= seq![f2, f0, f1]);
            lemma_goes_after(seq![f2, f0, f1], f3.0, f3.1);
            assert(seq![f2, f0, f1].drop_first() =~= seq![f0, f1]);
            lemma_goes_after(seq![f0, f1], f3.0, f3.1);
            assert(seq![f0, f1].drop_first() =~= seq![f1]);
            assert(text::text_before("target"@, "weight"@));
            assert(value::with_field(seq![f1], f3.0, f3.1) =~= seq![f3, f1]);
            let sorted = seq![f2, f0, f3, f1];
            assert(value::object_of(all) =~= sorted);
            reveal_with_fuel(value::json_field_texts, 5);
            assert(value::json_field_texts(sorted, 4) =~= seq![
                number_field("port"@, port as nat),
                number_field("priority"@, priority as nat),
                string_field("target"@, target),
                number_field("weight"@, weight as nat),
            ]);
        },
        DetailView::Txt { entries } => {
            let items = entries.map_values(|s: Seq<char>| Json::String(s));
            let all = seq![("entries"@, Json::Array(items))];
            assert(all.drop_last() =~= Seq::<(Seq<char>, Json)>::empty());
            assert(value::object_of(all.drop_last()) =~= Seq::<(Seq<char>, Json)>::empty());
            assert(value::object_of(all) =~= all);
            lemma_string_items(entries, items, items.len());
            assert(quoted_texts(entries).take(items.len() as int) =~= quoted_texts(entries));
            reveal_with_fuel(value::json_field_texts, 2);
            assert(value::json_field_texts(all, 1) =~= seq![
                value::field_text("entries"@, value::list_text(quoted_texts(entries))),
            ]);
        },
        DetailView::Mx { preference, exchange } => {
            reveal_strlit("preference");
            reveal_strlit("exchange");
            let f0 = ("preference"@, number(preference as u64));
            let f1 = ("exchange"@, Json::String(exchange));
            let none = Seq::<(Seq<char>, Json)>::empty();
            assert(seq![f0, f1].drop_last() =~= seq![f0]);
            assert(seq![f0].drop_last() =~= none);
            assert(value::object_of(none) =~= none);
            assert(value::object_of(seq![f0]) =~= seq![f0]);
            assert(text::text_before("exchange"@, "preference"@));
            let sorted = seq![f1, f0];
            assert(value::object_of(seq![f0, f1]) =~= sorted);
            reveal_with_fuel(value::json_field_texts, 3);
            assert(value::json_field_texts(sorted, 2) =~= seq![
                string_field("exchange"@, exchange),
                number_field("preference"@, preference as nat),
            ]);
        },
        DetailView::Opt => {
            let all = seq![("type"@, Json::String("OPT"@))];
            assert(all.drop_last() =~= Seq::<(Seq<char>, Json)>::empty());
            assert(value::object_of(all.drop_last()) =~= Seq::<(Seq<char>, Json)>::empty());
            assert(value::object_of(all) =~= all);
            reveal_with_fuel(value::json_field_texts, 2);
            assert(value::json_field_texts(all, 1) =~= seq![string_field("type"@, "OPT"@)]);
        },
    }
}

proof fn lemma_string_items(entries: Seq<Seq<char>>, items: Seq<Json>, n: nat)
    requires
        items.len() == entries.len(),
        n <= items.len(),
        forall|i: int| 0 <= i < items.len() ==> #[trigger] items[i] == Json::String(entries[i]),
    ensures
        value::json_item_texts(items, n) == quoted_texts(entries).take(n as int),
    decreases n,
{
    if n == 0 {
        assert(value::json_item_texts(items, n) =~= quoted_texts(entries).take(0));
    } else {
        lemma_string_items(entries, items, (n - 1) as nat);
        assert(items[n - 1] == Json::String(entries[n - 1]));
        assert(value::json_text(items[n - 1]) == value::json_quoted(entries[n - 1]));
        assert(value::json_item_texts(items, n) == value::json_item_texts(
            items,
            (n - 1) as nat,
        ).push(value::json_text(items[n - 1])));
        assert(quoted_texts(entries).take(n as int) =~= quoted_texts(entries).take(n - 1).push(
            value::json_quoted(entries[n - 1]),
        ));
    }
}

/// The line of a log entry shows when, where and from whom a packet came, how
/// large it was, and the message in it.
pub proof fn log_lines_show_entries(e: EntryView)
    ensures
        text::contains_text(
            entry_text(e),
            value::json_quoted("timestamp"@) + ":"@ + value::json_quoted(e.timestamp),
        ),
        text::contains_text(
            entry_text(e),
            value::json_quoted("interface"@) + ":"@ + value::json_quoted(e.interface),
        ),
        text::contains_text(
            entry_text(e),
            value::json_quoted("source"@) + ":"@ + value::json_quoted(e.source),
        ),
        text::contains_text(
            entry_text(e),
            value::json_quoted("packet_size"@) + ":"@ + text::decimal(e.packet_size as nat),
        ),
        text::contains_text(
            entry_text(e),
            value::json_quoted("message"@) + ":"@ + message_text(e.message),
        ),
{
    let parts = seq![
        string_field("timestamp"@, e.timestamp),
        string_field("interface"@, e.interface),
        string_field("source"@, e.source),
        number_field("packet_size"@, e.packet_size as nat),
        value::field_text("message"@, message_text(e.message)),
    ];
    value::parts_stand_in_their_whole(parts, 0);
    value::parts_stand_in_their_whole(parts, 1);
    value::parts_stand_in_their_whole(parts, 2);
    value::parts_stand_in_their_whole(parts, 3);
    value::parts_stand_in_their_whole(parts, 4);
}

/// The text of a message shows every part of its header.
pub proof fn log_lines_show_headers(m: MessageInfoView)
    ensures
        text::contains_text(
            message_text(m),
            value::json_quoted("id"@) + ":"@ + text::decimal(m.id as nat),
        ),
        text::contains_text(
            message_text(m),
            value::json_quoted("message_type"@) + ":"@ + value::json_quoted(m.message_type),
        ),
        text::contains_text(
            message_text(m),
            value::json_quoted("opcode"@) + ":"@ + value::json_quoted(m.opcode),
        ),
        text::contains_text(
            message_text(m),
            value::json_quoted("authoritative"@) + ":"@ + (if m.authoritative {
                "true"@
            } else {
                "false"@
            }),
        ),
        text::contains_text(
            message_text(m),
            value::json_quoted("truncated"@) + ":"@ + (if m.truncated {
                "true"@
            } else {
                "false"@
            }),
        ),
        text::contains_text(
            message_text(m),
            value::json_quoted("recursion_desired"@) + ":"@ + (if m.recursion_desired {
                "true"@
            } else {
                "false"@
            }),
        ),
        text::contains_text(
            message_text(m),
            value::json_quoted("recursion_available"@) + ":"@ + (if m.recursion_available {
                "true"@
            } else {
                "false"@
            }),
        ),
        text::contains_text(
            message_text(m),
            value::json_quoted("response_code"@) + ":"@ + value::json_quoted(m.response_code),
        ),
        text::contains_text(
            message_text(m),
            value::json_quoted("question_count"@) + ":"@ + text::decimal(m.question_count as nat),
        ),
        text::contains_text(
            message_text(m),
            value::json_quoted("answer_count"@) + ":"@ + text::decimal(m.answer_count as nat),
        ),
        text::contains_text(
            message_text(m),
            value::json_quoted("authority_count"@) + ":"@ + text::decimal(m.authority_count as nat),
        ),
        text::contains_text(
            message_text(m),
            value::json_quoted("additional_count"@) + ":"@ + text::decimal(m.additional_count as nat),
        ),
{
    let parts = seq![
        number_field("id"@, m.id as nat),
        string_field("message_type"@, m.message_type),
        string_field("opcode"@, m.opcode),
        bool_field("authoritative"@, m.authoritative),
        bool_field("truncated"@, m.truncated),
        bool_field("recursion_desired"@, m.recursion_desired),
        bool_field("recursion_available"@, m.recursion_available),
        string_field("response_code"@, m.response_code),
        number_field("question_count"@, m.question_count as nat),
        number_field("answer_count"@, m.answer_count as nat),
        number_field("authority_count"@, m.authority_count as nat),
        number_field("additional_count"@, m.additional_count as nat),
        value::field_text("questions"@, value::list_text(question_texts(m.questions))),
        value::field_text("answers"@, value::list_text(record_texts(m.answers))),
        value::field_text("authorities"@, value::list_text(record_texts(m.authorities))),
        value::field_text("additionals"@, value::list_text(record_texts(m.additionals))),
    ];
    value::parts_stand_in_their_whole(parts, 0);
    value::parts_stand_in_their_whole(parts, 1);
    value::parts_stand_in_their_whole(parts, 2);
    value::parts_stand_in_their_whole(parts, 3);
    value::parts_stand_in_their_whole(parts, 4);
    value::parts_stand_in_their_whole(parts, 5);
    value::parts_stand_in_their_whole(parts, 6);
    value::parts_stand_in_their_whole(parts, 7);
    value::parts_stand_in_their_whole(parts, 8);
    value::parts_stand_in_their_whole(parts, 9);
    value::parts_stand_in_their_whole(parts, 10);
    value::parts_stand_in_their_whole(parts, 11);
}

/// What stands in an item of a list that a field holds stands in the field.
proof fn lemma_item_shown(key: Seq<char>, items: Seq<Seq<char>>, i: int)
    requires
        0 <= i < items.len(),
    ensures
        text::contains_text(value::field_text(key, value::list_text(items)), items[i]),
{
    let list = value::list_text(items);
    let whole = value::field_text(key, list);
    value::parts_stand_in_their_whole(items, i);
    text::framed_text_is_contained(value::json_quoted(key) + ":"@, list, Seq::empty());
    assert(value::json_quoted(key) + ":"@ + list + Seq::<char>::empty() =~= whole);
    text::containment_is_transitive(whole, list, items[i]);
}

/// The text of a message shows its questions and records section by section, each
/// section under its name, with every question and every record in order.
pub proof fn log_lines_show_sections(m: MessageInfoView, i: int)
    ensures
        text::contains_text(
            message_text(m),
            value::json_quoted("questions"@) + ":"@ + value::list_text(
                Seq::new(m.questions.len(), |k: int| question_text(m.questions[k])),
            ),
        ),
        text::contains_text(
            message_text(m),
            value::json_quoted("answers"@) + ":"@ + value::list_text(
                Seq::new(m.answers.len(), |k: int| record_text(m.answers[k])),
            ),
        ),
        text::contains_text(
            message_text(m),
            value::json_quoted("authorities"@) + ":"@ + value::list_text(
                Seq::new(m.authorities.len(), |k: int| record_text(m.authorities[k])),
            ),
        ),
        text::contains_text(
            message_text(m),
            value::json_quoted("additionals"@) + ":"@ + value::list_text(
                Seq::new(m.additionals.len(), |k: int| record_text(m.additionals[k])),
            ),
        ),
        0 <= i < m.questions.len() ==> text::contains_text(
            message_text(m),
            question_text(m.questions[i]),
        ),
        0 <= i < m.answers.len() ==> text::contains_text(message_text(m), record_text(m.answers[i])),
        0 <= i < m.authorities.len() ==> text::contains_text(
            message_text(m),
            record_text(m.authorities[i]),
        ),
        0 <= i < m.additionals.len() ==> text::contains_text(
            message_text(m),
            record_text(m.additionals[i]),
        ),
{
    let parts = seq![
        number_field("id"@, m.id as nat),
        string_field("message_type"@, m.message_type),
        string_field("opcode"@, m.opcode),
        bool_field("authoritative"@, m.authoritative),
        bool_field("truncated"@, m.truncated),
        bool_field("recursion_desired"@, m.recursion_desired),
        bool_field("recursion_available"@, m.recursion_available),
        string_field("response_code"@, m.response_code),
        number_field("question_count"@, m.question_count as nat),
        number_field("answer_count"@, m.answer_count as nat),
        number_field("authority_count"@, m.authority_count as nat),
        number_field("additional_count"@, m.additional_count as nat),
        value::field_text("questions"@, value::list_text(question_texts(m.questions))),
        value::field_text("answers"@, value::list_text(record_texts(m.answers))),
        value::field_text("authorities"@, value::list_text(record_texts(m.authorities))),
        value::field_text("additionals"@, value::list_text(record_texts(m.additionals))),
    ];
    value::parts_stand_in_their_whole(parts, 12);
    value::parts_stand_in_their_whole(parts, 13);
    value::parts_stand_in_their_whole(parts, 14);
    value::parts_stand_in_their_whole(parts, 15);
    let questions = question_texts(m.questions);
    let answers = record_texts(m.answers);
    let authorities = record_texts(m.authorities);
    let additionals = record_texts(m.additionals);
    assert(questions =~= Seq::new(m.questions.len(), |k: int| question_text(m.questions[k])));
    assert(answers =~= Seq::new(m.answers.len(), |k: int| record_text(m.answers[k])));
    assert(authorities =~= Seq::new(m.authorities.len(), |k: int| record_text(m.authorities[k])));
    assert(additionals =~= Seq::new(m.additionals.len(), |k: int| record_text(m.additionals[k])));
    if 0 <= i < m.questions.len() {
        lemma_item_shown("questions"@, questions, i);
        text::containment_is_transitive(message_text(m), parts[12], questions[i]);
    }
    if 0 <= i < m.answers.len() {
        lemma_item_shown("answers"@, answers, i);
        text::containment_is_transitive(message_text(m), parts[13], answers[i]);
    }
    if 0 <= i < m.authorities.len() {
        lemma_item_shown("authorities"@, authorities, i);
        text::containment_is_transitive(message_text(m), parts[14], authorities[i]);
    }
    if 0 <= i < m.additionals.len() {
        lemma_item_shown("additionals"@, additionals, i);
        text::containment_is_transitive(message_text(m), parts[15], additionals[i]);
    }
}

/// The text of a record shows its name, type, class, TTL and data, whether it
/// flushes caches if that is known, and the parts of its data if it has any.
pub proof fn log_lines_show_records(r: RecordInfoView)
    ensures
        text::contains_text(
            record_text(r),
            value::json_quoted("name"@) + ":"@ + value::json_quoted(r.name),
        ),
        text::contains_text(
            record_text(r),
            value::json_quoted("record_type"@) + ":"@ + value::json_quoted(r.record_type),
        ),
        text::contains_text(
            record_text(r),
            value::json_quoted("class"@) + ":"@ + value::json_quoted(r.class),
        ),
        text::contains_text(
            record_text(r),
            value::json_quoted("ttl"@) + ":"@ + text::decimal(r.ttl as nat),
        ),
        text::contains_text(
            record_text(r),
            value::json_quoted("rdata"@) + ":"@ + value::json_quoted(r.rdata),
        ),
        r.cache_flush == Some(true) ==> text::contains_text(
            record_text(r),
            value::json_quoted("cache_flush"@) + ":"@ + "true"@,
        ),
        r.cache_flush == Some(false) ==> text::contains_text(
            record_text(r),
            value::json_quoted("cache_flush"@) + ":"@ + "false"@,
        ),
        r.rdata_detail matches Some(detail) ==> text::contains_text(
            record_text(r),
            value::json_quoted("rdata_detail"@) + ":"@ + detail_text(detail),
        ),
{
    let parts = seq![
        string_field("name"@, r.name),
        string_field("record_type"@, r.record_type),
        string_field("class"@, r.class),
        number_field("ttl"@, r.ttl as nat),
    ] + flag_texts("cache_flush"@, r.cache_flush) + seq![string_field("rdata"@, r.rdata)]
        + match r.rdata_detail {
        Some(detail) => seq![value::field_text("rdata_detail"@, detail_text(detail))],
        None => Seq::empty(),
    };
    value::parts_stand_in_their_whole(parts, 0);
    value::parts_stand_in_their_whole(parts, 1);
    value::parts_stand_in_their_whole(parts, 2);
    value::parts_stand_in_their_whole(parts, 3);
    value::parts_stand_in_their_whole(parts, 4);
    if r.cache_flush is Some {
        value::parts_stand_in_their_whole(parts, 5);
        assert(parts[5] == string_field("rdata"@, r.rdata));
    } else {
        assert(parts[4] == string_field("rdata"@, r.rdata));
    }
    if r.rdata_detail is Some {
        value::parts_stand_in_their_whole(parts, parts.len() - 1);
    }
}

/// The text of a question shows its name, type and class, and whether it prefers
/// a unicast reply if that is known.
pub proof fn log_lines_show_questions(q: QuestionInfoView)
    ensures
        text::contains_text(
            question_text(q),
            value::json_quoted("name"@) + ":"@ + value::json_quoted(q.name),
        ),
        text::contains_text(
            question_text(q),
            value::json_quoted("record_type"@) + ":"@ + value::json_quoted(q.record_type),
        ),
        text::contains_text(
            question_text(q),
            value::json_quoted("class"@) + ":"@ + value::json_quoted(q.class),
        ),
        q.prefer_unicast == Some(true) ==> text::contains_text(
            question_text(q),
            value::json_quoted("prefer_unicast"@) + ":"@ + "true"@,
        ),
        q.prefer_unicast == Some(false) ==> text::contains_text(
            question_text(q),
            value::json_quoted("prefer_unicast"@) + ":"@ + "false"@,
        ),
{
    let parts = seq![
        string_field("name"@, q.name),
        string_field("record_type"@, q.record_type),
        string_field("class"@, q.class),
    ] + flag_texts("prefer_unicast"@, q.prefer_unicast);
    value::parts_stand_in_their_whole(parts, 0);
    value::parts_stand_in_their_whole(parts, 1);
    value::parts_stand_in_their_whole(parts, 2);
    if q.prefer_unicast is Some {
        value::parts_stand_in_their_whole(parts, 3);
    }
}

/// Joining one more part takes the room of the part and of a separator.
proof fn lemma_one_more_part(parts: Seq<Seq<char>>, n: int)
    requires
        1 <= n < parts.len(),
    ensures
        value::fields_text(parts).len() == value::fields_text(parts.remove(n)).len() + 1
            + parts[n].len(),
    decreases parts.len(),
{
    reveal_strlit(",");
    let without = parts.remove(n);
    assert(text::joined(parts, ","@).len() == text::joined(without, ","@).len() + 1
        + parts[n].len()) by {
        lemma_joined_remove(parts, n);
    }
}

proof fn lemma_joined_remove(parts: Seq<Seq<char>>, n: int)
    requires
        1 <= n < parts.len(),
    ensures
        text::joined(parts, ","@).len() == text::joined(parts.remove(n), ","@).len() + 1
            + parts[n].len(),
    decreases parts.len(),
{
    reveal_strlit(",");
    let without = parts.remove(n);
    if n == parts.len() - 1 {
        assert(without =~= parts.drop_last());
    } else {
        lemma_joined_remove(parts.drop_last(), n);
        assert(parts.drop_last().remove(n) =~= without.drop_last());
        assert(without.last() == parts.last());
    }
}

/// A question with a flag takes just the room of the flag more than one without:
/// a flag that is not known is not shown.
pub proof fn unknown_question_flags_are_not_shown(q: QuestionInfoView, flag: bool)
    ensures
        question_text(QuestionInfoView { prefer_unicast: Some(flag), ..q }).len() == question_text(
            QuestionInfoView { prefer_unicast: None, ..q },
        ).len() + 1 + (value::json_quoted("prefer_unicast"@) + ":"@ + if flag {
            "true"@
        } else {
            "false"@
        }).len(),
{
    let bare = seq![
        string_field("name"@, q.name),
        string_field("record_type"@, q.record_type),
        string_field("class"@, q.class),
    ];
    let parts = bare + seq![bool_field("prefer_unicast"@, flag)];
    assert(flag_texts("prefer_unicast"@, Some(flag)) =~= seq![bool_field("prefer_unicast"@, flag)]);
    assert(bare + flag_texts("prefer_unicast"@, None) =~= bare);
    assert(parts.remove(3) =~= bare);
    lemma_one_more_part(parts, 3);
}

/// A record with a flag takes just the room of the flag more than one without: a
/// flag that is not known is not shown. The same holds of the parts of its data.
pub proof fn unknown_record_parts_are_not_shown(r: RecordInfoView, flag: bool, detail: DetailView)
    ensures
        record_text(RecordInfoView { cache_flush: Some(flag), ..r }).len() == record_text(
            RecordInfoView { cache_flush: None, ..r },
        ).len() + 1 + (value::json_quoted("cache_flush"@) + ":"@ + if flag {
            "true"@
        } else {
            "false"@
        }).len(),
        record_text(RecordInfoView { rdata_detail: Some(detail), ..r }).len() == record_text(
            RecordInfoView { rdata_detail: None, ..r },
        ).len() + 1 + (value::json_quoted("rdata_detail"@) + ":"@ + detail_text(detail)).len(),
{
    let first = seq![
        string_field("name"@, r.name),
        string_field("record_type"@, r.record_type),
        string_field("class"@, r.class),
        number_field("ttl"@, r.ttl as nat),
    ];
    let data = seq![string_field("rdata"@, r.rdata)];
    let none = Seq::<Seq<char>>::empty();
    let last = match r.rdata_detail {
        Some(detail) => seq![value::field_text("rdata_detail"@, detail_text(detail))],
        None => Seq::empty(),
    };
    let shown = seq![bool_field("cache_flush"@, flag)];
    assert((first + shown + data + last).remove(4) =~= first + none + data + last);
    lemma_one_more_part(first + shown + data + last, 4);
    let start = first + flag_texts("cache_flush"@, r.cache_flush) + data;
    let more = seq![value::field_text("rdata_detail"@, detail_text(detail))];
    assert((start + more).remove(start.len() as int) =~= start + none);
    lemma_one_more_part(start + more, start.len() as int);
}

/// The text of the parts of the data of a record shows every one of them.
pub proof fn log_lines_show_details(detail: DetailView, i: int)
    ensures
        detail matches DetailView::Srv { priority, weight, port, target } ==> {
            &&& text::contains_text(
                detail_text(detail),
                value::json_quoted("priority"@) + ":"@ + text::decimal(priority as nat),
            )
            &&& text::contains_text(
                detail_text(detail),
                value::json_quoted("weight"@) + ":"@ + text::decimal(weight as nat),
            )
            &&& text::contains_text(
                detail_text(detail),
                value::json_quoted("port"@) + ":"@ + text::decimal(port as nat),
            )
            &&& text::contains_text(
                detail_text(detail),
                value::json_quoted("target"@) + ":"@ + value::json_quoted(target),
            )
        },
        detail matches DetailView::Txt { entries } ==> 0 <= i < entries.len()
            ==> text::contains_text(detail_text(detail), value::json_quoted(entries[i])),
        detail matches DetailView::Mx { preference, exchange } ==> {
            &&& text::contains_text(
                detail_text(detail),
                value::json_quoted("preference"@) + ":"@ + text::decimal(preference as nat),
            )
            &&& text::contains_text(
                detail_text(detail),
                value::json_quoted("exchange"@) + ":"@ + value::json_quoted(exchange),
            )
        },
        detail is Opt ==> text::contains_text(
            detail_text(detail),
            value::json_quoted("type"@) + ":"@ + value::json_quoted("OPT"@),
        ),
{
    match detail {
        DetailView::Srv { priority, weight, port, target } => {
            let parts = seq![
                number_field("port"@, port as nat),
                number_field("priority"@, priority as nat),
                string_field("target"@, target),
                number_field("weight"@, weight as nat),
            ];
            value::parts_stand_in_their_whole(parts, 0);
            value::parts_stand_in_their_whole(parts, 1);
            value::parts_stand_in_their_whole(parts, 2);
            value::parts_stand_in_their_whole(parts, 3);
        },
        DetailView::Txt { entries } => {
            let items = quoted_texts(entries);
            let part = value::field_text("entries"@, value::list_text(items));
            if 0 <= i < entries.len() {
                value::parts_stand_in_their_whole(seq![part], 0);
                lemma_item_shown("entries"@, items, i);
                text::containment_is_transitive(detail_text(detail), part, items[i]);
            }
        },
        DetailView::Mx { preference, exchange } => {
            let parts = seq![
                string_field("exchange"@, exchange),
                number_field("preference"@, preference as nat),
            ];
            value::parts_stand_in_their_whole(parts, 0);
            value::parts_stand_in_their_whole(parts, 1);
        },
        DetailView::Opt => {
            value::parts_stand_in_their_whole(seq![string_field("type"@, "OPT"@)], 0);
        },
    }
}

/// The fields of a log entry are written in order, and no others.
pub proof fn entries_are_written_in_order(e: EntryView)
    ensures
        entry_text(e) == value::fields_text(
            seq![
                value::json_quoted("timestamp"@) + ":"@ + value::json_quoted(e.timestamp),
                value::json_quoted("interface"@) + ":"@ + value::json_quoted(e.interface),
                value::json_quoted("source"@) + ":"@ + value::json_quoted(e.source),
                value::json_quoted("packet_size"@) + ":"@ + text::decimal(e.packet_size as nat),
                value::json_quoted("message"@) + ":"@ + message_text(e.message),
            ],
        ),
{
}

/// The fields of a message are written in order, and no others.
pub proof fn messages_are_written_in_order(m: MessageInfoView)
    ensures
        message_text(m) == value::fields_text(
            seq![
                value::json_quoted("id"@) + ":"@ + text::decimal(m.id as nat),
                value::json_quoted("message_type"@) + ":"@ + value::json_quoted(m.message_type),
                value::json_quoted("opcode"@) + ":"@ + value::json_quoted(m.opcode),
                value::json_quoted("authoritative"@) + ":"@ + value::json_text(
                    Json::Bool(m.authoritative),
                ),
                value::json_quoted("truncated"@) + ":"@ + value::json_text(
                    Json::Bool(m.truncated),
                ),
                value::json_quoted("recursion_desired"@) + ":"@ + value::json_text(
                    Json::Bool(m.recursion_desired),
                ),
                value::json_quoted("recursion_available"@) + ":"@ + value::json_text(
                    Json::Bool(m.recursion_available),
                ),
                value::json_quoted("response_code"@) + ":"@ + value::json_quoted(m.response_code),
                value::json_quoted("question_count"@) + ":"@ + text::decimal(
                    m.question_count as nat,
                ),
                value::json_quoted("answer_count"@) + ":"@ + text::decimal(m.answer_count as nat),
                value::json_quoted("authority_count"@) + ":"@ + text::decimal(
                    m.authority_count as nat,
                ),
                value::json_quoted("additional_count"@) + ":"@ + text::decimal(
                    m.additional_count as nat,
                ),
                value::json_quoted("questions"@) + ":"@ + value::list_text(
                    question_texts(m.questions),
                ),
                value::json_quoted("answers"@) + ":"@ + value::list_text(record_texts(m.answers)),
                value::json_quoted("authorities"@) + ":"@ + value::list_text(
                    record_texts(m.authorities),
                ),
                value::json_quoted("additionals"@) + ":"@ + value::list_text(
                    record_texts(m.additionals),
                ),
            ],
        ),
{
    lemma_bool_text("authoritative"@, m.authoritative);
    lemma_bool_text("truncated"@, m.truncated);
    lemma_bool_text("recursion_desired"@, m.recursion_desired);
    lemma_bool_text("recursion_available"@, m.recursion_available);
}

/// A boolean is written in a field as its value is written on its own.
proof fn lemma_bool_text(key: Seq<char>, b: bool)
    ensures
        bool_field(key, b) == value::json_quoted(key) + ":"@ + value::json_text(Json::Bool(b)),
{
}

/// The fields that every record has are written in order, and no others. A flag
/// that is known stands before the data.
pub proof fn records_are_written_in_order(r: RecordInfoView)
    requires
        r.rdata_detail is None,
    ensures
        r.cache_flush is None ==> record_text(r) == value::fields_text(
            seq![
                value::json_quoted("name"@) + ":"@ + value::json_quoted(r.name),
                value::json_quoted("record_type"@) + ":"@ + value::json_quoted(r.record_type),
                value::json_quoted("class"@) + ":"@ + value::json_quoted(r.class),
                value::json_quoted("ttl"@) + ":"@ + text::decimal(r.ttl as nat),
                value::json_quoted("rdata"@) + ":"@ + value::json_quoted(r.rdata),
            ],
        ),
        r.cache_flush matches Some(flag) ==> record_text(r) == value::fields_text(
            seq![
                value::json_quoted("name"@) + ":"@ + value::json_quoted(r.name),
                value::json_quoted("record_type"@) + ":"@ + value::json_quoted(r.record_type),
                value::json_quoted("class"@) + ":"@ + value::json_quoted(r.class),
                value::json_quoted("ttl"@) + ":"@ + text::decimal(r.ttl as nat),
                value::json_quoted("cache_flush"@) + ":"@ + value::json_text(Json::Bool(flag)),
                value::json_quoted("rdata"@) + ":"@ + value::json_quoted(r.rdata),
            ],
        ),
{
    let none = Seq::<Seq<char>>::empty();
    let first = seq![
        string_field("name"@, r.name),
        string_field("record_type"@, r.record_type),
        string_field("class"@, r.class),
        number_field("ttl"@, r.ttl as nat),
    ];
    let data = seq![string_field("rdata"@, r.rdata)];
    let all = first + flag_texts("cache_flush"@, r.cache_flush) + data + none;
    match r.cache_flush {
        Some(flag) => {
            lemma_bool_text("cache_flush"@, flag);
            assert(all =~= seq![
                first[0],
                first[1],
                first[2],
                first[3],
                bool_field("cache_flush"@, flag),
                data[0],
            ]);
        },
        None => {
            assert(all =~= seq![first[0], first[1], first[2], first[3], data[0]]);
        },
    }
}

/// The parts of the data of a record are written last.
pub proof fn details_are_written_last(r: RecordInfoView, detail: DetailView)
    ensures
        record_text(RecordInfoView { rdata_detail: Some(detail), ..r }) == record_text(
            RecordInfoView { rdata_detail: None, ..r },
        ).drop_last() + ","@ + (value::json_quoted("rdata_detail"@) + ":"@ + detail_text(detail))
            + "}"@,
{
    let start = seq![
        string_field("name"@, r.name),
        string_field("record_type"@, r.record_type),
        string_field("class"@, r.class),
        number_field("ttl"@, r.ttl as nat),
    ] + flag_texts("cache_flush"@, r.cache_flush) + seq![string_field("rdata"@, r.rdata)];
    let last = value::field_text("rdata_detail"@, detail_text(detail));
    assert(start + Seq::<Seq<char>>::empty() =~= start);
    assert(start + seq![last] =~= start.push(last));
    value::objects_are_written_field_by_field(start, last);
}

/// The fields that every question has are written in order, and no others. A flag
/// that is known stands behind them.
pub proof fn questions_are_written_in_order(q: QuestionInfoView, flag: bool)
    ensures
        q.prefer_unicast is None ==> question_text(q) == value::fields_text(
            seq![
                value::json_quoted("name"@) + ":"@ + value::json_quoted(q.name),
                value::json_quoted("record_type"@) + ":"@ + value::json_quoted(q.record_type),
                value::json_quoted("class"@) + ":"@ + value::json_quoted(q.class),
            ],
        ),
        question_text(QuestionInfoView { prefer_unicast: Some(flag), ..q }) == question_text(
            QuestionInfoView { prefer_unicast: None, ..q },
        ).drop_last() + ","@ + (value::json_quoted("prefer_unicast"@) + ":"@ + value::json_text(
            Json::Bool(flag),
        )) + "}"@,
{
    let bare = seq![
        string_field("name"@, q.name),
        string_field("record_type"@, q.record_type),
        string_field("class"@, q.class),
    ];
    let last = bool_field("prefer_unicast"@, flag);
    assert(bare + Seq::<Seq<char>>::empty() =~= bare);
    assert(bare + flag_texts("prefer_unicast"@, Some(flag)) =~= bare.push(last));
    lemma_bool_text("prefer_unicast"@, flag);
    value::objects_are_written_field_by_field(bare, last);
}

} // verus!
