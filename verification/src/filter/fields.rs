//! What filter paths lead to in log entries.
use vstd::prelude::*;

use super::path::{self, Step};
use crate::dns_util::{
    DetailView, EntryView, MessageInfoView, QuestionInfoView, RecordInfoView,
};
use crate::entry;
use crate::number::NumberView;
use crate::value::{self, Json};

verus! {

/// The step to a field leads to the last value that an object was given for it.
proof fn lemma_field_step(fields: Seq<(Seq<char>, Json)>, i: int)
    requires
        0 <= i < fields.len(),
        forall|j: int| i < j < fields.len() ==> (#[trigger] fields[j]).0 != fields[i].0,
    ensures
        path::step_into(Json::Object(value::object_of(fields)), Step::Field(fields[i].0)) == seq![
            fields[i].1,
        ],
{
    value::given_fields_read_back(fields, i);
}

/// From a single value a path leads to where its steps lead one by one.
proof fn lemma_one_more_step(value: Json, steps: Seq<Step>, step: Step, at: Json)
    requires
        path::resolved(value, steps) == seq![at],
    ensures
        path::resolved(value, steps.push(step)) == path::step_into(at, step),
{
    let longer = steps.push(step);
    assert(longer.drop_last() =~= steps);
    assert(seq![at].drop_last() =~= Seq::<Json>::empty());
    assert(path::step_from_each(seq![at].drop_last(), step) =~= Seq::<Json>::empty());
    assert(path::step_from_each(seq![at], step) =~= path::step_into(at, step));
}

/// A path of a single field leads to the last value that an object was given
/// for it.
proof fn lemma_top_field(fields: Seq<(Seq<char>, Json)>, i: int)
    requires
        0 <= i < fields.len(),
        forall|j: int| i < j < fields.len() ==> (#[trigger] fields[j]).0 != fields[i].0,
    ensures
        path::resolved(
            Json::Object(value::object_of(fields)),
            seq![Step::Field(fields[i].0)],
        ) == seq![fields[i].1],
{
    let json = Json::Object(value::object_of(fields));
    let none = Seq::<Step>::empty();
    let step = Step::Field(fields[i].0);
    lemma_field_step(fields, i);
    lemma_one_more_step(json, none, step, json);
    assert(none.push(step) =~= seq![step]);
}

/// From each of some values a step leads to the one value that stands at its
/// place.
proof fn lemma_step_from_each(values: Seq<Json>, step: Step, found: Seq<Json>)
    requires
        values.len() == found.len(),
        forall|i: int|
            0 <= i < values.len() ==> path::step_into(#[trigger] values[i], step) == seq![found[i]],
    ensures
        path::step_from_each(values, step) == found,
    decreases values.len(),
{
    if values.len() == 0 {
        assert(path::step_from_each(values, step) =~= found);
    } else {
        let init = values.drop_last();
        assert forall|i: int| 0 <= i < init.len() implies path::step_into(
            #[trigger] init[i],
            step,
        ) == seq![found.drop_last()[i]] by {
            assert(init[i] == values[i]);
        }
        lemma_step_from_each(init, step, found.drop_last());
        assert(path::step_into(values[values.len() - 1], step) == seq![found[found.len() - 1]]);
        assert(found =~= found.drop_last() + seq![found.last()]);
    }
}

/// The path `interface` leads to the interface of an entry, `source` to its
/// source, and so on for each of its fields.
pub proof fn paths_lead_to_entry_fields(e: EntryView)
    ensures
        path::resolved(entry::entry_json(e), seq![Step::Field("timestamp"@)]) == seq![
            Json::String(e.timestamp),
        ],
        path::resolved(entry::entry_json(e), seq![Step::Field("interface"@)]) == seq![
            Json::String(e.interface),
        ],
        path::resolved(entry::entry_json(e), seq![Step::Field("source"@)]) == seq![
            Json::String(e.source),
        ],
        path::resolved(entry::entry_json(e), seq![Step::Field("packet_size"@)]) == seq![
            entry::number(e.packet_size as u64),
        ],
        path::resolved(entry::entry_json(e), seq![Step::Field("message"@)]) == seq![
            entry::message_json(e.message),
        ],
{
    reveal_strlit("timestamp");
    reveal_strlit("interface");
    reveal_strlit("source");
    reveal_strlit("packet_size");
    reveal_strlit("message");
    let fields = seq![
        ("timestamp"@, Json::String(e.timestamp)),
        ("interface"@, Json::String(e.interface)),
        ("source"@, Json::String(e.source)),
        ("packet_size"@, entry::number(e.packet_size as u64)),
        ("message"@, entry::message_json(e.message)),
    ];
    assert("timestamp"@.len() == 9);
    assert("interface"@.len() == 9);
    assert("source"@.len() == 6);
    assert("packet_size"@.len() == 11);
    assert("message"@.len() == 7);
    assert("timestamp"@[0] == 't' && "interface"@[0] == 'i');
    lemma_top_field(fields, 0);
    lemma_top_field(fields, 1);
    lemma_top_field(fields, 2);
    lemma_top_field(fields, 3);
    lemma_top_field(fields, 4);
}

/// The fields of a message, in the order in which they are given.
spec fn message_fields(m: MessageInfoView) -> Seq<(Seq<char>, Json)> {
    seq![
        ("id"@, entry::number(m.id as u64)),
        ("message_type"@, Json::String(m.message_type)),
        ("opcode"@, Json::String(m.opcode)),
        ("authoritative"@, Json::Bool(m.authoritative)),
        ("truncated"@, Json::Bool(m.truncated)),
        ("recursion_desired"@, Json::Bool(m.recursion_desired)),
        ("recursion_available"@, Json::Bool(m.recursion_available)),
        ("response_code"@, Json::String(m.response_code)),
        ("question_count"@, entry::number(m.question_count as u64)),
        ("answer_count"@, entry::number(m.answer_count as u64)),
        ("authority_count"@, entry::number(m.authority_count as u64)),
        ("additional_count"@, entry::number(m.additional_count as u64)),
        ("questions"@, Json::Array(entry::questions_json(m.questions))),
        ("answers"@, Json::Array(entry::records_json(m.answers))),
        ("authorities"@, Json::Array(entry::records_json(m.authorities))),
        ("additionals"@, Json::Array(entry::records_json(m.additionals))),
    ]
}

/// No two fields of a message have the same key.
#[verifier::spinoff_prover]
proof fn lemma_message_keys(m: MessageInfoView)
    ensures
        forall|i: int, j: int|
            0 <= i < j < 16 ==> (#[trigger] message_fields(m)[j]).0 != (
            #[trigger] message_fields(m)[i]).0,
{
    reveal_strlit("id");
    reveal_strlit("message_type");
    reveal_strlit("opcode");
    reveal_strlit("authoritative");
    reveal_strlit("truncated");
    reveal_strlit("recursion_desired");
    reveal_strlit("recursion_available");
    reveal_strlit("response_code");
    reveal_strlit("question_count");
    reveal_strlit("answer_count");
    reveal_strlit("authority_count");
    reveal_strlit("additional_count");
    reveal_strlit("questions");
    reveal_strlit("answers");
    reveal_strlit("authorities");
    reveal_strlit("additionals");
    let fields = message_fields(m);
    assert("id"@.len() == 2);
    assert("message_type"@.len() == 12);
    assert("opcode"@.len() == 6);
    assert("authoritative"@.len() == 13);
    assert("truncated"@.len() == 9);
    assert("recursion_desired"@.len() == 17);
    assert("recursion_available"@.len() == 19);
    assert("response_code"@.len() == 13);
    assert("question_count"@.len() == 14);
    assert("answer_count"@.len() == 12);
    assert("authority_count"@.len() == 15);
    assert("additional_count"@.len() == 16);
    assert("questions"@.len() == 9);
    assert("answers"@.len() == 7);
    assert("authorities"@.len() == 11);
    assert("additionals"@.len() == 11);
    assert("message_type"@[0] == 'm' && "answer_count"@[0] == 'a');
    assert("authoritative"@[0] == 'a' && "response_code"@[0] == 'r');
    assert("truncated"@[0] == 't' && "questions"@[0] == 'q');
    assert("authorities"@[1] == 'u' && "additionals"@[1] == 'd');
}

/// The path `message.message_type` leads to the type of the message, and so on
/// for each of its fields.
pub proof fn paths_lead_to_message_fields(e: EntryView)
    ensures
        path::resolved(
            entry::entry_json(e),
            seq![Step::Field("message"@), Step::Field("id"@)],
        ) == seq![entry::number(e.message.id as u64)],
        path::resolved(
            entry::entry_json(e),
            seq![Step::Field("message"@), Step::Field("message_type"@)],
        ) == seq![Json::String(e.message.message_type)],
        path::resolved(
            entry::entry_json(e),
            seq![Step::Field("message"@), Step::Field("opcode"@)],
        ) == seq![Json::String(e.message.opcode)],
        path::resolved(
            entry::entry_json(e),
            seq![Step::Field("message"@), Step::Field("authoritative"@)],
        ) == seq![Json::Bool(e.message.authoritative)],
        path::resolved(
            entry::entry_json(e),
            seq![Step::Field("message"@), Step::Field("truncated"@)],
        ) == seq![Json::Bool(e.message.truncated)],
        path::resolved(
            entry::entry_json(e),
            seq![Step::Field("message"@), Step::Field("recursion_desired"@)],
        ) == seq![Json::Bool(e.message.recursion_desired)],
        path::resolved(
            entry::entry_json(e),
            seq![Step::Field("message"@), Step::Field("recursion_available"@)],
        ) == seq![Json::Bool(e.message.recursion_available)],
        path::resolved(
            entry::entry_json(e),
            seq![Step::Field("message"@), Step::Field("response_code"@)],
        ) == seq![Json::String(e.message.response_code)],
        path::resolved(
            entry::entry_json(e),
            seq![Step::Field("message"@), Step::Field("question_count"@)],
        ) == seq![entry::number(e.message.question_count as u64)],
        path::resolved(
            entry::entry_json(e),
            seq![Step::Field("message"@), Step::Field("answer_count"@)],
        ) == seq![entry::number(e.message.answer_count as u64)],
        path::resolved(
            entry::entry_json(e),
            seq![Step::Field("message"@), Step::Field("authority_count"@)],
        ) == seq![entry::number(e.message.authority_count as u64)],
        path::resolved(
            entry::entry_json(e),
            seq![Step::Field("message"@), Step::Field("additional_count"@)],
        ) == seq![entry::number(e.message.additional_count as u64)],
        path::resolved(
            entry::entry_json(e),
            seq![Step::Field("message"@), Step::Field("questions"@)],
        ) == seq![Json::Array(entry::questions_json(e.message.questions))],
        path::resolved(
            entry::entry_json(e),
            seq![Step::Field("message"@), Step::Field("answers"@)],
        ) == seq![Json::Array(entry::records_json(e.message.answers))],
        path::resolved(
            entry::entry_json(e),
            seq![Step::Field("message"@), Step::Field("authorities"@)],
        ) == seq![Json::Array(entry::records_json(e.message.authorities))],
        path::resolved(
            entry::entry_json(e),
            seq![Step::Field("message"@), Step::Field("additionals"@)],
        ) == seq![Json::Array(entry::records_json(e.message.additionals))],
{
    lemma_message_keys(e.message);
    lemma_message_field(e, 0);
    lemma_message_field(e, 1);
    lemma_message_field(e, 2);
    lemma_message_field(e, 3);
    lemma_message_field(e, 4);
    lemma_message_field(e, 5);
    lemma_message_field(e, 6);
    lemma_message_field(e, 7);
    lemma_message_field(e, 8);
    lemma_message_field(e, 9);
    lemma_message_field(e, 10);
    lemma_message_field(e, 11);
    lemma_message_field(e, 12);
    lemma_message_field(e, 13);
    lemma_message_field(e, 14);
    lemma_message_field(e, 15);
}

proof fn lemma_message_field(e: EntryView, i: int)
    requires
        0 <= i < 16,
    ensures
        path::resolved(
            entry::entry_json(e),
            seq![Step::Field("message"@), Step::Field(message_fields(e.message)[i].0)],
        ) == seq![message_fields(e.message)[i].1],
{
    let fields = message_fields(e.message);
    let first = seq![Step::Field("message"@)];
    let step = Step::Field(fields[i].0);
    paths_lead_to_entry_fields(e);
    lemma_message_keys(e.message);
    lemma_field_step(fields, i);
    lemma_one_more_step(entry::entry_json(e), first, step, entry::message_json(e.message));
    assert(first.push(step) =~= seq![Step::Field("message"@), step]);
}

/// A path that leads to an array leads, with a wildcard, to its items.
proof fn lemma_wildcard(value: Json, steps: Seq<Step>, items: Seq<Json>)
    requires
        path::resolved(value, steps) == seq![Json::Array(items)],
    ensures
        path::resolved(value, steps.push(Step::ArrayWildcard)) == items,
{
    lemma_one_more_step(value, steps, Step::ArrayWildcard, Json::Array(items));
}

/// A path that leads to some values leads one step on to where that step leads
/// from each of them.
proof fn lemma_step_on(value: Json, steps: Seq<Step>, step: Step)
    ensures
        path::resolved(value, steps.push(step)) == path::step_from_each(
            path::resolved(value, steps),
            step,
        ),
{
    assert(steps.push(step).drop_last() =~= steps);
}

/// The name of a question stands under `name`.
proof fn lemma_question_name(q: QuestionInfoView)
    ensures
        path::step_into(entry::question_json(q), Step::Field("name"@)) == seq![
            Json::String(q.name),
        ],
{
    reveal_strlit("name");
    reveal_strlit("record_type");
    reveal_strlit("class");
    reveal_strlit("prefer_unicast");
    assert("name"@.len() == 4);
    assert("record_type"@.len() == 11);
    assert("class"@.len() == 5);
    assert("prefer_unicast"@.len() == 14);
    let fields = seq![
        ("name"@, Json::String(q.name)),
        ("record_type"@, Json::String(q.record_type)),
        ("class"@, Json::String(q.class)),
    ] + entry::flag_json("prefer_unicast"@, q.prefer_unicast);
    lemma_field_step(fields, 0);
}

/// The fields of a record, in the order in which they are given.
spec fn record_fields(r: RecordInfoView) -> Seq<(Seq<char>, Json)> {
    seq![
        ("name"@, Json::String(r.name)),
        ("record_type"@, Json::String(r.record_type)),
        ("class"@, Json::String(r.class)),
        ("ttl"@, entry::number(r.ttl as u64)),
    ] + entry::flag_json("cache_flush"@, r.cache_flush) + seq![("rdata"@, Json::String(r.rdata))]
        + match r.rdata_detail {
        Some(detail) => seq![("rdata_detail"@, entry::detail_json(detail))],
        None => Seq::empty(),
    }
}

/// Where the fields of a record stand.
proof fn lemma_record_fields(r: RecordInfoView)
    ensures
        path::step_into(entry::record_json(r), Step::Field("name"@)) == seq![Json::String(r.name)],
        path::step_into(entry::record_json(r), Step::Field("record_type"@)) == seq![
            Json::String(r.record_type),
        ],
        path::step_into(entry::record_json(r), Step::Field("rdata_detail"@))
            == match r.rdata_detail {
            Some(detail) => seq![entry::detail_json(detail)],
            None => Seq::empty(),
        },
{
    reveal_strlit("name");
    reveal_strlit("record_type");
    reveal_strlit("class");
    reveal_strlit("ttl");
    reveal_strlit("cache_flush");
    reveal_strlit("rdata");
    reveal_strlit("rdata_detail");
    assert("name"@.len() == 4);
    assert("record_type"@.len() == 11);
    assert("class"@.len() == 5);
    assert("ttl"@.len() == 3);
    assert("cache_flush"@.len() == 11);
    assert("rdata"@.len() == 5);
    assert("rdata_detail"@.len() == 12);
    assert("record_type"@[0] == 'r' && "cache_flush"@[0] == 'c');
    assert("class"@[0] == 'c' && "rdata"@[0] == 'r');
    let fields = record_fields(r);
    lemma_field_step(fields, 0);
    lemma_field_step(fields, 1);
    match r.rdata_detail {
        Some(detail) => {
            lemma_field_step(fields, fields.len() - 1);
        },
        None => {
            value::absent_fields_read_as_none(fields, "rdata_detail"@);
        },
    }
}

/// The ports of some records, of those that have one.
pub open spec fn ports(records: Seq<RecordInfoView>) -> Seq<Json>
    decreases records.len(),
{
    if records.len() == 0 {
        Seq::empty()
    } else {
        ports(records.drop_last()) + port_of(records.last())
    }
}

/// The port of a record, if it has one.
pub open spec fn port_of(record: RecordInfoView) -> Seq<Json> {
    match record.rdata_detail {
        Some(DetailView::Srv { port, .. }) => seq![entry::number(port as u64)],
        _ => Seq::empty(),
    }
}

/// Where the port of some parts stands.
proof fn lemma_port(detail: DetailView)
    ensures
        path::step_into(entry::detail_json(detail), Step::Field("port"@)) == match detail {
            DetailView::Srv { port, .. } => seq![entry::number(port as u64)],
            _ => Seq::empty(),
        },
{
    reveal_strlit("priority");
    reveal_strlit("weight");
    reveal_strlit("port");
    reveal_strlit("target");
    reveal_strlit("entries");
    reveal_strlit("preference");
    reveal_strlit("exchange");
    reveal_strlit("type");
    assert("priority"@.len() == 8);
    assert("weight"@.len() == 6);
    assert("port"@.len() == 4);
    assert("target"@.len() == 6);
    assert("entries"@.len() == 7);
    assert("preference"@.len() == 10);
    assert("exchange"@.len() == 8);
    assert("type"@.len() == 4);
    assert("port"@[0] == 'p' && "type"@[0] == 't');
    match detail {
        DetailView::Srv { priority, weight, port, target } => {
            let fields = seq![
                ("priority"@, entry::number(priority as u64)),
                ("weight"@, entry::number(weight as u64)),
                ("port"@, entry::number(port as u64)),
                ("target"@, Json::String(target)),
            ];
            lemma_field_step(fields, 2);
        },
        DetailView::Txt { entries } => {
            value::absent_fields_read_as_none(
                seq![
                    (
                        "entries"@,
                        Json::Array(entries.map_values(|s: Seq<char>| Json::String(s))),
                    ),
                ],
                "port"@,
            );
        },
        DetailView::Mx { preference, exchange } => {
            value::absent_fields_read_as_none(
                seq![
                    ("preference"@, entry::number(preference as u64)),
                    ("exchange"@, Json::String(exchange)),
                ],
                "port"@,
            );
        },
        DetailView::Opt => {
            value::absent_fields_read_as_none(seq![("type"@, Json::String("OPT"@))], "port"@);
        },
    }
}

/// From some values one step leads to what it leads to from the first of them,
/// followed by what it leads to from the others.
proof fn lemma_steps_concat(first: Seq<Json>, second: Seq<Json>, step: Step)
    ensures
        path::step_from_each(first + second, step) == path::step_from_each(first, step)
            + path::step_from_each(second, step),
    decreases second.len(),
{
    let both = first + second;
    if second.len() == 0 {
        assert(both =~= first);
        assert(path::step_from_each(first, step) + path::step_from_each(second, step)
            =~= path::step_from_each(first, step));
    } else {
        lemma_steps_concat(first, second.drop_last(), step);
        assert(both.drop_last() =~= first + second.drop_last());
        assert(both.last() == second.last());
        assert(path::step_from_each(first, step) + (path::step_from_each(second.drop_last(), step)
            + path::step_into(second.last(), step)) =~= (path::step_from_each(first, step)
            + path::step_from_each(second.drop_last(), step)) + path::step_into(
            second.last(),
            step,
        ));
    }
}

/// Where the ports of some records stand.
proof fn lemma_ports(records: Seq<RecordInfoView>)
    ensures
        path::step_from_each(
            path::step_from_each(entry::records_json(records), Step::Field("rdata_detail"@)),
            Step::Field("port"@),
        ) == ports(records),
    decreases records.len(),
{
    let detail_step = Step::Field("rdata_detail"@);
    let port_step = Step::Field("port"@);
    let all = entry::records_json(records);
    if records.len() == 0 {
        assert(path::step_from_each(all, detail_step) =~= Seq::<Json>::empty());
        assert(path::step_from_each(Seq::<Json>::empty(), port_step) =~= ports(records));
    } else {
        let last = records.last();
        let init = entry::records_json(records.drop_last());
        lemma_ports(records.drop_last());
        lemma_record_fields(last);
        assert(all.drop_last() =~= init);
        assert(all.last() == entry::record_json(last));
        let found = path::step_into(entry::record_json(last), detail_step);
        lemma_steps_concat(path::step_from_each(init, detail_step), found, port_step);
        match last.rdata_detail {
            Some(detail) => {
                lemma_port(detail);
                assert(found.drop_last() =~= Seq::<Json>::empty());
                assert(path::step_from_each(found.drop_last(), port_step) =~= Seq::<
                    Json,
                >::empty());
                assert(path::step_from_each(found, port_step) =~= port_of(last));
            },
            None => {
                assert(path::step_from_each(found, port_step) =~= port_of(last));
            },
        }
    }
}

/// The path `message.questions[*].name` leads to the name of every question,
/// `message.answers[*].record_type` to the type of every answer, and
/// `message.answers[*].rdata_detail.port` to the port of every answer that has
/// one.
pub proof fn paths_lead_into_lists(e: EntryView)
    ensures
        path::resolved(
            entry::entry_json(e),
            seq![
                Step::Field("message"@),
                Step::Field("questions"@),
                Step::ArrayWildcard,
                Step::Field("name"@),
            ],
        ) == e.message.questions.map_values(|q: QuestionInfoView| Json::String(q.name)),
        path::resolved(
            entry::entry_json(e),
            seq![
                Step::Field("message"@),
                Step::Field("answers"@),
                Step::ArrayWildcard,
                Step::Field("record_type"@),
            ],
        ) == e.message.answers.map_values(|r: RecordInfoView| Json::String(r.record_type)),
        path::resolved(
            entry::entry_json(e),
            seq![
                Step::Field("message"@),
                Step::Field("answers"@),
                Step::ArrayWildcard,
                Step::Field("rdata_detail"@),
                Step::Field("port"@),
            ],
        ) == ports(e.message.answers),
{
    let json = entry::entry_json(e);
    let questions = entry::questions_json(e.message.questions);
    let answers = entry::records_json(e.message.answers);
    paths_lead_to_message_fields(e);

    let to_questions = seq![Step::Field("message"@), Step::Field("questions"@)];
    let each_question = to_questions.push(Step::ArrayWildcard);
    let names = e.message.questions.map_values(|q: QuestionInfoView| Json::String(q.name));
    lemma_wildcard(json, to_questions, questions);
    lemma_step_on(json, each_question, Step::Field("name"@));
    assert forall|i: int| 0 <= i < questions.len() implies path::step_into(
        #[trigger] questions[i],
        Step::Field("name"@),
    ) == seq![names[i]] by {
        lemma_question_name(e.message.questions[i]);
    }
    lemma_step_from_each(questions, Step::Field("name"@), names);
    assert(each_question.push(Step::Field("name"@)) =~= seq![
        Step::Field("message"@),
        Step::Field("questions"@),
        Step::ArrayWildcard,
        Step::Field("name"@),
    ]);

    let to_answers = seq![Step::Field("message"@), Step::Field("answers"@)];
    let each_answer = to_answers.push(Step::ArrayWildcard);
    let types = e.message.answers.map_values(|r: RecordInfoView| Json::String(r.record_type));
    lemma_wildcard(json, to_answers, answers);
    lemma_step_on(json, each_answer, Step::Field("record_type"@));
    assert forall|i: int| 0 <= i < answers.len() implies path::step_into(
        #[trigger] answers[i],
        Step::Field("record_type"@),
    ) == seq![types[i]] by {
        lemma_record_fields(e.message.answers[i]);
    }
    lemma_step_from_each(answers, Step::Field("record_type"@), types);
    assert(each_answer.push(Step::Field("record_type"@)) =~= seq![
        Step::Field("message"@),
        Step::Field("answers"@),
        Step::ArrayWildcard,
        Step::Field("record_type"@),
    ]);

    let details = each_answer.push(Step::Field("rdata_detail"@));
    lemma_step_on(json, each_answer, Step::Field("rdata_detail"@));
    lemma_step_on(json, details, Step::Field("port"@));
    lemma_ports(e.message.answers);
    assert(details.push(Step::Field("port"@)) =~= seq![
        Step::Field("message"@),
        Step::Field("answers"@),
        Step::ArrayWildcard,
        Step::Field("rdata_detail"@),
        Step::Field("port"@),
    ]);
}

/// Every field of a record stands under its name: its TTL as a number, its flag as
/// a boolean where it is known, the parts of its data where it has any, and the
/// others as texts.
pub proof fn record_fields_stand_under_their_names(r: RecordInfoView)
    ensures
        path::step_into(entry::record_json(r), Step::Field("name"@)) == seq![Json::String(r.name)],
        path::step_into(entry::record_json(r), Step::Field("record_type"@)) == seq![
            Json::String(r.record_type),
        ],
        path::step_into(entry::record_json(r), Step::Field("class"@)) == seq![
            Json::String(r.class),
        ],
        path::step_into(entry::record_json(r), Step::Field("ttl"@)) == seq![
            Json::Number(NumberView::PosInt(r.ttl as u64)),
        ],
        path::step_into(entry::record_json(r), Step::Field("rdata"@)) == seq![
            Json::String(r.rdata),
        ],
        r.cache_flush matches Some(flag) ==> path::step_into(
            entry::record_json(r),
            Step::Field("cache_flush"@),
        ) == seq![Json::Bool(flag)],
        r.cache_flush is None ==> path::step_into(
            entry::record_json(r),
            Step::Field("cache_flush"@),
        ).len() == 0,
        r.rdata_detail matches Some(detail) ==> path::step_into(
            entry::record_json(r),
            Step::Field("rdata_detail"@),
        ) == seq![entry::detail_json(detail)],
        r.rdata_detail is None ==> path::step_into(
            entry::record_json(r),
            Step::Field("rdata_detail"@),
        ).len() == 0,
{
    reveal_strlit("name");
    reveal_strlit("record_type");
    reveal_strlit("class");
    reveal_strlit("ttl");
    reveal_strlit("cache_flush");
    reveal_strlit("rdata");
    reveal_strlit("rdata_detail");
    assert("name"@.len() == 4);
    assert("record_type"@.len() == 11);
    assert("class"@.len() == 5);
    assert("ttl"@.len() == 3);
    assert("cache_flush"@.len() == 11);
    assert("rdata"@.len() == 5);
    assert("rdata_detail"@.len() == 12);
    assert("record_type"@[0] == 'r' && "cache_flush"@[0] == 'c');
    assert("class"@[0] == 'c' && "rdata"@[0] == 'r');
    let fields = record_fields(r);
    lemma_record_fields(r);
    lemma_field_step(fields, 2);
    lemma_field_step(fields, 3);
    lemma_field_step(fields, 4);
    match r.cache_flush {
        Some(flag) => {
            assert(fields[4] == ("cache_flush"@, Json::Bool(flag)));
            assert(fields[5] == ("rdata"@, Json::String(r.rdata)));
            lemma_field_step(fields, 5);
        },
        None => {
            assert(fields[4] == ("rdata"@, Json::String(r.rdata)));
            value::absent_fields_read_as_none(fields, "cache_flush"@);
        },
    }
}

/// Every field of a question stands under its name: its flag as a boolean where it
/// is known, and the others as texts.
pub proof fn question_fields_stand_under_their_names(q: QuestionInfoView)
    ensures
        path::step_into(entry::question_json(q), Step::Field("name"@)) == seq![
            Json::String(q.name),
        ],
        path::step_into(entry::question_json(q), Step::Field("record_type"@)) == seq![
            Json::String(q.record_type),
        ],
        path::step_into(entry::question_json(q), Step::Field("class"@)) == seq![
            Json::String(q.class),
        ],
        q.prefer_unicast matches Some(flag) ==> path::step_into(
            entry::question_json(q),
            Step::Field("prefer_unicast"@),
        ) == seq![Json::Bool(flag)],
        q.prefer_unicast is None ==> path::step_into(
            entry::question_json(q),
            Step::Field("prefer_unicast"@),
        ).len() == 0,
{
    reveal_strlit("name");
    reveal_strlit("record_type");
    reveal_strlit("class");
    reveal_strlit("prefer_unicast");
    assert("name"@.len() == 4);
    assert("record_type"@.len() == 11);
    assert("class"@.len() == 5);
    assert("prefer_unicast"@.len() == 14);
    let fields = seq![
        ("name"@, Json::String(q.name)),
        ("record_type"@, Json::String(q.record_type)),
        ("class"@, Json::String(q.class)),
    ] + entry::flag_json("prefer_unicast"@, q.prefer_unicast);
    lemma_field_step(fields, 0);
    lemma_field_step(fields, 1);
    lemma_field_step(fields, 2);
    match q.prefer_unicast {
        Some(flag) => {
            assert(fields[3] == ("prefer_unicast"@, Json::Bool(flag)));
            lemma_field_step(fields, 3);
        },
        None => {
            value::absent_fields_read_as_none(fields, "prefer_unicast"@);
        },
    }
}

/// Every part of the data of a record stands under its name: numbers as numbers,
/// names as texts, and entries as an array of texts in order.
pub proof fn detail_parts_stand_under_their_names(detail: DetailView)
    ensures
        detail matches DetailView::Srv { priority, weight, port, target } ==> {
            &&& path::step_into(entry::detail_json(detail), Step::Field("priority"@)) == seq![
                Json::Number(NumberView::PosInt(priority as u64)),
            ]
            &&& path::step_into(entry::detail_json(detail), Step::Field("weight"@)) == seq![
                Json::Number(NumberView::PosInt(weight as u64)),
            ]
            &&& path::step_into(entry::detail_json(detail), Step::Field("port"@)) == seq![
                Json::Number(NumberView::PosInt(port as u64)),
            ]
            &&& path::step_into(entry::detail_json(detail), Step::Field("target"@)) == seq![
                Json::String(target),
            ]
        },
        detail matches DetailView::Txt { entries } ==> path::step_into(
            entry::detail_json(detail),
            Step::Field("entries"@),
        ) == seq![Json::Array(Seq::new(entries.len(), |i: int| Json::String(entries[i])))],
        detail matches DetailView::Mx { preference, exchange } ==> {
            &&& path::step_into(entry::detail_json(detail), Step::Field("preference"@)) == seq![
                Json::Number(NumberView::PosInt(preference as u64)),
            ]
            &&& path::step_into(entry::detail_json(detail), Step::Field("exchange"@)) == seq![
                Json::String(exchange),
            ]
        },
        detail is Opt ==> path::step_into(entry::detail_json(detail), Step::Field("type"@)) == seq![
            Json::String("OPT"@),
        ],
{
    reveal_strlit("priority");
    reveal_strlit("weight");
    reveal_strlit("port");
    reveal_strlit("target");
    reveal_strlit("preference");
    reveal_strlit("exchange");
    assert("priority"@.len() == 8);
    assert("weight"@.len() == 6);
    assert("port"@.len() == 4);
    assert("target"@.len() == 6);
    assert("weight"@[0] == 'w' && "target"@[0] == 't');
    assert("preference"@.len() == 10);
    assert("exchange"@.len() == 8);
    match detail {
        DetailView::Srv { priority, weight, port, target } => {
            let fields = seq![
                ("priority"@, entry::number(priority as u64)),
                ("weight"@, entry::number(weight as u64)),
                ("port"@, entry::number(port as u64)),
                ("target"@, Json::String(target)),
            ];
            lemma_field_step(fields, 0);
            lemma_field_step(fields, 1);
            lemma_field_step(fields, 2);
            lemma_field_step(fields, 3);
        },
        DetailView::Txt { entries } => {
            let items = entries.map_values(|s: Seq<char>| Json::String(s));
            assert(items =~= Seq::new(entries.len(), |i: int| Json::String(entries[i])));
            lemma_field_step(seq![("entries"@, Json::Array(items))], 0);
        },
        DetailView::Mx { preference, exchange } => {
            let fields = seq![
                ("preference"@, entry::number(preference as u64)),
                ("exchange"@, Json::String(exchange)),
            ];
            lemma_field_step(fields, 0);
            lemma_field_step(fields, 1);
        },
        DetailView::Opt => {
            lemma_field_step(seq![("type"@, Json::String("OPT"@))], 0);
        },
    }
}

/// With a wildcard behind it, the path to a section of a message leads to every
/// question or record in that section, in order.
pub proof fn wildcards_lead_to_every_item(e: EntryView)
    ensures
        path::resolved(
            entry::entry_json(e),
            seq![Step::Field("message"@), Step::Field("questions"@), Step::ArrayWildcard],
        ) == Seq::new(
            e.message.questions.len(),
            |i: int| entry::question_json(e.message.questions[i]),
        ),
        path::resolved(
            entry::entry_json(e),
            seq![Step::Field("message"@), Step::Field("answers"@), Step::ArrayWildcard],
        ) == Seq::new(
            e.message.answers.len(),
            |i: int| entry::record_json(e.message.answers[i]),
        ),
        path::resolved(
            entry::entry_json(e),
            seq![Step::Field("message"@), Step::Field("authorities"@), Step::ArrayWildcard],
        ) == Seq::new(
            e.message.authorities.len(),
            |i: int| entry::record_json(e.message.authorities[i]),
        ),
        path::resolved(
            entry::entry_json(e),
            seq![Step::Field("message"@), Step::Field("additionals"@), Step::ArrayWildcard],
        ) == Seq::new(
            e.message.additionals.len(),
            |i: int| entry::record_json(e.message.additionals[i]),
        ),
{
    let json = entry::entry_json(e);
    let m = e.message;
    paths_lead_to_message_fields(e);
    let questions = seq![Step::Field("message"@), Step::Field("questions"@)];
    let answers = seq![Step::Field("message"@), Step::Field("answers"@)];
    let authorities = seq![Step::Field("message"@), Step::Field("authorities"@)];
    let additionals = seq![Step::Field("message"@), Step::Field("additionals"@)];
    lemma_wildcard(json, questions, entry::questions_json(m.questions));
    lemma_wildcard(json, answers, entry::records_json(m.answers));
    lemma_wildcard(json, authorities, entry::records_json(m.authorities));
    lemma_wildcard(json, additionals, entry::records_json(m.additionals));
    assert(questions.push(Step::ArrayWildcard) =~= seq![
        Step::Field("message"@),
        Step::Field("questions"@),
        Step::ArrayWildcard,
    ]);
    assert(answers.push(Step::ArrayWildcard) =~= seq![
        Step::Field("message"@),
        Step::Field("answers"@),
        Step::ArrayWildcard,
    ]);
    assert(authorities.push(Step::ArrayWildcard) =~= seq![
        Step::Field("message"@),
        Step::Field("authorities"@),
        Step::ArrayWildcard,
    ]);
    assert(additionals.push(Step::ArrayWildcard) =~= seq![
        Step::Field("message"@),
        Step::Field("additionals"@),
        Step::ArrayWildcard,
    ]);
}

/// Numbers of an entry are numbers, and the same ones.
pub proof fn numbers_stay_numbers(n: u64)
    ensures
        entry::number(n) == Json::Number(NumberView::PosInt(n)),
{
}

} // verus!
