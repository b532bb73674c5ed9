//! The transform that sets times to live.
use vstd::prelude::*;

use super::{mutate_section, Outcome, Section, Transform};
use crate::error::{Error, Fault};
use crate::message::{self, DnsMessage, DnsRecord, MessageView, RecordView};

verus! {

/// A record with its TTL set, unless it says goodbye or is of another type
/// than asked.
pub open spec fn with_ttl(record: RecordView, value: u32, record_type: Option<u16>) -> RecordView {
    if record.ttl == 0 || (record_type is Some && message::data_type(record.data)
        != record_type->0) {
        record
    } else {
        RecordView { ttl: value, ..record }
    }
}

/// Some records with their TTLs set.
pub open spec fn all_with_ttl(
    records: Seq<RecordView>,
    value: u32,
    record_type: Option<u16>,
) -> Seq<RecordView> {
    Seq::new(records.len(), |i: int| with_ttl(records[i], value, record_type))
}

/// A message with the TTLs of some sections set.
pub open spec fn ttl_set(
    section: Section,
    value: u32,
    record_type: Option<u16>,
    message: MessageView,
) -> MessageView {
    MessageView {
        answers: if super::covers_answers(section) {
            all_with_ttl(message.answers, value, record_type)
        } else {
            message.answers
        },
        authorities: if super::covers_authorities(section) {
            all_with_ttl(message.authorities, value, record_type)
        } else {
            message.authorities
        },
        additionals: if super::covers_additionals(section) {
            all_with_ttl(message.additionals, value, record_type)
        } else {
            message.additionals
        },
        ..message
    }
}

/// Set TTL on matching records. Respects TTL=0 (mDNS goodbye): never overwrites it.
pub struct SetTtl {
    section: Section,
    value: u32,
    record_type: Option<u16>,
}

impl SetTtl {
    /// The sections in which TTLs are set.
    pub closed spec fn asked_section(&self) -> Section {
        self.section
    }

    /// The TTL.
    pub closed spec fn asked_value(&self) -> u32 {
        self.value
    }

    /// The type of the records whose TTL is set, if it is not all.
    pub closed spec fn asked_type(&self) -> Option<u16> {
        self.record_type
    }

    /// The transform for the given section, TTL and type.
    pub fn new(section: &str, value: u32, record_type: Option<&str>) -> (r: Result<SetTtl, Error>)
        ensures
            match r {
                Ok(t) => {
                    &&& super::first_fault(
                        super::type_fault(super::optional_text(record_type)),
                        super::section_fault(section@),
                    ) is None
                    &&& t.asked_section() == super::named_section(section@)->Ok_0
                    &&& t.asked_value() == value
                    &&& t.asked_type() == super::type_asked(super::optional_text(record_type))
                },
                Err(e) => super::first_fault(
                    super::type_fault(super::optional_text(record_type)),
                    super::section_fault(section@),
                ) == Some(e@),
            },
    {
        let record_type = match super::parse_type(record_type) {
            Ok(code) => code,
            Err(e) => {
                return Err(e);
            },
        };
        match Section::parse(section) {
            Ok(section) => Ok(SetTtl { section, value, record_type }),
            Err(e) => Err(e),
        }
    }
}

/// Records whose TTLs are set one by one, if their section is covered, are set
/// as a whole.
proof fn lemma_section(
    covered: bool,
    before: Seq<DnsRecord>,
    after: Seq<DnsRecord>,
    value: u32,
    record_type: Option<u16>,
)
    requires
        after.len() == before.len(),
        forall|i: int|
            0 <= i < after.len() ==> (#[trigger] after[i])@ == if covered {
                with_ttl(before[i]@, value, record_type)
            } else {
                before[i]@
            },
    ensures
        message::records_view(after) == if covered {
            all_with_ttl(message::records_view(before), value, record_type)
        } else {
            message::records_view(before)
        },
{
    let records = message::records_view(before);
    if covered {
        assert(message::records_view(after) =~= all_with_ttl(records, value, record_type));
    } else {
        assert(message::records_view(after) =~= records);
    }
}

impl Transform for SetTtl {
    open spec fn outcome(&self, message: MessageView) -> Outcome {
        Outcome {
            message: ttl_set(
                self.asked_section(),
                self.asked_value(),
                self.asked_type(),
                message,
            ),
            verdict: Ok(true),
        }
    }

    fn apply(&self, msg: &mut DnsMessage) -> (r: Result<bool, Error>) {
        let ghost before = *msg;
        let value: u32 = self.value;
        let record_type: Option<u16> = self.record_type;
        let mutate = |record: &mut DnsRecord|
            ensures
                final(record)@ == with_ttl(old(record)@, value, record_type),
            {
                // Don't touch TTL=0 (mDNS goodbye announcement)
                if record.ttl == 0 {
                    return;
                }
                if let Some(code) = record_type {
                    if record.record_type() != code {
                        return;
                    }
                }
                record.ttl = value;
            };
        mutate_section(msg, &self.section, mutate);
        proof {
            let section = self.section;
            assert forall|i: int| 0 <= i < msg.answers@.len() implies (#[trigger] msg.answers@[i])@
                == if super::covers_answers(section) {
                with_ttl(before.answers@[i]@, value, record_type)
            } else {
                before.answers@[i]@
            } by {
                assert(super::is_place(i, msg.answers@));
            }
            assert forall|i: int| 0 <= i < msg.authorities@.len() implies (#[trigger] msg.authorities@[i])@
                == if super::covers_authorities(section) {
                with_ttl(before.authorities@[i]@, value, record_type)
            } else {
                before.authorities@[i]@
            } by {
                assert(super::is_place(i, msg.authorities@));
            }
            assert forall|i: int| 0 <= i < msg.additionals@.len() implies (#[trigger] msg.additionals@[i])@
                == if super::covers_additionals(section) {
                with_ttl(before.additionals@[i]@, value, record_type)
            } else {
                before.additionals@[i]@
            } by {
                assert(super::is_place(i, msg.additionals@));
            }
            lemma_section(
                super::covers_answers(section),
                before.answers@,
                msg.answers@,
                value,
                record_type,
            );
            lemma_section(
                super::covers_authorities(section),
                before.authorities@,
                msg.authorities@,
                value,
                record_type,
            );
            lemma_section(
                super::covers_additionals(section),
                before.additionals@,
                msg.additionals@,
                value,
                record_type,
            );
        }
        Ok(true)
    }
}

/// A goodbye stays a goodbye, whatever TTL is set.
pub proof fn goodbyes_are_kept(record: RecordView, value: u32, record_type: Option<u16>)
    requires
        record.ttl == 0,
    ensures
        with_ttl(record, value, record_type) == record,
{
}

/// Setting TTLs changes nothing of a record but its TTL, and that to the
/// value asked for if at all.
pub proof fn only_ttls_change(record: RecordView, value: u32, record_type: Option<u16>)
    ensures
        ({
            let after = with_ttl(record, value, record_type);
            &&& after.name == record.name
            &&& after.dns_class == record.dns_class
            &&& after.data == record.data
            &&& after.ttl == record.ttl || after.ttl == value
        }),
{
}

/// Setting TTLs keeps the number and the order of the records, and touches no
/// other section, no question and no header.
pub proof fn setting_ttls_leaves_the_rest(
    section: Section,
    value: u32,
    record_type: Option<u16>,
    message: MessageView,
)
    ensures
        ({
            let after = ttl_set(section, value, record_type, message);
            &&& after.header == message.header
            &&& after.queries == message.queries
            &&& after.edns == message.edns
            &&& after.answers.len() == message.answers.len()
            &&& after.authorities.len() == message.authorities.len()
            &&& after.additionals.len() == message.additionals.len()
            &&& !super::covers_answers(section) ==> after.answers == message.answers
            &&& !super::covers_authorities(section) ==> after.authorities == message.authorities
            &&& !super::covers_additionals(section) ==> after.additionals == message.additionals
        }),
{
}

/// Of two TTLs set one after the other the second stands, unless the first
/// made goodbyes of the records.
pub proof fn the_later_ttl_stands(
    record: RecordView,
    first: u32,
    second: u32,
    record_type: Option<u16>,
)
    requires
        first != 0,
    ensures
        with_ttl(with_ttl(record, first, record_type), second, record_type) == with_ttl(
            record,
            second,
            record_type,
        ),
{
}

/// Setting the same TTL again changes nothing.
pub proof fn setting_ttls_is_idempotent(
    section: Section,
    value: u32,
    record_type: Option<u16>,
    message: MessageView,
)
    ensures
        ttl_set(section, value, record_type, ttl_set(section, value, record_type, message))
            == ttl_set(section, value, record_type, message),
{
    let after = ttl_set(section, value, record_type, message);
    let again = ttl_set(section, value, record_type, after);
    assert(again.answers =~= after.answers);
    assert(again.authorities =~= after.authorities);
    assert(again.additionals =~= after.additionals);
}

/// Every record that is no goodbye and is of the type asked for, if one is, gets
/// the TTL asked for, whatever its class, name and data.
pub proof fn matching_records_get_the_ttl(record: RecordView, value: u32, record_type: Option<u16>)
    requires
        record.ttl != 0,
        record_type is None || record_type == Some(message::data_type(record.data)),
    ensures
        with_ttl(record, value, record_type).ttl == value,
{
}

/// A record of another type than the one asked for keeps its TTL.
pub proof fn other_types_keep_their_ttl(record: RecordView, value: u32, code: u16)
    requires
        message::data_type(record.data) != code,
    ensures
        with_ttl(record, value, Some(code)) == record,
{
}

/// TTLs are set in the section that is named and in no other, and in all three
/// if all are named, at each place by itself.
pub proof fn ttls_are_set_in_their_section(
    value: u32,
    record_type: Option<u16>,
    message: MessageView,
    i: int,
)
    ensures
        ({
            let after = ttl_set(Section::Answers, value, record_type, message);
            &&& 0 <= i < message.answers.len() ==> after.answers[i] == with_ttl(
                message.answers[i],
                value,
                record_type,
            )
            &&& after.authorities == message.authorities
            &&& after.additionals == message.additionals
        }),
        ({
            let after = ttl_set(Section::Authorities, value, record_type, message);
            &&& 0 <= i < message.authorities.len() ==> after.authorities[i] == with_ttl(
                message.authorities[i],
                value,
                record_type,
            )
            &&& after.answers == message.answers
            &&& after.additionals == message.additionals
        }),
        ({
            let after = ttl_set(Section::Additionals, value, record_type, message);
            &&& 0 <= i < message.additionals.len() ==> after.additionals[i] == with_ttl(
                message.additionals[i],
                value,
                record_type,
            )
            &&& after.answers == message.answers
            &&& after.authorities == message.authorities
        }),
        ({
            let after = ttl_set(Section::All, value, record_type, message);
            &&& 0 <= i < message.answers.len() ==> after.answers[i] == with_ttl(
                message.answers[i],
                value,
                record_type,
            )
            &&& 0 <= i < message.authorities.len() ==> after.authorities[i] == with_ttl(
                message.authorities[i],
                value,
                record_type,
            )
            &&& 0 <= i < message.additionals.len() ==> after.additionals[i] == with_ttl(
                message.additionals[i],
                value,
                record_type,
            )
        }),
{
}

/// The transform sets, in every section that it is for, the TTL of every record
/// that is no goodbye and is of its type, if it has one, and lets every message
/// go on.
pub proof fn the_transform_sets_ttls(transform: SetTtl, message: MessageView, i: int)
    ensures
        transform.outcome(message).verdict == Ok::<bool, Fault>(true),
        (transform.asked_section() is Answers || transform.asked_section() is All) && 0 <= i
            < message.answers.len() && message.answers[i].ttl != 0 && (transform.asked_type() is None
            || transform.asked_type() == Some(message::data_type(message.answers[i].data)))
            ==> transform.outcome(message).message.answers[i] == (RecordView {
            ttl: transform.asked_value(),
            ..message.answers[i]
        }),
        (transform.asked_section() is Authorities || transform.asked_section() is All) && 0 <= i
            < message.authorities.len() && message.authorities[i].ttl != 0 && (
        transform.asked_type() is None || transform.asked_type() == Some(
            message::data_type(message.authorities[i].data),
        )) ==> transform.outcome(message).message.authorities[i] == (RecordView {
            ttl: transform.asked_value(),
            ..message.authorities[i]
        }),
        (transform.asked_section() is Additionals || transform.asked_section() is All) && 0 <= i
            < message.additionals.len() && message.additionals[i].ttl != 0 && (
        transform.asked_type() is None || transform.asked_type() == Some(
            message::data_type(message.additionals[i].data),
        )) ==> transform.outcome(message).message.additionals[i] == (RecordView {
            ttl: transform.asked_value(),
            ..message.additionals[i]
        }),
{
}

} // verus!
