//! Transforms: changes to a message between filter and output.
pub mod remove_records;
pub mod set_ttl;

use vstd::prelude::*;

use self::remove_records::{RemoveRecords, RemoveServices};
use self::set_ttl::SetTtl;
use crate::codes;
use crate::config::TransformConfig;
use crate::error::{Error, Fault};
use crate::message::{self, DnsMessage, DnsRecord, MessageView, RecordView};
use crate::pattern::{self, Pattern};
use crate::text::same_text;

verus! {

/// Which record sections to operate on.
#[derive(Debug, Clone, Copy)]
pub enum Section {
    Answers,
    Authorities,
    Additionals,
    All,
}

/// The section with a name, as configurations write it.
pub open spec fn named_section(name: Seq<char>) -> Result<Section, Fault> {
    if name == "answers"@ {
        Ok(Section::Answers)
    } else if name == "authorities"@ {
        Ok(Section::Authorities)
    } else if name == "additionals"@ {
        Ok(Section::Additionals)
    } else if name == "all"@ {
        Ok(Section::All)
    } else {
        Err(Fault::UnknownSection(name))
    }
}

impl Section {
    /// The section with a name.
    pub fn parse(s: &str) -> (r: Result<Section, Error>)
        ensures
            match r {
                Ok(section) => named_section(s@) == Ok::<Section, Fault>(section),
                Err(e) => named_section(s@) == Err::<Section, Fault>(e@),
            },
    {
        if same_text(s, "answers") {
            Ok(Section::Answers)
        } else if same_text(s, "authorities") {
            Ok(Section::Authorities)
        } else if same_text(s, "additionals") {
            Ok(Section::Additionals)
        } else if same_text(s, "all") {
            Ok(Section::All)
        } else {
            Err(Error::UnknownSection(s.to_owned()))
        }
    }
}

/// The answers are among the sections.
pub open spec fn covers_answers(section: Section) -> bool {
    section is Answers || section is All
}

/// The authorities are among the sections.
pub open spec fn covers_authorities(section: Section) -> bool {
    section is Authorities || section is All
}

/// The additionals are among the sections.
pub open spec fn covers_additionals(section: Section) -> bool {
    section is Additionals || section is All
}

/// The text of an optional string.
pub open spec fn optional_text(text: Option<&str>) -> Option<Seq<char>> {
    match text {
        Some(t) => Some(t@),
        None => None,
    }
}

/// The text of an optional string.
pub open spec fn optional_string(text: Option<String>) -> Option<Seq<char>> {
    match text {
        Some(t) => Some(t@),
        None => None,
    }
}

/// Which records a matcher asks for.
pub struct MatcherView {
    pub record_type: Option<u16>,
    pub name: Option<Seq<char>>,
    pub rdata: Option<Seq<char>>,
}

/// Matches records by type, name regex, and/or rdata regex.
pub struct RecordMatcher {
    pub record_type: Option<u16>,
    pub name_regex: Option<Pattern>,
    pub rdata_regex: Option<Pattern>,
}

impl View for RecordMatcher {
    type V = MatcherView;

    open spec fn view(&self) -> MatcherView {
        MatcherView {
            record_type: self.record_type,
            name: match self.name_regex {
                Some(p) => Some(p@),
                None => None,
            },
            rdata: match self.rdata_regex {
                Some(p) => Some(p@),
                None => None,
            },
        }
    }
}

/// A record matches when its type, its name and how its data is written for
/// people are as asked, as far as they are asked for. Data that cannot be
/// written matches no expression.
pub open spec fn record_matches(matcher: MatcherView, record: RecordView) -> bool {
    &&& matcher.record_type is Some ==> message::data_type(record.data)
        == matcher.record_type->0
    &&& matcher.name is Some ==> pattern::pattern_matches(
        matcher.name->0,
        message::name_text(record.name),
    )
    &&& matcher.rdata is Some ==> match message::data_display(record.data) {
        Some(text) => pattern::pattern_matches(matcher.rdata->0, text),
        None => false,
    }
}

/// Why a record type is refused, if it is.
pub open spec fn type_fault(name: Option<Seq<char>>) -> Option<Fault> {
    match name {
        Some(n) => match codes::named_type(n) {
            Ok(_) => None,
            Err(fault) => Some(fault),
        },
        None => None,
    }
}

/// The code of an optional record type.
pub open spec fn type_asked(name: Option<Seq<char>>) -> Option<u16> {
    match name {
        Some(n) => codes::type_code(n),
        None => None,
    }
}

/// Why a regular expression is refused, if it is.
pub open spec fn pattern_fault(source: Option<Seq<char>>) -> Option<Fault> {
    match source {
        Some(s) => match pattern::pattern_error(s) {
            Some(text) => Some(Fault::Pattern(text)),
            None => None,
        },
        None => None,
    }
}

/// The first of two faults.
pub open spec fn first_fault(a: Option<Fault>, b: Option<Fault>) -> Option<Fault> {
    if a is Some {
        a
    } else {
        b
    }
}

/// Why a matcher is refused, if it is.
pub open spec fn matcher_fault(
    record_type: Option<Seq<char>>,
    name: Option<Seq<char>>,
    rdata: Option<Seq<char>>,
) -> Option<Fault> {
    first_fault(type_fault(record_type), first_fault(pattern_fault(name), pattern_fault(rdata)))
}

/// The code of an optional record type.
pub(crate) fn parse_type(record_type: Option<&str>) -> (r: Result<Option<u16>, Error>)
    ensures
        match r {
            Ok(code) => type_fault(optional_text(record_type)) is None && code == type_asked(
                optional_text(record_type),
            ),
            Err(e) => type_fault(optional_text(record_type)) == Some(e@),
        },
{
    match record_type {
        Some(name) => match codes::record_type_code(name) {
            Ok(code) => Ok(Some(code)),
            Err(e) => Err(e),
        },
        None => Ok(None),
    }
}

/// Compiles an optional regular expression.
fn parse_pattern(source: Option<&str>) -> (r: Result<Option<Pattern>, Error>)
    ensures
        match r {
            Ok(compiled) => {
                &&& pattern_fault(optional_text(source)) is None
                &&& match compiled {
                    Some(p) => optional_text(source) == Some(p@),
                    None => source is None,
                }
            },
            Err(e) => pattern_fault(optional_text(source)) == Some(e@),
        },
{
    match source {
        Some(s) => match Pattern::compile(s) {
            Ok(p) => Ok(Some(p)),
            Err(text) => Err(Error::Pattern(text)),
        },
        None => Ok(None),
    }
}

impl RecordMatcher {
    /// A matcher for the given type and regular expressions.
    pub fn new(
        record_type: Option<&str>,
        name_regex: Option<&str>,
        rdata_regex: Option<&str>,
    ) -> (r: Result<RecordMatcher, Error>)
        ensures
            match r {
                Ok(matcher) => {
                    &&& matcher_fault(
                        optional_text(record_type),
                        optional_text(name_regex),
                        optional_text(rdata_regex),
                    ) is None
                    &&& matcher@ == MatcherView {
                        record_type: type_asked(optional_text(record_type)),
                        name: optional_text(name_regex),
                        rdata: optional_text(rdata_regex),
                    }
                },
                Err(e) => matcher_fault(
                    optional_text(record_type),
                    optional_text(name_regex),
                    optional_text(rdata_regex),
                ) == Some(e@),
            },
    {
        let record_type = match parse_type(record_type) {
            Ok(code) => code,
            Err(e) => {
                return Err(e);
            },
        };
        let name_regex = match parse_pattern(name_regex) {
            Ok(p) => p,
            Err(e) => {
                return Err(e);
            },
        };
        let rdata_regex = match parse_pattern(rdata_regex) {
            Ok(p) => p,
            Err(e) => {
                return Err(e);
            },
        };
        Ok(RecordMatcher { record_type, name_regex, rdata_regex })
    }

    /// Whether a record matches.
    pub fn matches(&self, record: &DnsRecord) -> (r: bool)
        ensures
            r == record_matches(self@, record@),
    {
        if let Some(code) = self.record_type {
            if record.record_type() != code {
                return false;
            }
        }
        if let Some(re) = &self.name_regex {
            if !re.matches(record.name.text().as_str()) {
                return false;
            }
        }
        if let Some(re) = &self.rdata_regex {
            match record.data.display() {
                Some(text) => {
                    if !re.matches(text.as_str()) {
                        return false;
                    }
                },
                None => {
                    return false;
                },
            }
        }
        true
    }
}

/// What becomes of a message, and whether it goes on, is dropped, or why
/// neither can be said.
pub struct Outcome {
    pub message: MessageView,
    pub verdict: Result<bool, Fault>,
}

/// The verdict that a returned result stands for.
pub open spec fn verdict_of(result: Result<bool, Error>) -> Result<bool, Fault> {
    match result {
        Ok(go_on) => Ok(go_on),
        Err(e) => Err(e@),
    }
}

/// A transform that can modify a DNS message in-place.
pub trait Transform: Send + Sync {
    /// What becomes of a message.
    spec fn outcome(&self, message: MessageView) -> Outcome;

    /// Apply the transform. Return Ok(true) to continue, Ok(false) to drop the packet.
    fn apply(&self, msg: &mut DnsMessage) -> (r: Result<bool, Error>)
        ensures
            self.outcome(old(msg)@) == (Outcome { message: final(msg)@, verdict: verdict_of(r) }),
    ;
}

/// A transform of this library or of its user.
pub enum AnyTransform {
    RemoveRecords(RemoveRecords),
    RemoveServices(RemoveServices),
    SetTtl(SetTtl),
    Custom(Box<dyn Transform>),
}

/// What a transform makes of a message.
pub open spec fn transform_outcome(transform: AnyTransform, message: MessageView) -> Outcome {
    match transform {
        AnyTransform::RemoveRecords(t) => t.outcome(message),
        AnyTransform::RemoveServices(t) => t.outcome(message),
        AnyTransform::SetTtl(t) => t.outcome(message),
        AnyTransform::Custom(t) => t.outcome(message),
    }
}

/// What some transforms make of a message, one after the other, until one of
/// them does not let it go on.
pub open spec fn chain_outcome(transforms: Seq<AnyTransform>, message: MessageView) -> Outcome
    decreases transforms.len(),
{
    if transforms.len() == 0 {
        Outcome { message, verdict: Ok(true) }
    } else {
        let outcome = transform_outcome(transforms[0], message);
        if outcome.verdict == Ok::<bool, Fault>(true) {
            chain_outcome(transforms.drop_first(), outcome.message)
        } else {
            outcome
        }
    }
}

/// An ordered chain of transforms.
pub struct TransformChain {
    transforms: Vec<AnyTransform>,
}

impl View for TransformChain {
    type V = Seq<AnyTransform>;

    closed spec fn view(&self) -> Seq<AnyTransform> {
        self.transforms@
    }
}

impl TransformChain {
    /// A chain of the given transforms.
    pub fn new(transforms: Vec<AnyTransform>) -> (r: TransformChain)
        ensures
            r@ == transforms@,
    {
        TransformChain { transforms }
    }

    /// Applies the transforms in order.
    pub fn apply(&self, msg: &mut DnsMessage) -> (r: Result<bool, Error>)
        ensures
            chain_outcome(self@, old(msg)@) == (Outcome {
                message: final(msg)@,
                verdict: verdict_of(r),
            }),
    {
        let ghost start = msg@;
        let mut i: usize = 0;
        assert(self@.skip(0) =~= self@);
        while i < self.transforms.len()
            invariant
                i <= self.transforms@.len(),
                start == old(msg)@,
                chain_outcome(self@, start) == chain_outcome(self@.skip(i as int), msg@),
            decreases self.transforms@.len() - i,
        {
            proof {
                assert(self@.skip(i as int)[0] == self.transforms@[i as int]);
                assert(self@.skip(i as int).drop_first() =~= self@.skip(i + 1));
            }
            let ghost before = msg@;
            let result = match &self.transforms[i] {
                AnyTransform::RemoveRecords(t) => t.apply(msg),
                AnyTransform::RemoveServices(t) => t.apply(msg),
                AnyTransform::SetTtl(t) => t.apply(msg),
                AnyTransform::Custom(t) => t.apply(msg),
            };
            assert(transform_outcome(self.transforms@[i as int], before) == (Outcome {
                message: msg@,
                verdict: verdict_of(result),
            }));
            match result {
                Ok(true) => {},
                Ok(false) => {
                    return Ok(false);
                },
                Err(e) => {
                    return Err(e);
                },
            }
            i += 1;
        }
        Ok(true)
    }

    /// Whether there are no transforms.
    pub fn is_empty(&self) -> (r: bool)
        ensures
            r == (self@.len() == 0),
    {
        self.transforms.len() == 0
    }
}

/// The items that are not marked for removal, in order.
pub open spec fn kept<T>(items: Seq<T>, removed: Seq<bool>) -> Seq<T>
    decreases items.len(),
{
    if items.len() == 0 {
        items
    } else {
        let init = kept(items.drop_last(), removed);
        if removed[items.len() - 1] {
            init
        } else {
            init.push(items.last())
        }
    }
}

/// A predicate may mark records for removal like this.
pub open spec fn may_mark<F: Fn(&DnsRecord) -> bool>(
    should_remove: F,
    records: Seq<DnsRecord>,
    removed: Seq<bool>,
) -> bool {
    &&& removed.len() == records.len()
    &&& forall|i: int|
        0 <= i < records.len() ==> call_ensures(should_remove, (&#[trigger] records[i],), removed[i])
}

/// The records that remain where a predicate removes some.
pub open spec fn may_remain<F: Fn(&DnsRecord) -> bool>(
    should_remove: F,
    records: Seq<DnsRecord>,
    remaining: Seq<DnsRecord>,
) -> bool {
    exists|removed: Seq<bool>| #[trigger]
        may_mark(should_remove, records, removed) && remaining == kept(records, removed)
}

/// Removes the records for which a predicate holds.
fn filter_records<F: Fn(&DnsRecord) -> bool>(
    records: Vec<DnsRecord>,
    should_remove: &F,
) -> (r: Vec<DnsRecord>)
    requires
        forall|record: DnsRecord| call_requires(*should_remove, (&record,)),
    ensures
        may_remain(*should_remove, records@, r@),
{
    let ghost all = records@;
    let mut remaining: Vec<DnsRecord> = Vec::new();
    let ghost mut removed: Seq<bool> = Seq::empty();
    for record in it: records
        invariant
            all == it.seq(),
            forall|record: DnsRecord| call_requires(*should_remove, (&record,)),
            removed.len() == it.index(),
            forall|i: int|
                0 <= i < it.index() ==> call_ensures(
                    *should_remove,
                    (&#[trigger] all[i],),
                    removed[i],
                ),
            remaining@ == kept(all.take(it.index() as int), removed),
    {
        let remove = should_remove(&record);
        let ghost n = it.index();
        let ghost before = removed;
        proof {
            removed = before.push(remove);
            assert(all.take(n + 1).drop_last() =~= all.take(n as int));
            lemma_kept_prefix(all.take(n as int), before, removed);
        }
        if !remove {
            remaining.push(record);
        }
    }
    proof {
        assert(all.take(all.len() as int) =~= all);
        assert(may_mark(*should_remove, all, removed));
    }
    remaining
}

/// Marks after the last item do not matter.
proof fn lemma_kept_prefix<T>(items: Seq<T>, a: Seq<bool>, b: Seq<bool>)
    requires
        items.len() <= a.len(),
        items.len() <= b.len(),
        forall|i: int| 0 <= i < items.len() ==> a[i] == b[i],
    ensures
        kept(items, a) == kept(items, b),
    decreases items.len(),
{
    if items.len() > 0 {
        lemma_kept_prefix(items.drop_last(), a, b);
    }
}

/// Filter records in a section, keeping only those that DON'T match the predicate.
pub fn filter_section<F: Fn(&DnsRecord) -> bool>(
    msg: &mut DnsMessage,
    section: &Section,
    should_remove: F,
)
    requires
        forall|record: DnsRecord| call_requires(should_remove, (&record,)),
    ensures
        final(msg).header == old(msg).header,
        final(msg).queries@ == old(msg).queries@,
        final(msg).edns == old(msg).edns,
        if covers_answers(*section) {
            may_remain(should_remove, old(msg).answers@, final(msg).answers@)
        } else {
            final(msg).answers@ == old(msg).answers@
        },
        if covers_authorities(*section) {
            may_remain(should_remove, old(msg).authorities@, final(msg).authorities@)
        } else {
            final(msg).authorities@ == old(msg).authorities@
        },
        if covers_additionals(*section) {
            may_remain(should_remove, old(msg).additionals@, final(msg).additionals@)
        } else {
            final(msg).additionals@ == old(msg).additionals@
        },
{
    if matches!(*section, Section::Answers | Section::All) {
        let mut records: Vec<DnsRecord> = Vec::new();
        std::mem::swap(&mut records, &mut msg.answers);
        msg.answers = filter_records(records, &should_remove);
    }
    if matches!(*section, Section::Authorities | Section::All) {
        let mut records: Vec<DnsRecord> = Vec::new();
        std::mem::swap(&mut records, &mut msg.authorities);
        msg.authorities = filter_records(records, &should_remove);
    }
    if matches!(*section, Section::Additionals | Section::All) {
        let mut records: Vec<DnsRecord> = Vec::new();
        std::mem::swap(&mut records, &mut msg.additionals);
        msg.additionals = filter_records(records, &should_remove);
    }
}

/// A place of a record.
pub open spec fn is_place(i: int, records: Seq<DnsRecord>) -> bool {
    0 <= i < records.len()
}

/// Mutates each record.
fn mutate_records<F: Fn(&mut DnsRecord)>(records: &mut Vec<DnsRecord>, mutate: &F)
    requires
        forall|record: &mut DnsRecord| call_requires(*mutate, (record,)),
    ensures
        final(records)@.len() == old(records)@.len(),
        forall|i: int| #[trigger]
            is_place(i, final(records)@) ==> exists|record: &mut DnsRecord| #[trigger]
                call_ensures(*mutate, (record,), ()) && *record == old(records)@[i]
                    && *final(record) == final(records)@[i],
{
    let ghost start = records@;
    let mut i: usize = 0;
    while i < records.len()
        invariant
            i <= records@.len(),
            start == old(records)@,
            records@.len() == start.len(),
            forall|record: &mut DnsRecord| call_requires(*mutate, (record,)),
            forall|j: int| i <= j < start.len() ==> records@[j] == start[j],
            forall|j: int| #[trigger]
                is_place(j, records@) && j < i ==> exists|record: &mut DnsRecord| #[trigger]
                    call_ensures(*mutate, (record,), ()) && *record == start[j] && *final(record)
                        == records@[j],
        decreases records@.len() - i,
    {
        let ghost before = records@;
        mutate(&mut records[i]);
        proof {
            assert(records@ =~= before.update(i as int, records@[i as int]));
            assert forall|j: int| #[trigger] is_place(j, records@) && j <= i implies exists|
                record: &mut DnsRecord,
            | #[trigger]
                call_ensures(*mutate, (record,), ()) && *record == start[j] && *final(record)
                    == records@[j] by {
                assert(is_place(j, before));
            }
        }
        i += 1;
    }
}

/// Mutate records in a section.
pub fn mutate_section<F: Fn(&mut DnsRecord)>(msg: &mut DnsMessage, section: &Section, mutate: F)
    requires
        forall|record: &mut DnsRecord| call_requires(mutate, (record,)),
    ensures
        final(msg).header == old(msg).header,
        final(msg).queries@ == old(msg).queries@,
        final(msg).edns == old(msg).edns,
        final(msg).answers@.len() == old(msg).answers@.len(),
        final(msg).authorities@.len() == old(msg).authorities@.len(),
        final(msg).additionals@.len() == old(msg).additionals@.len(),
        forall|i: int| #[trigger]
            is_place(i, final(msg).answers@) ==> if covers_answers(*section) {
                exists|record: &mut DnsRecord| #[trigger]
                    call_ensures(mutate, (record,), ()) && *record == old(msg).answers@[i]
                        && *final(record) == final(msg).answers@[i]
            } else {
                final(msg).answers@[i] == old(msg).answers@[i]
            },
        forall|i: int| #[trigger]
            is_place(i, final(msg).authorities@) ==> if covers_authorities(*section) {
                exists|record: &mut DnsRecord| #[trigger]
                    call_ensures(mutate, (record,), ()) && *record == old(msg).authorities@[i]
                        && *final(record) == final(msg).authorities@[i]
            } else {
                final(msg).authorities@[i] == old(msg).authorities@[i]
            },
        forall|i: int| #[trigger]
            is_place(i, final(msg).additionals@) ==> if covers_additionals(*section) {
                exists|record: &mut DnsRecord| #[trigger]
                    call_ensures(mutate, (record,), ()) && *record == old(msg).additionals@[i]
                        && *final(record) == final(msg).additionals@[i]
            } else {
                final(msg).additionals@[i] == old(msg).additionals@[i]
            },
{
    if matches!(*section, Section::Answers | Section::All) {
        mutate_records(&mut msg.answers, &mutate);
    }
    if matches!(*section, Section::Authorities | Section::All) {
        mutate_records(&mut msg.authorities, &mutate);
    }
    if matches!(*section, Section::Additionals | Section::All) {
        mutate_records(&mut msg.additionals, &mutate);
    }
}

/// What a transform of this library does.
pub enum Plan {
    RemoveRecords { section: Section, matcher: MatcherView },
    SetTtl { section: Section, value: u32, record_type: Option<u16> },
    RemoveServices { pattern: Seq<char> },
}

/// What a transform of this library makes of a message.
pub open spec fn plan_outcome(plan: Plan, message: MessageView) -> MessageView {
    match plan {
        Plan::RemoveRecords { section, matcher } => remove_records::records_removed(
            section,
            matcher,
            message,
        ),
        Plan::SetTtl { section, value, record_type } => set_ttl::ttl_set(
            section,
            value,
            record_type,
            message,
        ),
        Plan::RemoveServices { pattern } => remove_records::services_removed(pattern, message),
    }
}

/// What a transform does, if it is one of this library.
pub open spec fn plan_of_transform(transform: AnyTransform) -> Option<Plan> {
    match transform {
        AnyTransform::RemoveRecords(t) => Some(
            Plan::RemoveRecords { section: t.asked_section(), matcher: t.asked_matcher() },
        ),
        AnyTransform::SetTtl(t) => Some(
            Plan::SetTtl {
                section: t.asked_section(),
                value: t.asked_value(),
                record_type: t.asked_type(),
            },
        ),
        AnyTransform::RemoveServices(t) => Some(
            Plan::RemoveServices { pattern: t.asked_pattern() },
        ),
        AnyTransform::Custom(_) => None,
    }
}

/// What a configuration asks for.
pub open spec fn plan_of_config(config: TransformConfig) -> Plan {
    match config {
        TransformConfig::RemoveRecords { section, record_type, match_name, match_rdata } =>
            Plan::RemoveRecords {
            section: named_section(section@)->Ok_0,
            matcher: MatcherView {
                record_type: type_asked(optional_string(record_type)),
                name: optional_string(match_name),
                rdata: optional_string(match_rdata),
            },
        },
        TransformConfig::SetTtl { section, value, record_type } => Plan::SetTtl {
            section: named_section(section@)->Ok_0,
            value,
            record_type: type_asked(optional_string(record_type)),
        },
        TransformConfig::RemoveServices { match_name } => Plan::RemoveServices {
            pattern: match_name@,
        },
    }
}

/// Why a section is refused, if it is.
pub open spec fn section_fault(name: Seq<char>) -> Option<Fault> {
    match named_section(name) {
        Ok(_) => None,
        Err(fault) => Some(fault),
    }
}

/// Why a configuration is refused, if it is.
pub open spec fn transform_fault(config: TransformConfig) -> Option<Fault> {
    match config {
        TransformConfig::RemoveRecords { section, record_type, match_name, match_rdata } =>
            first_fault(
            section_fault(section@),
            matcher_fault(
                optional_string(record_type),
                optional_string(match_name),
                optional_string(match_rdata),
            ),
        ),
        TransformConfig::SetTtl { section, value, record_type } => first_fault(
            type_fault(optional_string(record_type)),
            section_fault(section@),
        ),
        TransformConfig::RemoveServices { match_name } => pattern_fault(Some(match_name@)),
    }
}

/// The first fault of some configurations.
pub open spec fn transforms_fault(configs: Seq<TransformConfig>) -> Option<Fault>
    decreases configs.len(),
{
    if configs.len() == 0 {
        None
    } else {
        first_fault(transforms_fault(configs.drop_last()), transform_fault(configs.last()))
    }
}

proof fn lemma_transforms_fault_stays(configs: Seq<TransformConfig>, n: nat)
    requires
        n <= configs.len(),
        transforms_fault(configs.take(n as int)) is Some,
    ensures
        transforms_fault(configs) == transforms_fault(configs.take(n as int)),
    decreases configs.len(),
{
    if n == configs.len() {
        assert(configs.take(n as int) =~= configs);
    } else {
        assert(configs.drop_last().take(n as int) =~= configs.take(n as int));
        lemma_transforms_fault_stays(configs.drop_last(), n);
    }
}

/// The text of an optional string.
fn borrowed(text: &Option<String>) -> (r: Option<&str>)
    ensures
        optional_text(r) == optional_string(*text),
{
    match text {
        Some(t) => Some(t.as_str()),
        None => None,
    }
}

/// The transform that a configuration asks for.
fn build_transform(config: &TransformConfig) -> (r: Result<AnyTransform, Error>)
    ensures
        match r {
            Ok(t) => transform_fault(*config) is None && plan_of_transform(t) == Some(
                plan_of_config(*config),
            ),
            Err(e) => transform_fault(*config) == Some(e@),
        },
{
    match config {
        TransformConfig::RemoveRecords { section, record_type, match_name, match_rdata } => {
            match RemoveRecords::new(
                section.as_str(),
                borrowed(record_type),
                borrowed(match_name),
                borrowed(match_rdata),
            ) {
                Ok(t) => Ok(AnyTransform::RemoveRecords(t)),
                Err(e) => Err(e),
            }
        },
        TransformConfig::SetTtl { section, value, record_type } => {
            match SetTtl::new(section.as_str(), *value, borrowed(record_type)) {
                Ok(t) => Ok(AnyTransform::SetTtl(t)),
                Err(e) => Err(e),
            }
        },
        TransformConfig::RemoveServices { match_name } => {
            match RemoveServices::new(match_name.as_str()) {
                Ok(t) => Ok(AnyTransform::RemoveServices(t)),
                Err(e) => Err(e),
            }
        },
    }
}

/// Build a TransformChain from config.
pub fn build_chain(configs: &[TransformConfig]) -> (r: Result<TransformChain, Error>)
    ensures
        match r {
            Ok(chain) => {
                &&& transforms_fault(configs@) is None
                &&& chain@.len() == configs@.len()
                &&& forall|i: int|
                    0 <= i < configs@.len() ==> plan_of_transform(#[trigger] chain@[i]) == Some(
                        plan_of_config(configs@[i]),
                    )
            },
            Err(e) => transforms_fault(configs@) == Some(e@),
        },
{
    let mut transforms: Vec<AnyTransform> = Vec::new();
    let mut i: usize = 0;
    while i < configs.len()
        invariant
            i <= configs@.len(),
            transforms_fault(configs@.take(i as int)) is None,
            transforms@.len() == i,
            forall|j: int|
                0 <= j < i ==> plan_of_transform(#[trigger] transforms@[j]) == Some(
                    plan_of_config(configs@[j]),
                ),
        decreases configs@.len() - i,
    {
        proof {
            assert(configs@.take(i + 1).drop_last() =~= configs@.take(i as int));
            assert(configs@.take(i + 1).last() == configs@[i as int]);
        }
        match build_transform(&configs[i]) {
            Ok(t) => transforms.push(t),
            Err(e) => {
                proof {
                    lemma_transforms_fault_stays(configs@, (i + 1) as nat);
                }
                return Err(e);
            },
        }
        i += 1;
    }
    assert(configs@.take(i as int) =~= configs@);
    Ok(TransformChain::new(transforms))
}

/// A transform of this library never drops a message and never fails, and
/// makes of it what its plan says.
pub proof fn built_transforms_follow_their_plan(transform: AnyTransform, message: MessageView)
    requires
        plan_of_transform(transform) is Some,
    ensures
        transform_outcome(transform, message) == (Outcome {
            message: plan_outcome(plan_of_transform(transform)->0, message),
            verdict: Ok(true),
        }),
{
}

/// A chain without transforms leaves a message as it is.
pub proof fn empty_chain_changes_nothing(message: MessageView)
    ensures
        chain_outcome(Seq::empty(), message) == (Outcome { message, verdict: Ok(true) }),
{
}

/// A chain works as its first part followed by its second part, which is
/// reached only where the first lets the message go on.
pub proof fn chains_compose(
    first: Seq<AnyTransform>,
    second: Seq<AnyTransform>,
    message: MessageView,
)
    ensures
        chain_outcome(first + second, message) == {
            let outcome = chain_outcome(first, message);
            if outcome.verdict == Ok::<bool, Fault>(true) {
                chain_outcome(second, outcome.message)
            } else {
                outcome
            }
        },
    decreases first.len(),
{
    if first.len() == 0 {
        assert(first + second =~= second);
    } else {
        let all = first + second;
        assert(all[0] == first[0]);
        assert(all.drop_first() =~= first.drop_first() + second);
        let outcome = transform_outcome(first[0], message);
        if outcome.verdict == Ok::<bool, Fault>(true) {
            chains_compose(first.drop_first(), second, outcome.message);
        }
    }
}

/// A section is known by one of four names, and no other name is a section.
pub proof fn sections_are_named(name: Seq<char>)
    ensures
        named_section("answers"@) == Ok::<Section, Fault>(Section::Answers),
        named_section("authorities"@) == Ok::<Section, Fault>(Section::Authorities),
        named_section("additionals"@) == Ok::<Section, Fault>(Section::Additionals),
        named_section("all"@) == Ok::<Section, Fault>(Section::All),
        name != "answers"@ && name != "authorities"@ && name != "additionals"@ && name != "all"@
            ==> named_section(name) == Err::<Section, Fault>(Fault::UnknownSection(name)),
{
    reveal_strlit("answers");
    reveal_strlit("authorities");
    reveal_strlit("additionals");
    reveal_strlit("all");
    assert("answers"@.len() == 7);
    assert("authorities"@.len() == 11);
    assert("additionals"@.len() == 11);
    assert("all"@.len() == 3);
    assert("authorities"@[1] == 'u' && "additionals"@[1] == 'd');
}

/// A record that matches is of the type asked for, has a name in which the name
/// expression matches and data in which the data expression matches, each if it
/// is asked for and whatever else is.
pub proof fn matching_records_meet_every_criterion(matcher: MatcherView, record: RecordView)
    requires
        record_matches(matcher, record),
    ensures
        matcher.record_type matches Some(code) ==> message::data_type(record.data) == code,
        matcher.name matches Some(source) ==> pattern::pattern_matches(
            source,
            message::name_text(record.name),
        ),
        matcher.rdata matches Some(source) ==> message::data_display(record.data) is Some
            && pattern::pattern_matches(source, message::data_display(record.data)->0),
{
}

/// A record that meets every criterion asked for matches.
pub proof fn meeting_every_criterion_suffices(matcher: MatcherView, record: RecordView)
    requires
        matcher.record_type is None || matcher.record_type == Some(message::data_type(record.data)),
        matcher.name matches Some(source) ==> pattern::pattern_matches(
            source,
            message::name_text(record.name),
        ),
        matcher.rdata matches Some(source) ==> message::data_display(record.data) is Some
            && pattern::pattern_matches(source, message::data_display(record.data)->0),
    ensures
        record_matches(matcher, record),
{
}

/// A further criterion only narrows what a matcher matches.
pub proof fn criteria_narrow(matcher: MatcherView, record: RecordView, code: u16, source: Seq<char>)
    ensures
        record_matches(MatcherView { record_type: Some(code), ..matcher }, record) == (
        record_matches(MatcherView { record_type: None, ..matcher }, record) && message::data_type(
            record.data,
        ) == code),
        record_matches(MatcherView { name: Some(source), ..matcher }, record) == (record_matches(
            MatcherView { name: None, ..matcher },
            record,
        ) && pattern::pattern_matches(source, message::name_text(record.name))),
        record_matches(MatcherView { rdata: Some(source), ..matcher }, record) == (record_matches(
            MatcherView { rdata: None, ..matcher },
            record,
        ) && message::data_display(record.data) is Some && pattern::pattern_matches(
            source,
            message::data_display(record.data)->0,
        )),
{
}

/// A matcher that asks for nothing matches every record.
pub proof fn asking_nothing_matches_everything(record: RecordView)
    ensures
        record_matches(MatcherView { record_type: None, name: None, rdata: None }, record),
{
}

/// A configuration is refused exactly when it names an unknown section, an
/// unknown record type, or an expression that does not compile.
pub proof fn transforms_are_refused_for_a_reason(config: TransformConfig)
    ensures
        transform_fault(config) is None <==> match config {
            TransformConfig::RemoveRecords { section, record_type, match_name, match_rdata } => {
                &&& named_section(section@) is Ok
                &&& record_type matches Some(name) ==> codes::type_code(name@) is Some
                &&& match_name matches Some(source) ==> pattern::pattern_error(source@) is None
                &&& match_rdata matches Some(source) ==> pattern::pattern_error(source@) is None
            },
            TransformConfig::SetTtl { section, value, record_type } => {
                &&& named_section(section@) is Ok
                &&& record_type matches Some(name) ==> codes::type_code(name@) is Some
            },
            TransformConfig::RemoveServices { match_name } => pattern::pattern_error(
                match_name@,
            ) is None,
        },
{
}

/// A chain is refused exactly when one of its transforms is, and then for the
/// first one that is.
pub proof fn chains_are_refused_for_a_transform(configs: Seq<TransformConfig>)
    ensures
        transforms_fault(configs) is None <==> (forall|i: int|
            0 <= i < configs.len() ==> transform_fault(#[trigger] configs[i]) is None),
        forall|n: int|
            0 <= n < configs.len() && transform_fault(#[trigger] configs[n]) is Some && (forall|i: int|
                0 <= i < n ==> transform_fault(#[trigger] configs[i]) is None) ==> transforms_fault(
                configs,
            ) == transform_fault(configs[n]),
    decreases configs.len(),
{
    if configs.len() > 0 {
        let init = configs.drop_last();
        chains_are_refused_for_a_transform(init);
        assert(configs[configs.len() - 1] == configs.last());
        assert forall|i: int| 0 <= i < init.len() implies #[trigger] init[i] == configs[i] by {}
        if transforms_fault(configs) is None {
            assert forall|i: int| 0 <= i < configs.len() implies transform_fault(
                #[trigger] configs[i],
            ) is None by {
                if i < init.len() {
                    assert(transform_fault(init[i]) is None);
                }
            }
        }
        assert forall|n: int|
            0 <= n < configs.len() && transform_fault(#[trigger] configs[n]) is Some && (forall|i: int|
                0 <= i < n ==> transform_fault(#[trigger] configs[i]) is None) implies transforms_fault(
            configs,
        ) == transform_fault(configs[n]) by {
            if n < init.len() {
                assert(transform_fault(init[n]) is Some);
                assert forall|i: int| 0 <= i < n implies transform_fault(
                    #[trigger] init[i],
                ) is None by {
                    assert(transform_fault(configs[i]) is None);
                }
            } else {
                assert forall|i: int| 0 <= i < init.len() implies transform_fault(
                    #[trigger] init[i],
                ) is None by {
                    assert(transform_fault(configs[i]) is None);
                }
            }
        }
    }
}

/// A transform does what is configured: on the section that is named, with the
/// type, the expressions and the TTL that are given.
pub proof fn transforms_do_what_is_configured(config: TransformConfig)
    requires
        transform_fault(config) is None,
    ensures
        match (config, plan_of_config(config)) {
            (
                TransformConfig::RemoveRecords { section, record_type, match_name, match_rdata },
                Plan::RemoveRecords { section: planned, matcher },
            ) => {
                &&& named_section(section@) == Ok::<Section, Fault>(planned)
                &&& match record_type {
                    Some(name) => matcher.record_type is Some && matcher.record_type
                        == codes::type_code(name@),
                    None => matcher.record_type is None,
                }
                &&& match match_name {
                    Some(source) => matcher.name == Some(source@),
                    None => matcher.name is None,
                }
                &&& match match_rdata {
                    Some(source) => matcher.rdata == Some(source@),
                    None => matcher.rdata is None,
                }
            },
            (
                TransformConfig::SetTtl { section, value, record_type },
                Plan::SetTtl { section: planned, value: ttl, record_type: code },
            ) => {
                &&& named_section(section@) == Ok::<Section, Fault>(planned)
                &&& ttl == value
                &&& match record_type {
                    Some(name) => code is Some && code == codes::type_code(name@),
                    None => code is None,
                }
            },
            (
                TransformConfig::RemoveServices { match_name },
                Plan::RemoveServices { pattern },
            ) => pattern == match_name@,
            _ => false,
        },
{
}

/// A chain of one transform does what the transform does.
pub proof fn single_transforms_are_chains(transform: AnyTransform, message: MessageView)
    ensures
        chain_outcome(seq![transform], message) == transform_outcome(transform, message),
{
    let rest = seq![transform].drop_first();
    assert(rest =~= Seq::<AnyTransform>::empty());
    let outcome = transform_outcome(transform, message);
    assert(chain_outcome(rest, outcome.message) == (Outcome {
        message: outcome.message,
        verdict: Ok(true),
    }));
}

/// A matcher asks for what is in its fields.
pub proof fn matchers_ask_for_what_is_in_them(matcher: RecordMatcher)
    ensures
        matcher@.record_type == matcher.record_type,
        matcher.name_regex is None <==> matcher@.name is None,
        matcher.name_regex matches Some(expression) ==> matcher@.name == Some(expression@),
        matcher.rdata_regex is None <==> matcher@.rdata is None,
        matcher.rdata_regex matches Some(expression) ==> matcher@.rdata == Some(expression@),
{
}

/// A verdict is the result that was returned: to go on, to drop the message, or
/// the error.
pub proof fn verdicts_are_results(result: Result<bool, Error>)
    ensures
        result == Ok::<bool, Error>(true) ==> verdict_of(result) == Ok::<bool, Fault>(true),
        result == Ok::<bool, Error>(false) ==> verdict_of(result) == Ok::<bool, Fault>(false),
        result matches Err(e) ==> verdict_of(result) == Err::<bool, Fault>(e@),
{
}

/// Once a transform does not let a message go on, the transforms behind it change
/// nothing any more.
pub proof fn stopped_chains_stay_stopped(
    transforms: Seq<AnyTransform>,
    transform: AnyTransform,
    message: MessageView,
)
    ensures
        chain_outcome(transforms, message).verdict != Ok::<bool, Fault>(true) ==> chain_outcome(
            transforms.push(transform),
            message,
        ) == chain_outcome(transforms, message),
        chain_outcome(transforms, message).verdict == Ok::<bool, Fault>(true) ==> chain_outcome(
            transforms.push(transform),
            message,
        ) == transform_outcome(transform, chain_outcome(transforms, message).message),
{
    let made = chain_outcome(transforms, message).message;
    chains_compose(transforms, seq![transform], message);
    assert(transforms + seq![transform] =~= transforms.push(transform));
    single_transforms_are_chains(transform, made);
}

/// Every kind of transform does its own work in a chain.
pub proof fn transforms_do_their_own_work(transform: AnyTransform, message: MessageView)
    ensures
        transform matches AnyTransform::RemoveRecords(t) ==> transform_outcome(transform, message)
            == t.outcome(message),
        transform matches AnyTransform::RemoveServices(t) ==> transform_outcome(transform, message)
            == t.outcome(message),
        transform matches AnyTransform::SetTtl(t) ==> transform_outcome(transform, message)
            == t.outcome(message),
        transform matches AnyTransform::Custom(t) ==> transform_outcome(transform, message)
            == t.outcome(message),
{
}

/// Of several faults of one configuration the first is reported. Where records are
/// removed, that is the section, then the type, then the expression on names, then
/// the one on data; where TTLs are set, the type and then the section.
pub proof fn the_first_fault_of_a_transform_is_reported(config: TransformConfig)
    ensures
        config matches TransformConfig::RemoveRecords {
            section,
            record_type,
            match_name,
            match_rdata,
        } ==> {
            let known_section = named_section(section@) is Ok;
            let known_type = record_type matches Some(name) ==> codes::type_code(name@) is Some;
            &&& !known_section ==> transform_fault(config) == Some(
                Fault::UnknownSection(section@),
            )
            &&& known_section && !known_type ==> transform_fault(config) == Some(
                Fault::UnknownRecordType(record_type->0@),
            )
            &&& known_section && known_type ==> (match_name matches Some(source)
                ==> pattern::pattern_error(source@) matches Some(why) ==> transform_fault(config)
                == Some(Fault::Pattern(why)))
            &&& known_section && known_type && (match_name matches Some(source)
                ==> pattern::pattern_error(source@) is None) ==> (match_rdata matches Some(source)
                ==> pattern::pattern_error(source@) matches Some(why) ==> transform_fault(config)
                == Some(Fault::Pattern(why)))
        },
        config matches TransformConfig::SetTtl { section, value, record_type } ==> {
            let known_type = record_type matches Some(name) ==> codes::type_code(name@) is Some;
            &&& !known_type ==> transform_fault(config) == Some(
                Fault::UnknownRecordType(record_type->0@),
            )
            &&& known_type && named_section(section@) is Err ==> transform_fault(config) == Some(
                Fault::UnknownSection(section@),
            )
        },
        config matches TransformConfig::RemoveServices { match_name } ==> pattern::pattern_error(
            match_name@,
        ) matches Some(why) ==> transform_fault(config) == Some(Fault::Pattern(why)),
{
}

} // verus!
