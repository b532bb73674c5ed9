//! Transforms that remove records.
use vstd::prelude::*;

use super::{filter_section, MatcherView, Outcome, RecordMatcher, Section, Transform};
use crate::error::{Error, Fault};
use crate::message::{self, DnsMessage, DnsQuery, DnsRecord, MessageView, QueryView, RecordView};
use crate::pattern::{self, Pattern};

verus! {

/// The records that do not match, in order.
pub open spec fn without(records: Seq<RecordView>, matcher: MatcherView) -> Seq<RecordView>
    decreases records.len(),
{
    if records.len() == 0 {
        Seq::empty()
    } else {
        let init = without(records.drop_last(), matcher);
        if super::record_matches(matcher, records.last()) {
            init
        } else {
            init.push(records.last())
        }
    }
}

/// A message without the records of some sections that match.
pub open spec fn records_removed(
    section: Section,
    matcher: MatcherView,
    message: MessageView,
) -> MessageView {
    MessageView {
        answers: if super::covers_answers(section) {
            without(message.answers, matcher)
        } else {
            message.answers
        },
        authorities: if super::covers_authorities(section) {
            without(message.authorities, matcher)
        } else {
            message.authorities
        },
        additionals: if super::covers_additionals(section) {
            without(message.additionals, matcher)
        } else {
            message.additionals
        },
        ..message
    }
}

/// The questions whose name does not match, in order.
pub open spec fn without_queries(
    queries: Seq<QueryView>,
    pattern: Seq<char>,
) -> Seq<QueryView>
    decreases queries.len(),
{
    if queries.len() == 0 {
        Seq::empty()
    } else {
        let init = without_queries(queries.drop_last(), pattern);
        if query_matches(pattern, queries.last()) {
            init
        } else {
            init.push(queries.last())
        }
    }
}

/// The name of a question matches.
pub open spec fn query_matches(pattern: Seq<char>, query: QueryView) -> bool {
    pattern::pattern_matches(pattern, message::name_text(query.name))
}

/// The matcher for records whose name matches.
pub open spec fn name_matcher(pattern: Seq<char>) -> MatcherView {
    MatcherView { record_type: None, name: Some(pattern), rdata: None }
}

/// A message without the questions and records whose name matches.
pub open spec fn services_removed(pattern: Seq<char>, message: MessageView) -> MessageView {
    records_removed(
        Section::All,
        name_matcher(pattern),
        MessageView { queries: without_queries(message.queries, pattern), ..message },
    )
}

/// Remove records matching criteria from specified sections.
pub struct RemoveRecords {
    section: Section,
    matcher: RecordMatcher,
}

/// What remains where exactly the matching records are removed.
proof fn lemma_kept_without(records: Seq<DnsRecord>, removed: Seq<bool>, matcher: MatcherView)
    requires
        removed.len() >= records.len(),
        forall|i: int|
            0 <= i < records.len() ==> removed[i] == super::record_matches(
                matcher,
                (#[trigger] records[i])@,
            ),
    ensures
        message::records_view(super::kept(records, removed)) == without(
            message::records_view(records),
            matcher,
        ),
    decreases records.len(),
{
    let all = message::records_view(records);
    if records.len() == 0 {
        assert(message::records_view(super::kept(records, removed)) =~= without(all, matcher));
    } else {
        let init = records.drop_last();
        assert forall|i: int| 0 <= i < init.len() implies removed[i] == super::record_matches(
            matcher,
            (#[trigger] init[i])@,
        ) by {
            assert(init[i] == records[i]);
        }
        lemma_kept_without(init, removed, matcher);
        assert(all.drop_last() =~= message::records_view(init));
        assert(all.last() == records[records.len() - 1]@);
        assert(message::records_view(super::kept(records, removed)) =~= without(all, matcher));
    }
}

/// What remains where a predicate removes exactly the matching records.
proof fn lemma_remaining<F: Fn(&DnsRecord) -> bool>(
    should_remove: F,
    matcher: MatcherView,
    records: Seq<DnsRecord>,
    remaining: Seq<DnsRecord>,
)
    requires
        forall|record: DnsRecord, r: bool|
            call_ensures(should_remove, (&record,), r) ==> r == super::record_matches(
                matcher,
                record@,
            ),
        super::may_remain(should_remove, records, remaining),
    ensures
        message::records_view(remaining) == without(message::records_view(records), matcher),
{
    let removed = choose|removed: Seq<bool>| #[trigger]
        super::may_mark(should_remove, records, removed) && remaining == super::kept(
            records,
            removed,
        );
    lemma_kept_without(records, removed, matcher);
}

impl RemoveRecords {
    /// The sections from which records are removed.
    pub closed spec fn asked_section(&self) -> Section {
        self.section
    }

    /// Which records are removed.
    pub closed spec fn asked_matcher(&self) -> MatcherView {
        self.matcher@
    }

    /// The transform for the given section, type and regular expressions.
    pub fn new(
        section: &str,
        record_type: Option<&str>,
        match_name: Option<&str>,
        match_rdata: Option<&str>,
    ) -> (r: Result<RemoveRecords, Error>)
        ensures
            match r {
                Ok(t) => {
                    &&& super::first_fault(
                        super::section_fault(section@),
                        super::matcher_fault(
                            super::optional_text(record_type),
                            super::optional_text(match_name),
                            super::optional_text(match_rdata),
                        ),
                    ) is None
                    &&& t.asked_section() == super::named_section(section@)->Ok_0
                    &&& t.asked_matcher() == MatcherView {
                        record_type: super::type_asked(super::optional_text(record_type)),
                        name: super::optional_text(match_name),
                        rdata: super::optional_text(match_rdata),
                    }
                },
                Err(e) => super::first_fault(
                    super::section_fault(section@),
                    super::matcher_fault(
                        super::optional_text(record_type),
                        super::optional_text(match_name),
                        super::optional_text(match_rdata),
                    ),
                ) == Some(e@),
            },
    {
        let section = match Section::parse(section) {
            Ok(s) => s,
            Err(e) => {
                return Err(e);
            },
        };
        match RecordMatcher::new(record_type, match_name, match_rdata) {
            Ok(matcher) => Ok(RemoveRecords { section, matcher }),
            Err(e) => Err(e),
        }
    }
}

/// Removes the records of some sections that match.
fn remove_matching(msg: &mut DnsMessage, section: &Section, matcher: &RecordMatcher)
    ensures
        final(msg)@ == records_removed(*section, matcher@, old(msg)@),
{
    let ghost before = *msg;
    let ghost wanted = matcher@;
    let should_remove = |record: &DnsRecord| -> (r: bool)
        ensures
            r == super::record_matches(matcher@, record@),
        { matcher.matches(record) };
    filter_section(msg, section, should_remove);
    proof {
        if super::covers_answers(*section) {
            lemma_remaining(should_remove, wanted, before.answers@, msg.answers@);
        }
        if super::covers_authorities(*section) {
            lemma_remaining(should_remove, wanted, before.authorities@, msg.authorities@);
        }
        if super::covers_additionals(*section) {
            lemma_remaining(should_remove, wanted, before.additionals@, msg.additionals@);
        }
    }
}

impl Transform for RemoveRecords {
    open spec fn outcome(&self, message: MessageView) -> Outcome {
        Outcome {
            message: records_removed(self.asked_section(), self.asked_matcher(), message),
            verdict: Ok(true),
        }
    }

    fn apply(&self, msg: &mut DnsMessage) -> (r: Result<bool, Error>) {
        remove_matching(msg, &self.section, &self.matcher);
        Ok(true)
    }
}

/// Remove services by name pattern from ALL sections including questions.
pub struct RemoveServices {
    name_regex: Pattern,
}

impl RemoveServices {
    /// The regular expression on names.
    pub closed spec fn asked_pattern(&self) -> Seq<char> {
        self.name_regex@
    }

    /// The transform for the given regular expression.
    pub fn new(match_name: &str) -> (r: Result<RemoveServices, Error>)
        ensures
            match r {
                Ok(t) => super::pattern_fault(Some(match_name@)) is None && t.asked_pattern()
                    == match_name@,
                Err(e) => super::pattern_fault(Some(match_name@)) == Some(e@),
            },
    {
        match Pattern::compile(match_name) {
            Ok(name_regex) => Ok(RemoveServices { name_regex }),
            Err(text) => Err(Error::Pattern(text)),
        }
    }
}

/// Removes the questions whose name matches.
fn remove_queries(queries: Vec<DnsQuery>, name_regex: &Pattern) -> (r: Vec<DnsQuery>)
    ensures
        message::queries_view(r@) == without_queries(
            message::queries_view(queries@),
            name_regex@,
        ),
{
    let ghost all = message::queries_view(queries@);
    let mut remaining: Vec<DnsQuery> = Vec::new();
    assert(message::queries_view(remaining@) =~= without_queries(all.take(0), name_regex@));
    for query in it: queries
        invariant
            all == message::queries_view(it.seq()),
            message::queries_view(remaining@) == without_queries(
                all.take(it.index() as int),
                name_regex@,
            ),
    {
        let ghost n = it.index();
        let ghost so_far = remaining@;
        proof {
            assert(all.take(n + 1).drop_last() =~= all.take(n as int));
            assert(all.take(n + 1).last() == query@);
        }
        if !name_regex.matches(query.name.text().as_str()) {
            remaining.push(query);
            assert(message::queries_view(remaining@) =~= message::queries_view(so_far).push(
                query@,
            ));
        }
    }
    assert(all.take(all.len() as int) =~= all);
    remaining
}

impl Transform for RemoveServices {
    open spec fn outcome(&self, message: MessageView) -> Outcome {
        Outcome { message: services_removed(self.asked_pattern(), message), verdict: Ok(true) }
    }

    fn apply(&self, msg: &mut DnsMessage) -> (r: Result<bool, Error>) {
        let mut queries: Vec<DnsQuery> = Vec::new();
        std::mem::swap(&mut queries, &mut msg.queries);
        msg.queries = remove_queries(queries, &self.name_regex);

        let ghost before = *msg;
        let ghost wanted = name_matcher(self.name_regex@);
        let name_regex = &self.name_regex;
        let should_remove = |record: &DnsRecord| -> (r: bool)
            ensures
                r == super::record_matches(name_matcher(name_regex@), record@),
            { name_regex.matches(record.name.text().as_str()) };
        filter_section(msg, &Section::All, should_remove);
        proof {
            lemma_remaining(should_remove, wanted, before.answers@, msg.answers@);
            lemma_remaining(should_remove, wanted, before.authorities@, msg.authorities@);
            lemma_remaining(should_remove, wanted, before.additionals@, msg.additionals@);
        }
        Ok(true)
    }
}

/// No record remains that matches, and every record that does not match
/// remains as often as it was there.
pub proof fn matching_records_are_gone(records: Seq<RecordView>, matcher: MatcherView)
    ensures
        forall|i: int|
            0 <= i < without(records, matcher).len() ==> !super::record_matches(
                matcher,
                #[trigger] without(records, matcher)[i],
            ),
        forall|r: RecordView| #[trigger]
            without(records, matcher).to_multiset().count(r) == if super::record_matches(
                matcher,
                r,
            ) {
                0
            } else {
                records.to_multiset().count(r)
            },
    decreases records.len(),
{
    broadcast use vstd::seq_lib::group_to_multiset_ensures;

    let after = without(records, matcher);
    if records.len() > 0 {
        let init = records.drop_last();
        let last = records.last();
        let rest = without(init, matcher);
        matching_records_are_gone(init, matcher);
        assert(records =~= init.push(last));
        assert(records.to_multiset() =~= init.to_multiset().insert(last));
        if super::record_matches(matcher, last) {
            assert(after == rest);
        } else {
            assert(after == rest.push(last));
            assert(after.to_multiset() =~= rest.to_multiset().insert(last));
        }
        assert forall|i: int| 0 <= i < after.len() implies !super::record_matches(
            matcher,
            #[trigger] after[i],
        ) by {
            if i < rest.len() {
                assert(after[i] == rest[i]);
            }
        }
        assert forall|r: RecordView| #[trigger]
            after.to_multiset().count(r) == if super::record_matches(matcher, r) {
                0
            } else {
                records.to_multiset().count(r)
            } by {
            assert(rest.to_multiset().count(r) == if super::record_matches(matcher, r) {
                0
            } else {
                init.to_multiset().count(r)
            });
        }
    } else {
        assert(after =~= Seq::<RecordView>::empty());
        assert(records =~= Seq::<RecordView>::empty());
    }
}

/// The records that remain keep their order: there are places in the old
/// sequence, one after the other, at which they stood.
pub proof fn remaining_records_keep_their_order(
    records: Seq<RecordView>,
    matcher: MatcherView,
) -> (places: Seq<int>)
    ensures
        places.len() == without(records, matcher).len(),
        forall|i: int|
            0 <= i < places.len() ==> 0 <= #[trigger] places[i] < records.len()
                && records[places[i]] == without(records, matcher)[i],
        forall|i: int, j: int| 0 <= i < j < places.len() ==> places[i] < places[j],
    decreases records.len(),
{
    if records.len() == 0 {
        Seq::empty()
    } else {
        let init = records.drop_last();
        let places = remaining_records_keep_their_order(init, matcher);
        if super::record_matches(matcher, records.last()) {
            places
        } else {
            places.push(records.len() - 1)
        }
    }
}

/// Records none of which matches remain as they are.
pub proof fn nothing_to_remove(records: Seq<RecordView>, matcher: MatcherView)
    requires
        forall|i: int|
            0 <= i < records.len() ==> !super::record_matches(matcher, #[trigger] records[i]),
    ensures
        without(records, matcher) == records,
    decreases records.len(),
{
    if records.len() == 0 {
        assert(without(records, matcher) =~= records);
    } else {
        let init = records.drop_last();
        assert forall|i: int| 0 <= i < init.len() implies !super::record_matches(
            matcher,
            #[trigger] init[i],
        ) by {
            assert(init[i] == records[i]);
        }
        nothing_to_remove(init, matcher);
        assert(!super::record_matches(matcher, records[records.len() - 1]));
        assert(records =~= init.push(records.last()));
    }
}

/// Removing records again changes nothing.
pub proof fn removal_is_idempotent(section: Section, matcher: MatcherView, message: MessageView)
    ensures
        records_removed(section, matcher, records_removed(section, matcher, message))
            == records_removed(section, matcher, message),
{
    lemma_without_twice(message.answers, matcher);
    lemma_without_twice(message.authorities, matcher);
    lemma_without_twice(message.additionals, matcher);
}

proof fn lemma_without_twice(records: Seq<RecordView>, matcher: MatcherView)
    ensures
        without(without(records, matcher), matcher) == without(records, matcher),
{
    matching_records_are_gone(records, matcher);
    nothing_to_remove(without(records, matcher), matcher);
}

/// Removing records touches no other section, no question and no header.
pub proof fn removal_leaves_the_rest(section: Section, matcher: MatcherView, message: MessageView)
    ensures
        ({
            let after = records_removed(section, matcher, message);
            &&& after.header == message.header
            &&& after.queries == message.queries
            &&& after.edns == message.edns
            &&& !super::covers_answers(section) ==> after.answers == message.answers
            &&& !super::covers_authorities(section) ==> after.authorities == message.authorities
            &&& !super::covers_additionals(section) ==> after.additionals == message.additionals
        }),
{
}

/// No question and no record remains whose name matches.
pub proof fn services_are_gone(pattern: Seq<char>, message: MessageView)
    ensures
        ({
            let after = services_removed(pattern, message);
            &&& forall|i: int|
                0 <= i < after.queries.len() ==> !pattern::pattern_matches(
                    pattern,
                    message::name_text((#[trigger] after.queries[i]).name),
                )
            &&& forall|i: int|
                0 <= i < after.answers.len() ==> !pattern::pattern_matches(
                    pattern,
                    message::name_text((#[trigger] after.answers[i]).name),
                )
            &&& forall|i: int|
                0 <= i < after.authorities.len() ==> !pattern::pattern_matches(
                    pattern,
                    message::name_text((#[trigger] after.authorities[i]).name),
                )
            &&& forall|i: int|
                0 <= i < after.additionals.len() ==> !pattern::pattern_matches(
                    pattern,
                    message::name_text((#[trigger] after.additionals[i]).name),
                )
        }),
{
    lemma_queries_are_gone(message.queries, pattern);
    matching_records_are_gone(message.answers, name_matcher(pattern));
    matching_records_are_gone(message.authorities, name_matcher(pattern));
    matching_records_are_gone(message.additionals, name_matcher(pattern));
}

proof fn lemma_queries_are_gone(queries: Seq<QueryView>, pattern: Seq<char>)
    ensures
        forall|i: int|
            0 <= i < without_queries(queries, pattern).len() ==> !query_matches(
                pattern,
                #[trigger] without_queries(queries, pattern)[i],
            ),
    decreases queries.len(),
{
    if queries.len() > 0 {
        let after = without_queries(queries, pattern);
        let rest = without_queries(queries.drop_last(), pattern);
        lemma_queries_are_gone(queries.drop_last(), pattern);
        assert forall|i: int| 0 <= i < after.len() implies !query_matches(
            pattern,
            #[trigger] after[i],
        ) by {
            if i < rest.len() {
                assert(after[i] == rest[i]);
            }
        }
    }
}

/// Records are removed from the section that is named and from no other, and
/// from all three if all are named.
pub proof fn records_are_removed_from_their_section(matcher: MatcherView, message: MessageView)
    ensures
        ({
            let after = records_removed(Section::Answers, matcher, message);
            &&& after.answers == without(message.answers, matcher)
            &&& after.authorities == message.authorities
            &&& after.additionals == message.additionals
        }),
        ({
            let after = records_removed(Section::Authorities, matcher, message);
            &&& after.answers == message.answers
            &&& after.authorities == without(message.authorities, matcher)
            &&& after.additionals == message.additionals
        }),
        ({
            let after = records_removed(Section::Additionals, matcher, message);
            &&& after.answers == message.answers
            &&& after.authorities == message.authorities
            &&& after.additionals == without(message.additionals, matcher)
        }),
        ({
            let after = records_removed(Section::All, matcher, message);
            &&& after.answers == without(message.answers, matcher)
            &&& after.authorities == without(message.authorities, matcher)
            &&& after.additionals == without(message.additionals, matcher)
        }),
{
}

/// Removal goes record by record: a further record that matches changes nothing,
/// and one that does not comes last.
pub proof fn records_are_removed_one_by_one(
    records: Seq<RecordView>,
    record: RecordView,
    matcher: MatcherView,
)
    ensures
        without(Seq::empty(), matcher) == Seq::<RecordView>::empty(),
        without(records.push(record), matcher) == if super::record_matches(matcher, record) {
            without(records, matcher)
        } else {
            without(records, matcher).push(record)
        },
{
    assert(records.push(record).drop_last() =~= records);
}

/// The name of a record alone decides whether it goes with a service, and the
/// name of a question whether that does.
pub proof fn services_are_known_by_name(pattern: Seq<char>, record: RecordView, query: QueryView)
    ensures
        super::record_matches(name_matcher(pattern), record) == pattern::pattern_matches(
            pattern,
            message::name_text(record.name),
        ),
        query_matches(pattern, query) == pattern::pattern_matches(
            pattern,
            message::name_text(query.name),
        ),
{
}

/// Questions are removed one by one: a further one that matches changes nothing,
/// and one that does not comes last.
pub proof fn questions_are_removed_one_by_one(
    queries: Seq<QueryView>,
    query: QueryView,
    pattern: Seq<char>,
)
    ensures
        without_queries(Seq::empty(), pattern) == Seq::<QueryView>::empty(),
        without_queries(queries.push(query), pattern) == if pattern::pattern_matches(
            pattern,
            message::name_text(query.name),
        ) {
            without_queries(queries, pattern)
        } else {
            without_queries(queries, pattern).push(query)
        },
{
    assert(queries.push(query).drop_last() =~= queries);
}

/// Removing services removes, from the questions and from all three sections,
/// what has a matching name, and leaves the header and the extension.
pub proof fn services_are_removed_everywhere(pattern: Seq<char>, message: MessageView)
    ensures
        ({
            let after = services_removed(pattern, message);
            &&& after.queries == without_queries(message.queries, pattern)
            &&& after.answers == without(message.answers, name_matcher(pattern))
            &&& after.authorities == without(message.authorities, name_matcher(pattern))
            &&& after.additionals == without(message.additionals, name_matcher(pattern))
            &&& after.header == message.header
            &&& after.edns == message.edns
        }),
{
}

/// What does not match stays: a question or record whose name does not match is
/// still there after services were removed.
pub proof fn other_services_stay(pattern: Seq<char>, message: MessageView, i: int)
    ensures
        ({
            let after = services_removed(pattern, message);
            &&& 0 <= i < message.queries.len() && !pattern::pattern_matches(
                pattern,
                message::name_text(message.queries[i].name),
            ) ==> after.queries.contains(message.queries[i])
            &&& 0 <= i < message.answers.len() && !pattern::pattern_matches(
                pattern,
                message::name_text(message.answers[i].name),
            ) ==> after.answers.contains(message.answers[i])
            &&& 0 <= i < message.authorities.len() && !pattern::pattern_matches(
                pattern,
                message::name_text(message.authorities[i].name),
            ) ==> after.authorities.contains(message.authorities[i])
            &&& 0 <= i < message.additionals.len() && !pattern::pattern_matches(
                pattern,
                message::name_text(message.additionals[i].name),
            ) ==> after.additionals.contains(message.additionals[i])
        }),
{
    let matcher = name_matcher(pattern);
    if 0 <= i < message.queries.len() {
        lemma_query_stays(message.queries, pattern, i);
    }
    if 0 <= i < message.answers.len() {
        other_records_stay(message.answers, matcher, i);
    }
    if 0 <= i < message.authorities.len() {
        other_records_stay(message.authorities, matcher, i);
    }
    if 0 <= i < message.additionals.len() {
        other_records_stay(message.additionals, matcher, i);
    }
}

/// A record that does not match is still there after others were removed.
pub proof fn other_records_stay(records: Seq<RecordView>, matcher: MatcherView, i: int)
    requires
        0 <= i < records.len(),
    ensures
        !super::record_matches(matcher, records[i]) ==> without(records, matcher).contains(
            records[i],
        ),
    decreases records.len(),
{
    if !super::record_matches(matcher, records[i]) {
        let after = without(records, matcher);
        let rest = without(records.drop_last(), matcher);
        if i == records.len() - 1 {
            assert(after[rest.len() as int] == records[i]);
        } else {
            other_records_stay(records.drop_last(), matcher, i);
            let k = choose|k: int| 0 <= k < rest.len() && rest[k] == records[i];
            assert(after[k] == records[i]);
        }
    }
}

proof fn lemma_query_stays(queries: Seq<QueryView>, pattern: Seq<char>, i: int)
    requires
        0 <= i < queries.len(),
    ensures
        !query_matches(pattern, queries[i]) ==> without_queries(queries, pattern).contains(
            queries[i],
        ),
    decreases queries.len(),
{
    if !query_matches(pattern, queries[i]) {
        let after = without_queries(queries, pattern);
        let rest = without_queries(queries.drop_last(), pattern);
        if i == queries.len() - 1 {
            assert(after[rest.len() as int] == queries[i]);
        } else {
            lemma_query_stays(queries.drop_last(), pattern, i);
            let k = choose|k: int| 0 <= k < rest.len() && rest[k] == queries[i];
            assert(after[k] == queries[i]);
        }
    }
}

/// The transforms let every message go on, without what they remove: the records
/// of its section that match the one, the questions and records with a matching
/// name the other.
pub proof fn the_transforms_remove_what_matches(
    records: RemoveRecords,
    services: RemoveServices,
    message: MessageView,
)
    ensures
        records.outcome(message).verdict == Ok::<bool, Fault>(true),
        records.outcome(message).message == records_removed(
            records.asked_section(),
            records.asked_matcher(),
            message,
        ),
        services.outcome(message).verdict == Ok::<bool, Fault>(true),
        services.outcome(message).message == services_removed(services.asked_pattern(), message),
{
}

} // verus!
