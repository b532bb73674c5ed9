//! Path expressions: which values of a document a condition looks at.
use vstd::prelude::*;

use crate::text::{self, chars_of, text_ends_with};
use crate::value::{self, Json, Value};

verus! {

/// A segment in a path expression.
#[derive(Debug)]
pub enum PathSegment {
    /// A named field, e.g. "message".
    Field(String),
    /// Array wildcard `[*]`: all elements.
    ArrayWildcard,
}

/// What a path segment stands for.
pub enum Step {
    Field(Seq<char>),
    ArrayWildcard,
}

impl View for PathSegment {
    type V = Step;

    open spec fn view(&self) -> Step {
        match self {
            PathSegment::Field(name) => Step::Field(name@),
            PathSegment::ArrayWildcard => Step::ArrayWildcard,
        }
    }
}

/// The steps of a sequence of segments.
pub open spec fn steps(segments: Seq<PathSegment>) -> Seq<Step> {
    segments.map_values(|s: PathSegment| s@)
}

/// The parts of a text between the occurrences of a character.
pub open spec fn split(text: Seq<char>, at: char) -> Seq<Seq<char>>
    decreases text.len(),
{
    if text.len() == 0 {
        seq![Seq::empty()]
    } else {
        let parts = split(text.drop_last(), at);
        if text.last() == at {
            parts.push(Seq::empty())
        } else {
            parts.update(parts.len() - 1, parts.last().push(text.last()))
        }
    }
}

/// The ending that marks all elements of an array.
pub open spec fn wildcard() -> Seq<char> {
    seq!['[', '*', ']']
}

/// The steps of one part of a path: the field that it names, if it names
/// one, and the wildcard, if it ends in one.
pub open spec fn part_steps(part: Seq<char>) -> Seq<Step> {
    if text::finishes_with(part, wildcard()) {
        field_step(part.take(part.len() - 3)).push(Step::ArrayWildcard)
    } else {
        field_step(part)
    }
}

/// The step to a field. An empty name is no step.
pub open spec fn field_step(name: Seq<char>) -> Seq<Step> {
    if name.len() == 0 {
        Seq::empty()
    } else {
        seq![Step::Field(name)]
    }
}

/// The steps of a path, part by part.
pub open spec fn path_steps(path: Seq<char>) -> Seq<Step> {
    parts_steps(split(path, '.'))
}

/// The steps of the parts of a path.
pub open spec fn parts_steps(parts: Seq<Seq<char>>) -> Seq<Step>
    decreases parts.len(),
{
    if parts.len() == 0 {
        Seq::empty()
    } else {
        parts_steps(parts.drop_last()) + part_steps(parts.last())
    }
}

/// The values that one step leads to.
pub open spec fn step_into(value: Json, step: Step) -> Seq<Json> {
    match step {
        Step::Field(name) => match value {
            Json::Object(fields) => match value::field(fields, name) {
                Some(child) => seq![child],
                None => Seq::empty(),
            },
            _ => Seq::empty(),
        },
        Step::ArrayWildcard => match value {
            Json::Array(items) => items,
            _ => Seq::empty(),
        },
    }
}

/// The values that one step leads to from each of some values, in order.
pub open spec fn step_from_each(values: Seq<Json>, step: Step) -> Seq<Json>
    decreases values.len(),
{
    if values.len() == 0 {
        Seq::empty()
    } else {
        step_from_each(values.drop_last(), step) + step_into(values.last(), step)
    }
}

/// The values that a path leads to: those that its last step leads to from
/// the values that the steps before it lead to.
pub open spec fn resolved(value: Json, path: Seq<Step>) -> Seq<Json>
    decreases path.len(),
{
    if path.len() == 0 {
        seq![value]
    } else {
        step_from_each(resolved(value, path.drop_last()), path.last())
    }
}

/// Adds the segments of one part of a path.
fn push_part(segments: &mut Vec<PathSegment>, part: &str)
    ensures
        steps(final(segments)@) == steps(old(segments)@) + part_steps(part@),
{
    let ghost before = segments@;
    proof {
        reveal_strlit("[*]");
        assert("[*]"@ =~= wildcard());
    }
    let length: usize = part.unicode_len();
    if text_ends_with(part, "[*]") {
        let name = part.substring_char(0, length - 3);
        proof {
            assert(name@ =~= part@.take(part@.len() - 3));
        }
        if length > 3 {
            segments.push(PathSegment::Field(name.to_owned()));
        }
        segments.push(PathSegment::ArrayWildcard);
        assert(steps(segments@) =~= steps(before) + part_steps(part@));
    } else {
        if length > 0 {
            segments.push(PathSegment::Field(part.to_owned()));
        }
        assert(steps(segments@) =~= steps(before) + part_steps(part@));
    }
}

/// Parse a dot-notation path like "message.questions[*].name" into segments.
pub fn parse_path(path: &str) -> (r: Vec<PathSegment>)
    ensures
        steps(r@) == path_steps(path@),
{
    let chars = chars_of(path);
    let mut segments: Vec<PathSegment> = Vec::new();
    let mut start: usize = 0;
    let mut i: usize = 0;
    let ghost mut done: Seq<Seq<char>> = Seq::empty();
    proof {
        assert(steps(segments@) =~= parts_steps(done));
        assert(chars@.subrange(0, 0) =~= Seq::<char>::empty());
        assert(done.push(chars@.subrange(0, 0)) =~= split(chars@.take(0), '.'));
    }
    while i < chars.len()
        invariant
            chars@ == path@,
            start <= i <= chars@.len(),
            split(chars@.take(i as int), '.') == done.push(chars@.subrange(start as int, i as int)),
            steps(segments@) == parts_steps(done),
        decreases chars@.len() - i,
    {
        proof {
            let next = chars@.take(i + 1);
            assert(next.drop_last() =~= chars@.take(i as int));
            assert(next.last() == chars@[i as int]);
        }
        if chars[i] == '.' {
            let part = path.substring_char(start, i);
            push_part(&mut segments, part);
            proof {
                let parts = done.push(part@);
                assert(parts.drop_last() =~= done);
                assert(chars@.subrange(i + 1, i + 1) =~= Seq::<char>::empty());
                done = parts;
            }
            start = i + 1;
        } else {
            proof {
                let parts = done.push(chars@.subrange(start as int, i as int));
                assert(chars@.subrange(start as int, i as int).push(chars@[i as int])
                    =~= chars@.subrange(start as int, i + 1));
                assert(parts.update(parts.len() - 1, chars@.subrange(start as int, i + 1))
                    =~= done.push(chars@.subrange(start as int, i + 1)));
            }
        }
        i += 1;
    }
    let part = path.substring_char(start, i);
    push_part(&mut segments, part);
    proof {
        assert(done.push(part@).drop_last() =~= done);
        assert(chars@.take(i as int) =~= path@);
    }
    segments
}

/// Every field of a path has a name, and none with a dot in it.
pub proof fn path_fields_are_named(path: Seq<char>)
    ensures
        forall|i: int|
            0 <= i < path_steps(path).len() ==> match #[trigger] path_steps(path)[i] {
                Step::Field(name) => name.len() > 0 && !name.contains('.'),
                Step::ArrayWildcard => true,
            },
{
    lemma_split_parts(path, '.');
    lemma_parts_steps(split(path, '.'));
}

/// No part of a split text holds the character at which it was split.
proof fn lemma_split_parts(text: Seq<char>, at: char)
    ensures
        split(text, at).len() > 0,
        forall|i: int| 0 <= i < split(text, at).len() ==> !(#[trigger] split(text, at)[i]).contains(at),
    decreases text.len(),
{
    if text.len() > 0 {
        lemma_split_parts(text.drop_last(), at);
        let parts = split(text.drop_last(), at);
        if text.last() != at {
            let last = parts.last().push(text.last());
            assert(!parts[parts.len() - 1].contains(at));
            assert forall|k: int| 0 <= k < last.len() implies last[k] != at by {
                if k < last.len() - 1 {
                    assert(last[k] == parts.last()[k]);
                    assert(parts.last().contains(last[k]));
                }
            }
        }
    }
}

proof fn lemma_parts_steps(parts: Seq<Seq<char>>)
    requires
        forall|i: int| 0 <= i < parts.len() ==> !(#[trigger] parts[i]).contains('.'),
    ensures
        forall|i: int|
            0 <= i < parts_steps(parts).len() ==> match #[trigger] parts_steps(parts)[i] {
                Step::Field(name) => name.len() > 0 && !name.contains('.'),
                Step::ArrayWildcard => true,
            },
    decreases parts.len(),
{
    if parts.len() > 0 {
        let init = parts.drop_last();
        assert forall|i: int| 0 <= i < init.len() implies !(#[trigger] init[i]).contains('.') by {
            assert(init[i] == parts[i]);
        }
        lemma_parts_steps(init);
        let part = parts.last();
        assert(!parts[parts.len() - 1].contains('.'));
        let stem = part.take(part.len() - 3);
        assert(part.len() >= 3 ==> !stem.contains('.')) by {
            if part.len() >= 3 && stem.contains('.') {
                let k = choose|k: int| 0 <= k < stem.len() && stem[k] == '.';
                assert(part[k] == '.');
            }
        }
    }
}

/// Text without the character at which it is split goes to the last part.
proof fn lemma_split_grows(text: Seq<char>, more: Seq<char>, at: char)
    requires
        !more.contains(at),
    ensures
        split(text, at).len() > 0,
        split(text + more, at) == split(text, at).update(
            split(text, at).len() - 1,
            split(text, at).last() + more,
        ),
    decreases more.len(),
{
    lemma_split_parts(text, at);
    let parts = split(text, at);
    if more.len() == 0 {
        assert(text + more =~= text);
        assert(parts.last() + more =~= parts.last());
        assert(parts.update(parts.len() - 1, parts.last()) =~= parts);
    } else {
        let init = more.drop_last();
        assert(more.contains(more.last()));
        assert forall|c: char| init.contains(c) implies more.contains(c) by {
            let i = choose|i: int| 0 <= i < init.len() && init[i] == c;
            assert(more[i] == c);
        }
        lemma_split_grows(text, init, at);
        assert((text + more).drop_last() =~= text + init);
        assert((parts.last() + init).push(more.last()) =~= parts.last() + more);
        let before = split(text + init, at);
        assert(before.update(before.len() - 1, parts.last() + more) =~= parts.update(
            parts.len() - 1,
            parts.last() + more,
        ));
    }
}

/// A path is its parts with dots between them: its steps are the steps of one
/// part after the other.
pub proof fn paths_are_their_parts(parts: Seq<Seq<char>>)
    requires
        parts.len() > 0,
        forall|i: int| 0 <= i < parts.len() ==> !(#[trigger] parts[i]).contains('.'),
    ensures
        split(text::joined(parts, "."@), '.') == parts,
        path_steps(text::joined(parts, "."@)) == parts_steps(parts),
    decreases parts.len(),
{
    reveal_strlit(".");
    let last = parts.last();
    assert(!parts[parts.len() - 1].contains('.'));
    if parts.len() == 1 {
        let none = Seq::<char>::empty();
        lemma_split_grows(none, last, '.');
        assert(none + last =~= last);
        assert(split(last, '.') =~= parts);
    } else {
        let init = parts.drop_last();
        assert forall|i: int| 0 <= i < init.len() implies !(#[trigger] init[i]).contains('.') by {
            assert(init[i] == parts[i]);
        }
        paths_are_their_parts(init);
        let before = text::joined(init, "."@);
        let dotted = before + "."@;
        assert(dotted.drop_last() =~= before);
        assert(dotted.last() == '.');
        assert(split(dotted, '.') == init.push(Seq::empty()));
        lemma_split_grows(dotted, last, '.');
        assert(Seq::<char>::empty() + last =~= last);
        assert(split(dotted + last, '.') =~= parts);
    }
}

/// Resolve a path expression against a JSON value.
/// Returns all values matching the path (multiple for array wildcards).
pub fn resolve<'a>(value: &'a Value, segments: &[PathSegment]) -> (r: Vec<&'a Value>)
    ensures
        jsons(r@) == resolved(value@, steps(segments@)),
{
    let mut current: Vec<&'a Value> = Vec::new();
    current.push(value);
    let ghost path = steps(segments@);
    let mut i: usize = 0;
    proof {
        assert(jsons(current@) =~= seq![value@]);
    }
    while i < segments.len()
        invariant
            i <= segments@.len(),
            path == steps(segments@),
            jsons(current@) == resolved(value@, path.take(i as int)),
        decreases segments@.len() - i,
    {
        let ghost from = jsons(current@);
        let ghost step = path[i as int];
        let mut next: Vec<&'a Value> = Vec::new();
        let mut j: usize = 0;
        proof {
            assert(jsons(next@) =~= step_from_each(from.take(0), step));
        }
        while j < current.len()
            invariant
                i < segments@.len(),
                segments@[i as int]@ == step,
                j <= current@.len(),
                from == jsons(current@),
                jsons(next@) == step_from_each(from.take(j as int), step),
            decreases current@.len() - j,
        {
            let ghost before = next@;
            let at: &'a Value = current[j];
            match &segments[i] {
                PathSegment::Field(name) => {
                    if let Some(child) = at.get(name.as_str()) {
                        next.push(child);
                    }
                    assert(jsons(next@) =~= jsons(before) + step_into(at@, step));
                },
                PathSegment::ArrayWildcard => {
                    if let Some(items) = at.as_array() {
                        let mut k: usize = 0;
                        proof {
                            assert(jsons(next@) =~= jsons(before) + at@->Array_0.take(0));
                        }
                        while k < items.len()
                            invariant
                                k <= items@.len(),
                                at@ is Array,
                                items@.len() == at@->Array_0.len(),
                                forall|m: int|
                                    0 <= m < items@.len() ==> (#[trigger] items@[m])@
                                        == at@->Array_0[m],
                                jsons(next@) == jsons(before) + at@->Array_0.take(k as int),
                            decreases items@.len() - k,
                        {
                            let ghost so_far = next@;
                            next.push(&items[k]);
                            proof {
                                assert(jsons(next@) =~= jsons(so_far).push(items@[k as int]@));
                                assert(at@->Array_0.take(k + 1) =~= at@->Array_0.take(
                                    k as int,
                                ).push(at@->Array_0[k as int]));
                            }
                            k += 1;
                        }
                        assert(at@->Array_0.take(k as int) =~= at@->Array_0);
                    } else {
                        assert(jsons(next@) =~= jsons(before) + step_into(at@, step));
                    }
                },
            }
            proof {
                assert(from.take(j + 1).drop_last() =~= from.take(j as int));
                assert(from.take(j + 1).last() == at@);
            }
            j += 1;
        }
        current = next;
        proof {
            assert(from.take(j as int) =~= from);
            assert(path.take(i + 1).drop_last() =~= path.take(i as int));
            assert(path.take(i + 1).last() == step);
        }
        i += 1;
    }
    proof {
        assert(path.take(i as int) =~= path);
    }
    current
}

/// What a sequence of values holds.
pub open spec fn jsons(values: Seq<&Value>) -> Seq<Json> {
    values.map_values(|v: &Value| v@)
}

/// A part of a path that is a name is the step to that field, with `[*]` behind
/// it followed by the step to all elements. `[*]` alone is the latter, and
/// nothing is no step.
pub proof fn parts_name_fields_and_wildcards(name: Seq<char>)
    requires
        name.len() > 0,
    ensures
        !text::finishes_with(name, seq!['[', '*', ']']) ==> part_steps(name) == seq![
            Step::Field(name),
        ],
        part_steps(name + seq!['[', '*', ']']) == seq![Step::Field(name), Step::ArrayWildcard],
        part_steps(seq!['[', '*', ']']) == seq![Step::ArrayWildcard],
        part_steps(Seq::empty()) == Seq::<Step>::empty(),
{
    let mark = seq!['[', '*', ']'];
    let both = name + mark;
    assert(both.subrange(both.len() - 3, both.len() as int) =~= mark);
    assert(both.take(both.len() - 3) =~= name);
    assert(mark.subrange(0, 3) =~= mark);
    assert(mark.take(0) =~= Seq::<char>::empty());
    assert(part_steps(both) =~= seq![Step::Field(name), Step::ArrayWildcard]);
    assert(part_steps(mark) =~= seq![Step::ArrayWildcard]);
}

/// A path with a dot in it takes the steps of what is before the dot, followed by
/// those of what is behind it.
pub proof fn dots_separate_steps(first: Seq<char>, part: Seq<char>)
    requires
        !part.contains('.'),
    ensures
        path_steps(first + seq!['.'] + part) == path_steps(first) + part_steps(part),
        path_steps(part) == part_steps(part),
{
    let dotted = first + seq!['.'];
    assert(dotted.drop_last() =~= first);
    assert(dotted.last() == '.');
    lemma_split_parts(first, '.');
    lemma_split_grows(dotted, part, '.');
    assert(split(dotted, '.') == split(first, '.').push(Seq::empty()));
    assert(Seq::<char>::empty() + part =~= part);
    let parts = split(first, '.').push(part);
    assert(split(dotted + part, '.') =~= parts);
    assert(parts.drop_last() =~= split(first, '.'));

    let none = Seq::<char>::empty();
    lemma_split_grows(none, part, '.');
    assert(none + part =~= part);
    assert(split(part, '.') =~= seq![part]);
    assert(seq![part].drop_last() =~= Seq::<Seq<char>>::empty());
    assert(parts_steps(Seq::empty()) =~= Seq::<Step>::empty());
    assert(parts_steps(seq![part]) =~= part_steps(part));
}

/// The step to a field leads from an object to what stands there under the name,
/// and from nothing else anywhere.
pub proof fn field_steps_lead_to_fields(value: Json, name: Seq<char>)
    ensures
        match value {
            Json::Object(fields) => match value::field(fields, name) {
                Some(child) => resolved(value, seq![Step::Field(name)]) == seq![child],
                None => resolved(value, seq![Step::Field(name)]).len() == 0,
            },
            _ => resolved(value, seq![Step::Field(name)]).len() == 0,
        },
{
    lemma_single_step(value, Step::Field(name));
}

/// The step to all elements leads from an array to its elements, in order, and
/// from nothing else anywhere.
pub proof fn wildcards_lead_to_elements(value: Json)
    ensures
        match value {
            Json::Array(items) => resolved(value, seq![Step::ArrayWildcard]) == items,
            _ => resolved(value, seq![Step::ArrayWildcard]).len() == 0,
        },
{
    lemma_single_step(value, Step::ArrayWildcard);
}

proof fn lemma_single_step(value: Json, step: Step)
    ensures
        resolved(value, seq![step]) == step_into(value, step),
{
    let none = Seq::<Step>::empty();
    assert(seq![step].drop_last() =~= none);
    assert(resolved(value, none) =~= seq![value]);
    assert(seq![value].drop_last() =~= Seq::<Json>::empty());
    assert(step_from_each(Seq::empty(), step) =~= Seq::<Json>::empty());
    assert(step_from_each(seq![value], step) =~= step_into(value, step));
}

/// A path without steps leads to the value itself.
pub proof fn no_steps_stay(value: Json)
    ensures
        resolved(value, Seq::empty()) == seq![value],
{
}

/// One step more leads to what that step leads to from each of the values found
/// so far, and to nothing else.
pub proof fn one_more_step_from_each(value: Json, path: Seq<Step>, step: Step, found: Json)
    ensures
        resolved(value, path.push(step)).contains(found) <==> exists|i: int|
            0 <= i < resolved(value, path).len() && resolved(
                #[trigger] resolved(value, path)[i],
                seq![step],
            ).contains(found),
{
    let from = resolved(value, path);
    assert(path.push(step).drop_last() =~= path);
    lemma_found_from_each(from, step, found);
    assert forall|i: int| 0 <= i < from.len() implies resolved(#[trigger] from[i], seq![step])
        == step_into(from[i], step) by {
        lemma_single_step(from[i], step);
    }
    if exists|i: int| 0 <= i < from.len() && step_into(#[trigger] from[i], step).contains(found) {
        let i = choose|i: int| 0 <= i < from.len() && step_into(#[trigger] from[i], step).contains(found);
        assert(resolved(from[i], seq![step]).contains(found));
    }
    if exists|i: int| 0 <= i < from.len() && resolved(#[trigger] from[i], seq![step]).contains(found) {
        let i = choose|i: int|
            0 <= i < from.len() && resolved(#[trigger] from[i], seq![step]).contains(found);
        assert(step_into(from[i], step).contains(found));
    }
}

proof fn lemma_found_from_each(from: Seq<Json>, step: Step, found: Json)
    ensures
        step_from_each(from, step).contains(found) <==> exists|i: int|
            0 <= i < from.len() && step_into(#[trigger] from[i], step).contains(found),
    decreases from.len(),
{
    let all = step_from_each(from, step);
    if from.len() > 0 {
        let init = from.drop_last();
        let before = step_from_each(init, step);
        let last = step_into(from.last(), step);
        lemma_found_from_each(init, step, found);
        assert(from[from.len() - 1] == from.last());
        if all.contains(found) {
            let k = choose|k: int| 0 <= k < all.len() && all[k] == found;
            if k < before.len() {
                assert(before[k] == found);
                let i = choose|i: int|
                    0 <= i < init.len() && step_into(#[trigger] init[i], step).contains(found);
                assert(step_into(from[i], step).contains(found));
            } else {
                assert(last[k - before.len()] == found);
                assert(step_into(from[from.len() - 1], step).contains(found));
            }
        }
        if exists|i: int| 0 <= i < from.len() && step_into(#[trigger] from[i], step).contains(found) {
            let i = choose|i: int|
                0 <= i < from.len() && step_into(#[trigger] from[i], step).contains(found);
            if i < init.len() {
                assert(step_into(init[i], step).contains(found));
                let k = choose|k: int| 0 <= k < before.len() && before[k] == found;
                assert(all[k] == found);
            } else {
                let k = choose|k: int| 0 <= k < last.len() && last[k] == found;
                assert(all[before.len() + k] == found);
            }
        }
    }
}

/// A segment stands for the field that it names, or for all elements.
pub proof fn segments_stand_for_their_step(segments: Seq<PathSegment>, i: int)
    requires
        0 <= i < segments.len(),
    ensures
        steps(segments).len() == segments.len(),
        segments[i] matches PathSegment::Field(name) ==> steps(segments)[i] == Step::Field(name@),
        segments[i] is ArrayWildcard ==> steps(segments)[i] is ArrayWildcard,
{
}

} // verus!
