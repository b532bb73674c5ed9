//! Operators of filter conditions.
use vstd::prelude::*;
use vstd::slice::slice_subrange;

use crate::number;
use crate::pattern::{self, Pattern};
use crate::text::{self, chars_of, text_contains, text_ends_with, text_starts_with};
use crate::value::{Json, Value};

verus! {

/// Operator for comparing a resolved value against an expected value.
#[derive(Debug, Clone, Copy)]
pub enum Op {
    Eq,
    Ne,
    Contains,
    Icontains,
    StartsWith,
    EndsWith,
    Regex,
    Glob,
    Gt,
    Gte,
    Lt,
    Lte,
    In,
    Exists,
}

/// A text in lower case, by the mapping of Unicode.
pub uninterp spec fn lowercase(text: Seq<char>) -> Seq<char>;

/// `str::to_lowercase`: the lower case equivalent of a string, which depends
/// on its characters alone.
#[verifier::external_body]
fn to_lowercase(text: &str) -> (r: String)
    ensures
        r@ == lowercase(text@),
{
    text.to_lowercase()
}

/// Whether a text matches a glob: `*` stands for any characters, `?` for a
/// single one, every other character for itself.
pub open spec fn glob_matches(pattern: Seq<char>, text: Seq<char>) -> bool
    decreases pattern.len(),
{
    if pattern.len() == 0 {
        text.len() == 0
    } else if pattern[0] == '*' {
        exists|n: int|
            0 <= n <= text.len() && glob_matches(pattern.drop_first(), #[trigger] text.skip(n))
    } else {
        &&& text.len() > 0
        &&& pattern[0] == '?' || pattern[0] == text[0]
        &&& glob_matches(pattern.drop_first(), text.drop_first())
    }
}

/// Whether an operator holds between a resolved value and an expected one.
/// An operator on texts holds of texts only, one on numbers of numbers only.
pub open spec fn holds(op: Op, resolved: Json, expected: Json) -> bool {
    match op {
        Op::Eq => resolved == expected,
        Op::Ne => resolved != expected,
        Op::Contains => match (resolved, expected) {
            (Json::String(s), Json::String(part)) => text::contains_text(s, part),
            _ => false,
        },
        Op::Icontains => match (resolved, expected) {
            (Json::String(s), Json::String(part)) => text::contains_text(
                lowercase(s),
                lowercase(part),
            ),
            _ => false,
        },
        Op::StartsWith => match (resolved, expected) {
            (Json::String(s), Json::String(part)) => text::begins_with(s, part),
            _ => false,
        },
        Op::EndsWith => match (resolved, expected) {
            (Json::String(s), Json::String(part)) => text::finishes_with(s, part),
            _ => false,
        },
        Op::Regex => match (resolved, expected) {
            (Json::String(s), Json::String(source)) => pattern::pattern_error(source) is None
                && pattern::pattern_matches(source, s),
            _ => false,
        },
        Op::Glob => match (resolved, expected) {
            (Json::String(s), Json::String(glob)) => glob_matches(glob, s),
            _ => false,
        },
        Op::Gt => match (resolved, expected) {
            (Json::Number(a), Json::Number(b)) => number::num_value(a) > number::num_value(b),
            _ => false,
        },
        Op::Gte => match (resolved, expected) {
            (Json::Number(a), Json::Number(b)) => number::num_value(a) >= number::num_value(b),
            _ => false,
        },
        Op::Lt => match (resolved, expected) {
            (Json::Number(a), Json::Number(b)) => number::num_value(a) < number::num_value(b),
            _ => false,
        },
        Op::Lte => match (resolved, expected) {
            (Json::Number(a), Json::Number(b)) => number::num_value(a) <= number::num_value(b),
            _ => false,
        },
        Op::In => match expected {
            Json::Array(items) => items.contains(resolved),
            _ => false,
        },
        Op::Exists => match expected {
            Json::Bool(wanted) => wanted == (resolved != Json::Null),
            _ => false,
        },
    }
}

/// Evaluate an operator against a resolved JSON value and an expected value.
pub fn evaluate(op: &Op, resolved: &Value, expected: &Value) -> (r: bool)
    ensures
        r == holds(*op, resolved@, expected@),
{
    match op {
        Op::Eq => resolved.equals(expected),
        Op::Ne => !resolved.equals(expected),
        Op::Contains => match (resolved.as_str(), expected.as_str()) {
            (Some(s), Some(part)) => text_contains(s, part),
            _ => false,
        },
        Op::Icontains => match (resolved.as_str(), expected.as_str()) {
            (Some(s), Some(part)) => {
                let (s, part) = (to_lowercase(s), to_lowercase(part));
                text_contains(s.as_str(), part.as_str())
            },
            _ => false,
        },
        Op::StartsWith => match (resolved.as_str(), expected.as_str()) {
            (Some(s), Some(part)) => text_starts_with(s, part),
            _ => false,
        },
        Op::EndsWith => match (resolved.as_str(), expected.as_str()) {
            (Some(s), Some(part)) => text_ends_with(s, part),
            _ => false,
        },
        Op::Regex => match (resolved.as_str(), expected.as_str()) {
            (Some(s), Some(source)) => match Pattern::compile(source) {
                Ok(pattern) => pattern.matches(s),
                Err(_) => false,
            },
            _ => false,
        },
        Op::Glob => match (resolved.as_str(), expected.as_str()) {
            (Some(s), Some(glob)) => glob_match(glob, s),
            _ => false,
        },
        Op::Gt => match (resolved, expected) {
            (Value::Number(a), Value::Number(b)) => b.less(a),
            _ => false,
        },
        Op::Gte => match (resolved, expected) {
            (Value::Number(a), Value::Number(b)) => !a.less(b),
            _ => false,
        },
        Op::Lt => match (resolved, expected) {
            (Value::Number(a), Value::Number(b)) => a.less(b),
            _ => false,
        },
        Op::Lte => match (resolved, expected) {
            (Value::Number(a), Value::Number(b)) => !b.less(a),
            _ => false,
        },
        Op::In => match expected.as_array() {
            Some(items) => {
                let found = is_among(resolved, items);
                proof {
                    let all = expected@->Array_0;
                    if all.contains(resolved@) {
                        let i = choose|i: int| 0 <= i < all.len() && all[i] == resolved@;
                        assert(items@[i]@ == resolved@);
                    }
                    if found {
                        let i = choose|i: int|
                            0 <= i < items@.len() && (#[trigger] items@[i])@ == resolved@;
                        assert(all[i] == resolved@);
                    }
                }
                found
            },
            None => false,
        },
        Op::Exists => match expected.as_bool() {
            Some(wanted) => wanted != resolved.is_null(),
            None => false,
        },
    }
}

/// Whether a value is one of the items.
fn is_among(value: &Value, items: &Vec<Value>) -> (r: bool)
    ensures
        r == exists|i: int| 0 <= i < items@.len() && (#[trigger] items@[i])@ == value@,
{
    let mut i: usize = 0;
    while i < items.len()
        invariant
            i <= items@.len(),
            forall|j: int| 0 <= j < i ==> (#[trigger] items@[j])@ != value@,
        decreases items@.len() - i,
    {
        if items[i].equals(value) {
            return true;
        }
        i += 1;
    }
    false
}

/// Simple glob matching: supports * (any chars) and ? (single char).
pub fn glob_match(pattern: &str, text: &str) -> (r: bool)
    ensures
        r == glob_matches(pattern@, text@),
{
    let pat = chars_of(pattern);
    let txt = chars_of(text);
    glob_match_inner(pat.as_slice(), txt.as_slice())
}

/// A star matches as much as the rest of the pattern leaves to it: nothing,
/// or one character and as much again.
proof fn lemma_star(pattern: Seq<char>, text: Seq<char>)
    requires
        pattern.len() > 0,
        pattern[0] == '*',
    ensures
        glob_matches(pattern, text) == (glob_matches(pattern.drop_first(), text) || (text.len() > 0
            && glob_matches(pattern, text.drop_first()))),
{
    let rest = pattern.drop_first();
    assert(text.skip(0) =~= text);
    if glob_matches(pattern, text) {
        let n = choose|n: int|
            0 <= n <= text.len() && glob_matches(rest, #[trigger] text.skip(n));
        if n > 0 {
            assert(text.drop_first().skip(n - 1) =~= text.skip(n));
        }
    }
    if text.len() > 0 && glob_matches(pattern, text.drop_first()) {
        let tail = text.drop_first();
        let n = choose|n: int|
            0 <= n <= tail.len() && glob_matches(rest, #[trigger] tail.skip(n));
        assert(text.skip(n + 1) =~= tail.skip(n));
    }
}

/// Glob matching on characters.
pub fn glob_match_inner(pat: &[char], txt: &[char]) -> (r: bool)
    ensures
        r == glob_matches(pat@, txt@),
    decreases pat@.len() + txt@.len(),
{
    if pat.len() == 0 {
        return txt.len() == 0;
    }
    let rest = slice_subrange(pat, 1, pat.len());
    assert(rest@ =~= pat@.drop_first());
    if pat[0] == '*' {
        proof {
            lemma_star(pat@, txt@);
        }
        // Try matching the rest of the pattern with the current text, or skip one character.
        if glob_match_inner(rest, txt) {
            return true;
        }
        if txt.len() == 0 {
            return false;
        }
        let tail = slice_subrange(txt, 1, txt.len());
        assert(tail@ =~= txt@.drop_first());
        glob_match_inner(pat, tail)
    } else {
        if txt.len() == 0 || (pat[0] != '?' && pat[0] != txt[0]) {
            return false;
        }
        let tail = slice_subrange(txt, 1, txt.len());
        assert(tail@ =~= txt@.drop_first());
        glob_match_inner(rest, tail)
    }
}

/// `ne` holds exactly where `eq` does not.
pub proof fn ne_is_not_eq(resolved: Json, expected: Json)
    ensures
        holds(Op::Ne, resolved, expected) == !holds(Op::Eq, resolved, expected),
{
}

/// Between numbers, `gte` holds exactly where `lt` does not, and `lte`
/// exactly where `gt` does not.
pub proof fn comparisons_are_opposite(a: number::NumberView, b: number::NumberView)
    ensures
        holds(Op::Gte, Json::Number(a), Json::Number(b)) == !holds(
            Op::Lt,
            Json::Number(a),
            Json::Number(b),
        ),
        holds(Op::Lte, Json::Number(a), Json::Number(b)) == !holds(
            Op::Gt,
            Json::Number(a),
            Json::Number(b),
        ),
{
}

/// A text that begins or ends with another contains it.
pub proof fn edges_are_contained(resolved: Json, expected: Json)
    ensures
        holds(Op::StartsWith, resolved, expected) ==> holds(Op::Contains, resolved, expected),
        holds(Op::EndsWith, resolved, expected) ==> holds(Op::Contains, resolved, expected),
{
}

/// A glob that is a single star matches every text.
pub proof fn star_matches_everything(text: Seq<char>)
    ensures
        glob_matches(seq!['*'], text),
{
    assert(seq!['*'].drop_first() =~= Seq::<char>::empty());
    assert(glob_matches(Seq::empty(), text.skip(text.len() as int)));
}

/// A glob without `*` and `?` matches its own text and no other.
pub proof fn plain_glob_matches_itself(pattern: Seq<char>, text: Seq<char>)
    requires
        !pattern.contains('*'),
        !pattern.contains('?'),
    ensures
        glob_matches(pattern, text) == (pattern == text),
    decreases pattern.len(),
{
    if pattern.len() == 0 {
        assert(text.len() == 0 ==> text =~= pattern);
    } else {
        let rest = pattern.drop_first();
        assert(pattern.contains(pattern[0]));
        assert forall|c: char| rest.contains(c) implies pattern.contains(c) by {
            let i = choose|i: int| 0 <= i < rest.len() && rest[i] == c;
            assert(pattern[i + 1] == c);
        }
        if text.len() > 0 {
            plain_glob_matches_itself(rest, text.drop_first());
            assert(pattern =~= seq![pattern[0]] + rest);
            assert(text =~= seq![text[0]] + text.drop_first());
        }
    }
}

/// `eq` holds of a value and itself, and of no two values that differ.
pub proof fn eq_is_equality(a: Json, b: Json)
    ensures
        holds(Op::Eq, a, a),
        a != b ==> !holds(Op::Eq, a, b),
{
}

/// `contains` holds of every text with the part somewhere in it, and only there.
pub proof fn contains_finds_parts(
    before: Seq<char>,
    part: Seq<char>,
    after: Seq<char>,
    s: Seq<char>,
)
    ensures
        holds(Op::Contains, Json::String(before + part + after), Json::String(part)),
        holds(Op::Contains, Json::String(s), Json::String(part)) ==> exists|i: int, j: int|
            0 <= i <= j <= s.len() && #[trigger] s.subrange(i, j) == part,
{
    text::framed_text_is_contained(before, part, after);
    if holds(Op::Contains, Json::String(s), Json::String(part)) {
        let at = choose|at: int| text::occurs_at(s, part, at);
        assert(s.subrange(at, at + part.len()) == part);
    }
}

/// `icontains` holds exactly where `contains` holds of both texts in lower case.
pub proof fn icontains_ignores_case(s: Seq<char>, part: Seq<char>)
    ensures
        holds(Op::Icontains, Json::String(s), Json::String(part)) == holds(
            Op::Contains,
            Json::String(lowercase(s)),
            Json::String(lowercase(part)),
        ),
{
}

/// `starts_with` holds of every text that is the part followed by something, and
/// only of such.
pub proof fn starts_with_finds_beginnings(part: Seq<char>, after: Seq<char>, s: Seq<char>)
    ensures
        holds(Op::StartsWith, Json::String(part + after), Json::String(part)),
        holds(Op::StartsWith, Json::String(s), Json::String(part)) ==> s.len() >= part.len()
            && s.take(part.len() as int) == part,
{
    assert((part + after).subrange(0, part.len() as int) =~= part);
    if holds(Op::StartsWith, Json::String(s), Json::String(part)) {
        assert(s.subrange(0, part.len() as int) =~= s.take(part.len() as int));
    }
}

/// `ends_with` holds of every text that is something followed by the part, and
/// only of such.
pub proof fn ends_with_finds_endings(before: Seq<char>, part: Seq<char>, s: Seq<char>)
    ensures
        holds(Op::EndsWith, Json::String(before + part), Json::String(part)),
        holds(Op::EndsWith, Json::String(s), Json::String(part)) ==> s.len() >= part.len()
            && s.skip(s.len() - part.len()) == part,
{
    let whole = before + part;
    assert(whole.subrange(whole.len() - part.len(), whole.len() as int) =~= part);
    if holds(Op::EndsWith, Json::String(s), Json::String(part)) {
        assert(s.subrange(s.len() - part.len(), s.len() as int) =~= s.skip(s.len() - part.len()));
    }
}

/// `regex` holds of the texts in which an expression that compiles matches, and
/// of none where it does not compile.
pub proof fn regex_asks_the_expression(s: Seq<char>, source: Seq<char>)
    ensures
        pattern::pattern_error(source) is None ==> holds(
            Op::Regex,
            Json::String(s),
            Json::String(source),
        ) == pattern::pattern_matches(source, s),
        pattern::pattern_error(source) is Some ==> !holds(
            Op::Regex,
            Json::String(s),
            Json::String(source),
        ),
{
}

/// `glob` holds of the texts that the glob matches.
pub proof fn glob_asks_the_glob(s: Seq<char>, glob: Seq<char>)
    ensures
        holds(Op::Glob, Json::String(s), Json::String(glob)) == glob_matches(glob, s),
{
}

/// A glob of two parts matches a text of two parts that they match.
pub proof fn globs_match_part_by_part(
    first: Seq<char>,
    second: Seq<char>,
    a: Seq<char>,
    b: Seq<char>,
)
    requires
        glob_matches(first, a),
        glob_matches(second, b),
    ensures
        glob_matches(first + second, a + b),
    decreases first.len(),
{
    let pattern = first + second;
    let text = a + b;
    if first.len() == 0 {
        assert(pattern =~= second);
        assert(text =~= b);
    } else {
        assert(pattern.drop_first() =~= first.drop_first() + second);
        if first[0] == '*' {
            let n = choose|n: int|
                0 <= n <= a.len() && glob_matches(first.drop_first(), #[trigger] a.skip(n));
            globs_match_part_by_part(first.drop_first(), second, a.skip(n), b);
            assert(text.skip(n) =~= a.skip(n) + b);
        } else {
            globs_match_part_by_part(first.drop_first(), second, a.drop_first(), b);
            assert(text.drop_first() =~= a.drop_first() + b);
        }
    }
}

/// What a glob of two parts matches is made of two parts that they match.
pub proof fn glob_matches_fall_apart(first: Seq<char>, second: Seq<char>, text: Seq<char>) -> (n: int)
    requires
        glob_matches(first + second, text),
    ensures
        0 <= n <= text.len(),
        glob_matches(first, text.take(n)),
        glob_matches(second, text.skip(n)),
    decreases first.len(),
{
    let pattern = first + second;
    if first.len() == 0 {
        assert(pattern =~= second);
        assert(text.skip(0) =~= text);
        0
    } else {
        let rest = first.drop_first();
        assert(pattern.drop_first() =~= rest + second);
        if first[0] == '*' {
            let skipped = choose|k: int|
                0 <= k <= text.len() && glob_matches(
                    pattern.drop_first(),
                    #[trigger] text.skip(k),
                );
            let m = glob_matches_fall_apart(rest, second, text.skip(skipped));
            let n = skipped + m;
            assert(text.take(n).skip(skipped) =~= text.skip(skipped).take(m));
            assert(text.skip(n) =~= text.skip(skipped).skip(m));
            n
        } else {
            let m = glob_matches_fall_apart(rest, second, text.drop_first());
            assert(text.take(m + 1).drop_first() =~= text.drop_first().take(m));
            assert(text.skip(m + 1) =~= text.drop_first().skip(m));
            m + 1
        }
    }
}

/// A glob that is a single question mark matches the texts of one character.
pub proof fn question_mark_matches_one_character(text: Seq<char>)
    ensures
        glob_matches(seq!['?'], text) == (text.len() == 1),
{
    assert(seq!['?'].drop_first() =~= Seq::<char>::empty());
    if text.len() > 0 {
        assert(glob_matches(Seq::empty(), text.drop_first()) == (text.drop_first().len() == 0));
    }
}

/// Between integers that a double holds exactly, the comparisons are those of
/// the integers.
pub proof fn exact_integers_compare_as_integers(a: u64, b: u64)
    requires
        a < 0x20_0000_0000_0000,
        b < 0x20_0000_0000_0000,
    ensures
        ({
            let x = Json::Number(number::NumberView::PosInt(a));
            let y = Json::Number(number::NumberView::PosInt(b));
            &&& holds(Op::Gt, x, y) == (a > b)
            &&& holds(Op::Gte, x, y) == (a >= b)
            &&& holds(Op::Lt, x, y) == (a < b)
            &&& holds(Op::Lte, x, y) == (a <= b)
        }),
{
    number::exact_integers_keep_their_order(a as int, b as int);
}

/// The same holds where integers are negative.
pub proof fn exact_negative_integers_compare_as_integers(a: i64, b: i64)
    requires
        -0x20_0000_0000_0000 < a < 0x20_0000_0000_0000,
        -0x20_0000_0000_0000 < b < 0x20_0000_0000_0000,
    ensures
        ({
            let x = Json::Number(number::NumberView::NegInt(a));
            let y = Json::Number(number::NumberView::NegInt(b));
            &&& holds(Op::Gt, x, y) == (a > b)
            &&& holds(Op::Gte, x, y) == (a >= b)
            &&& holds(Op::Lt, x, y) == (a < b)
            &&& holds(Op::Lte, x, y) == (a <= b)
        }),
        b >= 0 ==> ({
            let x = Json::Number(number::NumberView::NegInt(a));
            let y = Json::Number(number::NumberView::PosInt(b as u64));
            &&& holds(Op::Gt, x, y) == (a > b)
            &&& holds(Op::Gte, y, x) == (b >= a)
            &&& holds(Op::Lt, x, y) == (a < b)
            &&& holds(Op::Lte, y, x) == (b <= a)
        }),
{
    number::exact_integers_keep_their_order(a as int, b as int);
}

/// Comparisons with the sides exchanged are the opposite comparisons.
pub proof fn comparisons_turn_round(a: Json, b: Json)
    ensures
        holds(Op::Gt, a, b) == holds(Op::Lt, b, a),
        holds(Op::Gte, a, b) == holds(Op::Lte, b, a),
{
}

/// `in` holds of the values that are in the list: of none if it is empty, and of
/// one more for each further item.
pub proof fn in_finds_items(value: Json, items: Seq<Json>, item: Json)
    ensures
        !holds(Op::In, value, Json::Array(Seq::empty())),
        holds(Op::In, value, Json::Array(items.push(item))) == (holds(
            Op::In,
            value,
            Json::Array(items),
        ) || value == item),
{
    let longer = items.push(item);
    assert(longer[items.len() as int] == item);
    if items.contains(value) {
        let i = choose|i: int| 0 <= i < items.len() && items[i] == value;
        assert(longer[i] == value);
    }
    if longer.contains(value) && value != item {
        let i = choose|i: int| 0 <= i < longer.len() && longer[i] == value;
        assert(items[i] == value);
    }
}

/// `exists` with true holds of everything but null, with false of null alone.
pub proof fn exists_asks_for_more_than_null(value: Json)
    ensures
        holds(Op::Exists, Json::Null, Json::Bool(false)),
        !holds(Op::Exists, Json::Null, Json::Bool(true)),
        value != Json::Null ==> holds(Op::Exists, value, Json::Bool(true)),
        value != Json::Null ==> !holds(Op::Exists, value, Json::Bool(false)),
{
}

/// Operators on texts hold between texts only, comparisons between numbers only,
/// `in` only with a list and `exists` only with a truth value.
pub proof fn operators_need_their_types(resolved: Json, expected: Json)
    ensures
        !(resolved is String && expected is String) ==> {
            &&& !holds(Op::Contains, resolved, expected)
            &&& !holds(Op::Icontains, resolved, expected)
            &&& !holds(Op::StartsWith, resolved, expected)
            &&& !holds(Op::EndsWith, resolved, expected)
            &&& !holds(Op::Regex, resolved, expected)
            &&& !holds(Op::Glob, resolved, expected)
        },
        !(resolved is Number && expected is Number) ==> {
            &&& !holds(Op::Gt, resolved, expected)
            &&& !holds(Op::Gte, resolved, expected)
            &&& !holds(Op::Lt, resolved, expected)
            &&& !holds(Op::Lte, resolved, expected)
        },
        !(expected is Array) ==> !holds(Op::In, resolved, expected),
        !(expected is Bool) ==> !holds(Op::Exists, resolved, expected),
{
}

} // verus!
