//! Text helpers: comparison, search, decimal numerals and joining.
//!
//! Every string is specified by its view, the sequence of its characters.
use vstd::prelude::*;

verus! {

/// `part` stands in `whole`, starting at character `at`.
pub open spec fn occurs_at(whole: Seq<char>, part: Seq<char>, at: int) -> bool {
    &&& 0 <= at
    &&& at + part.len() <= whole.len()
    &&& whole.subrange(at, at + part.len()) == part
}

/// `part` stands somewhere in `whole`.
pub open spec fn contains_text(whole: Seq<char>, part: Seq<char>) -> bool {
    exists|at: int| occurs_at(whole, part, at)
}

/// `whole` begins with `part`.
pub open spec fn begins_with(whole: Seq<char>, part: Seq<char>) -> bool {
    occurs_at(whole, part, 0)
}

/// `whole` ends with `part`.
pub open spec fn finishes_with(whole: Seq<char>, part: Seq<char>) -> bool {
    occurs_at(whole, part, whole.len() - part.len())
}

/// `a` comes before `b` in the lexicographic order of code points.
pub open spec fn text_before(a: Seq<char>, b: Seq<char>) -> bool
    decreases a.len(),
{
    if b.len() == 0 {
        false
    } else if a.len() == 0 {
        true
    } else if a[0] != b[0] {
        a[0] < b[0]
    } else {
        text_before(a.drop_first(), b.drop_first())
    }
}

/// The decimal digit of a number below ten.
pub open spec fn digit(n: nat) -> char {
    (48 + n) as char
}

/// The decimal numeral of `n`, without leading zeros.
pub open spec fn decimal(n: nat) -> Seq<char>
    decreases n,
{
    if n < 10 {
        seq![digit(n)]
    } else {
        decimal(n / 10).push(digit(n % 10))
    }
}

/// The parts in order, with `separator` between each two.
pub open spec fn joined(parts: Seq<Seq<char>>, separator: Seq<char>) -> Seq<char>
    decreases parts.len(),
{
    if parts.len() == 0 {
        Seq::empty()
    } else if parts.len() == 1 {
        parts[0]
    } else {
        joined(parts.drop_last(), separator) + separator + parts.last()
    }
}

/// No line ends within a text.
pub open spec fn one_line(text: Seq<char>) -> bool {
    forall|i: int| 0 <= i < text.len() ==> #[trigger] text[i] != '\n'
}

/// No line ends within any of some texts.
pub open spec fn all_one_line(texts: Seq<Seq<char>>) -> bool {
    forall|i: int| 0 <= i < texts.len() ==> one_line(#[trigger] texts[i])
}

/// The views of a sequence of strings.
pub open spec fn views(strings: Seq<String>) -> Seq<Seq<char>> {
    strings.map_values(|s: String| s@)
}

/// The characters of `s`.
pub fn chars_of(s: &str) -> (r: Vec<char>)
    ensures
        r@ == s@,
{
    let mut out: Vec<char> = Vec::new();
    for c in it: s.chars()
        invariant
            it.seq() == s@,
            out@ == s@.take(it.index() as int),
    {
        out.push(c);
    }
    out
}

/// Whether two strings hold the same characters.
pub fn same_text(a: &str, b: &str) -> (r: bool)
    ensures
        r == (a@ == b@),
{
    let a: String = a.to_owned();
    let b: String = b.to_owned();
    a == b
}

/// No text comes before itself.
pub proof fn lemma_before_irreflexive(a: Seq<char>)
    ensures
        !text_before(a, a),
    decreases a.len(),
{
    if a.len() > 0 {
        lemma_before_irreflexive(a.drop_first());
    }
}

/// Of two different texts one comes before the other.
pub proof fn lemma_before_total(a: Seq<char>, b: Seq<char>)
    ensures
        a == b || text_before(a, b) || text_before(b, a),
    decreases a.len(),
{
    if a.len() == 0 || b.len() == 0 {
        assert(a.len() == 0 && b.len() == 0 ==> a =~= b);
    } else if a[0] == b[0] {
        lemma_before_total(a.drop_first(), b.drop_first());
        if a.drop_first() == b.drop_first() {
            assert(a =~= seq![a[0]] + a.drop_first());
            assert(b =~= seq![b[0]] + b.drop_first());
        }
    } else {
        assert(a[0] < b[0] || b[0] < a[0]);
    }
}

/// The order of texts is transitive.
pub proof fn lemma_before_transitive(a: Seq<char>, b: Seq<char>, c: Seq<char>)
    requires
        text_before(a, b),
        text_before(b, c),
    ensures
        text_before(a, c),
    decreases a.len(),
{
    if a.len() > 0 && a[0] == b[0] && b[0] == c[0] {
        lemma_before_transitive(a.drop_first(), b.drop_first(), c.drop_first());
    }
}

/// A common beginning does not matter to the order.
proof fn lemma_before_skip(a: Seq<char>, b: Seq<char>, n: nat)
    requires
        n <= a.len(),
        n <= b.len(),
        a.take(n as int) == b.take(n as int),
    ensures
        text_before(a, b) == text_before(a.skip(n as int), b.skip(n as int)),
    decreases n,
{
    if n == 0 {
        assert(a.skip(0) =~= a);
        assert(b.skip(0) =~= b);
    } else {
        assert(a[0] == a.take(n as int)[0]);
        assert(b[0] == b.take(n as int)[0]);
        assert(a.drop_first().take(n - 1) =~= a.take(n as int).drop_first());
        assert(b.drop_first().take(n - 1) =~= b.take(n as int).drop_first());
        lemma_before_skip(a.drop_first(), b.drop_first(), (n - 1) as nat);
        assert(a.drop_first().skip(n - 1) =~= a.skip(n as int));
        assert(b.drop_first().skip(n - 1) =~= b.skip(n as int));
    }
}

/// A numeral is one line.
pub proof fn lemma_decimal_one_line(n: nat)
    ensures
        one_line(decimal(n)),
    decreases n,
{
    if n >= 10 {
        lemma_decimal_one_line(n / 10);
    }
}

/// Lines joined by a separator without line ends are one line.
pub proof fn lemma_joined_one_line(parts: Seq<Seq<char>>, separator: Seq<char>)
    requires
        all_one_line(parts),
        one_line(separator),
    ensures
        one_line(joined(parts, separator)),
    decreases parts.len(),
{
    if parts.len() == 1 {
        assert(one_line(parts[0]));
    } else if parts.len() > 1 {
        let init = parts.drop_last();
        assert forall|i: int| 0 <= i < init.len() implies one_line(#[trigger] init[i]) by {
            assert(init[i] == parts[i]);
        }
        lemma_joined_one_line(init, separator);
        assert(one_line(parts[parts.len() - 1]));
    }
}

/// Whether `a` comes before `b`.
pub fn comes_before(a: &str, b: &str) -> (r: bool)
    ensures
        r == text_before(a@, b@),
{
    let x = chars_of(a);
    let y = chars_of(b);
    let mut i: usize = 0;
    while i < x.len() && i < y.len() && x[i] == y[i]
        invariant
            i <= x@.len(),
            i <= y@.len(),
            x@.take(i as int) == y@.take(i as int),
        decreases x@.len() - i,
    {
        proof {
            assert(x@.take(i + 1) =~= x@.take(i as int).push(x@[i as int]));
            assert(y@.take(i + 1) =~= y@.take(i as int).push(y@[i as int]));
        }
        i += 1;
    }
    proof {
        lemma_before_skip(x@, y@, i as nat);
    }
    if i >= y.len() {
        return false;
    }
    if i >= x.len() {
        return true;
    }
    let c: char = x[i];
    let d: char = y[i];
    proof {
        assert(x@.skip(i as int)[0] == c);
        assert(y@.skip(i as int)[0] == d);
    }
    c < d
}

/// Whether `part` stands in `whole` at character `at`.
fn occurs(whole: &[char], part: &[char], at: usize) -> (r: bool)
    requires
        at + part@.len() <= whole@.len(),
    ensures
        r == occurs_at(whole@, part@, at as int),
{
    let size: usize = whole.len();
    let mut i: usize = 0;
    while i < part.len()
        invariant
            size == whole@.len(),
            i <= part@.len(),
            at + part@.len() <= whole@.len(),
            forall|j: int| 0 <= j < i ==> whole@[at + j] == part@[j],
        decreases part@.len() - i,
    {
        if whole[at + i] != part[i] {
            proof {
                assert(whole@.subrange(at as int, at + part@.len())[i as int] != part@[i as int]);
            }
            return false;
        }
        i += 1;
    }
    proof {
        assert(whole@.subrange(at as int, at + part@.len()) =~= part@);
    }
    true
}

/// Whether `whole` contains `part`.
pub fn text_contains(whole: &str, part: &str) -> (r: bool)
    ensures
        r == contains_text(whole@, part@),
{
    let w = chars_of(whole);
    let p = chars_of(part);
    if p.len() > w.len() {
        return false;
    }
    let last: usize = w.len() - p.len();
    let mut at: usize = 0;
    while at <= last
        invariant
            last == w@.len() - p@.len(),
            at <= last + 1,
            w@ == whole@,
            p@ == part@,
            forall|k: int| 0 <= k < at ==> !occurs_at(whole@, part@, k),
        decreases last + 1 - at,
    {
        if occurs(w.as_slice(), p.as_slice(), at) {
            return true;
        }
        if at == last {
            return false;
        }
        at += 1;
    }
    false
}

/// Whether `whole` begins with `part`.
pub fn text_starts_with(whole: &str, part: &str) -> (r: bool)
    ensures
        r == begins_with(whole@, part@),
{
    let w = chars_of(whole);
    let p = chars_of(part);
    p.len() <= w.len() && occurs(w.as_slice(), p.as_slice(), 0)
}

/// Whether `whole` ends with `part`.
pub fn text_ends_with(whole: &str, part: &str) -> (r: bool)
    ensures
        r == finishes_with(whole@, part@),
{
    let w = chars_of(whole);
    let p = chars_of(part);
    p.len() <= w.len() && occurs(w.as_slice(), p.as_slice(), w.len() - p.len())
}

/// The digit `n` as text.
fn digit_text(n: u64) -> (r: &'static str)
    requires
        n < 10,
    ensures
        r@ == seq![digit(n as nat)],
{
    proof {
        reveal_strlit("0");
        reveal_strlit("1");
        reveal_strlit("2");
        reveal_strlit("3");
        reveal_strlit("4");
        reveal_strlit("5");
        reveal_strlit("6");
        reveal_strlit("7");
        reveal_strlit("8");
        reveal_strlit("9");
    }
    let r = if n == 0 {
        "0"
    } else if n == 1 {
        "1"
    } else if n == 2 {
        "2"
    } else if n == 3 {
        "3"
    } else if n == 4 {
        "4"
    } else if n == 5 {
        "5"
    } else if n == 6 {
        "6"
    } else if n == 7 {
        "7"
    } else if n == 8 {
        "8"
    } else {
        "9"
    };
    assert(r@ =~= seq![digit(n as nat)]);
    r
}

/// The decimal numeral of `n`.
pub fn decimal_text(n: u64) -> (r: String)
    ensures
        r@ == decimal(n as nat),
    decreases n,
{
    if n < 10 {
        digit_text(n).to_owned()
    } else {
        let mut r = decimal_text(n / 10);
        r.append(digit_text(n % 10));
        proof {
            assert(r@ =~= decimal((n / 10) as nat).push(digit((n % 10) as nat)));
        }
        r
    }
}

/// The parts in order, with `separator` between each two.
pub fn join_text(parts: &[String], separator: &str) -> (r: String)
    ensures
        r@ == joined(views(parts@), separator@),
{
    let mut out = String::new();
    let mut i: usize = 0;
    let ghost all = views(parts@);
    while i < parts.len()
        invariant
            i <= parts@.len(),
            all == views(parts@),
            out@ == joined(all.take(i as int), separator@),
        decreases parts@.len() - i,
    {
        proof {
            assert(all.take(i + 1).drop_last() =~= all.take(i as int));
            assert(all.take(i + 1).last() == parts@[i as int]@);
        }
        if i > 0 {
            out.append(separator);
        }
        out.append(parts[i].as_str());
        proof {
            if i == 0 {
                assert(out@ =~= all.take(1)[0]);
            }
        }
        i += 1;
    }
    proof {
        assert(all.take(parts@.len() as int) =~= all);
    }
    out
}

/// A numeral is the numeral of its tens followed by the digit of its ones.
pub proof fn numerals_are_digits(n: nat, d: nat)
    requires
        d < 10,
    ensures
        decimal(d) == seq![(48 + d) as char],
        n > 0 ==> decimal(10 * n + d) == decimal(n).push((48 + d) as char),
{
    assert((10 * n + d) / 10 == n);
    assert((10 * n + d) % 10 == d);
}

/// The number that a numeral stands for.
pub open spec fn numeral_value(digits: Seq<char>) -> nat
    decreases digits.len(),
{
    if digits.len() == 0 {
        0
    } else {
        10 * numeral_value(digits.drop_last()) + (digits.last() as nat - 48) as nat
    }
}

/// A numeral stands for the number of which it is the numeral, so that different
/// numbers have different numerals.
pub proof fn numerals_stand_for_their_number(n: nat)
    ensures
        numeral_value(decimal(n)) == n,
    decreases n,
{
    if n < 10 {
        assert(decimal(n).drop_last() =~= Seq::<char>::empty());
        assert(numeral_value(Seq::empty()) == 0);
        assert(decimal(n).last() as nat == 48 + n);
    } else {
        numerals_stand_for_their_number(n / 10);
        let m = n / 10;
        assert(decimal(n).drop_last() =~= decimal(m));
        assert(decimal(n).last() as nat == 48 + n % 10);
    }
}

/// Joining no parts gives nothing, joining one gives that part, and one more part
/// comes last, after the separator.
pub proof fn parts_are_joined_in_order(
    parts: Seq<Seq<char>>,
    part: Seq<char>,
    separator: Seq<char>,
)
    ensures
        joined(Seq::empty(), separator) == Seq::<char>::empty(),
        joined(seq![part], separator) == part,
        parts.len() > 0 ==> joined(parts.push(part), separator) == joined(parts, separator)
            + separator + part,
{
    assert(parts.push(part).drop_last() =~= parts);
}

/// A part that was joined stands in the result.
pub proof fn joined_parts_are_contained(parts: Seq<Seq<char>>, separator: Seq<char>, i: int)
    requires
        0 <= i < parts.len(),
    ensures
        contains_text(joined(parts, separator), parts[i]),
    decreases parts.len(),
{
    if parts.len() == 1 {
        contained_in_itself(parts[0]);
    } else {
        let before = joined(parts.drop_last(), separator);
        if i == parts.len() - 1 {
            framed_text_is_contained(before + separator, parts.last(), Seq::empty());
            assert(before + separator + parts.last() + Seq::<char>::empty() =~= before + separator
                + parts.last());
        } else {
            joined_parts_are_contained(parts.drop_last(), separator, i);
            framed_text_is_contained(Seq::empty(), before, separator + parts.last());
            assert(Seq::<char>::empty() + before + (separator + parts.last()) =~= before + separator
                + parts.last());
            containment_is_transitive(joined(parts, separator), before, parts[i]);
        }
    }
}

/// A text contains itself.
pub proof fn contained_in_itself(text: Seq<char>)
    ensures
        contains_text(text, text),
{
    assert(text.subrange(0, text.len() as int) =~= text);
    assert(occurs_at(text, text, 0));
}

/// A text contains what stands between its beginning and its ending.
pub proof fn framed_text_is_contained(before: Seq<char>, part: Seq<char>, after: Seq<char>)
    ensures
        contains_text(before + part + after, part),
{
    let whole = before + part + after;
    assert(whole.subrange(before.len() as int, (before.len() + part.len()) as int) =~= part);
    assert(occurs_at(whole, part, before.len() as int));
}

/// What a text contains contains nothing that the text does not.
pub proof fn containment_is_transitive(whole: Seq<char>, middle: Seq<char>, part: Seq<char>)
    requires
        contains_text(whole, middle),
        contains_text(middle, part),
    ensures
        contains_text(whole, part),
{
    let i = choose|at: int| occurs_at(whole, middle, at);
    let j = choose|at: int| occurs_at(middle, part, at);
    assert(whole.subrange(i + j, i + j + part.len()) =~= whole.subrange(
        i,
        i + middle.len(),
    ).subrange(j, j + part.len()));
    assert(occurs_at(whole, part, i + j));
}

/// Of two texts that begin alike, the one whose next character is smaller comes
/// first, and a text comes before every longer text that begins with it.
pub proof fn first_differences_decide_the_order(
    common: Seq<char>,
    a: Seq<char>,
    b: Seq<char>,
)
    requires
        b.len() > 0,
        a.len() > 0 ==> a[0] < b[0],
    ensures
        text_before(common + a, common + b),
        !text_before(common + b, common + a),
    decreases common.len(),
{
    if common.len() == 0 {
        assert(common + a =~= a);
        assert(common + b =~= b);
    } else {
        let rest = common.drop_first();
        first_differences_decide_the_order(rest, a, b);
        assert((common + a).drop_first() =~= rest + a);
        assert((common + b).drop_first() =~= rest + b);
    }
}

} // verus!
