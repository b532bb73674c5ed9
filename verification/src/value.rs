//! JSON documents: the values that filters look at.
use vstd::prelude::*;

use crate::number::{self, JsonNumber, NumberView};
use crate::text::{self, comes_before, join_text, same_text};

verus! {

/// A JSON value.
pub enum Value {
    Null,
    Bool(bool),
    Number(JsonNumber),
    String(String),
    Array(Vec<Value>),
    Object(Object),
}

/// The fields of a JSON object, each key once, in ascending order of the keys.
pub struct Object {
    fields: Vec<(String, Value)>,
}

/// What a JSON value holds. Two values are equal when they hold the same.
pub enum Json {
    Null,
    Bool(bool),
    Number(NumberView),
    String(Seq<char>),
    Array(Seq<Json>),
    Object(Seq<(Seq<char>, Json)>),
}

/// What a value holds.
pub open spec fn json_of(value: Value) -> Json
    decreases value,
{
    match value {
        Value::Null => Json::Null,
        Value::Bool(b) => Json::Bool(b),
        Value::Number(n) => Json::Number(n@),
        Value::String(s) => Json::String(s@),
        Value::Array(items) => Json::Array(
            Seq::new(
                items@.len(),
                |i: int|
                    if 0 <= i < items@.len() {
                        json_of(items@[i])
                    } else {
                        Json::Null
                    },
            ),
        ),
        Value::Object(object) => Json::Object(
            Seq::new(
                object.entries().len(),
                |i: int|
                    if 0 <= i < object.entries().len() {
                        (object.entries()[i].0@, json_of(object.entries()[i].1))
                    } else {
                        (Seq::empty(), Json::Null)
                    },
            ),
        ),
    }
}

/// A hexadecimal digit in lower case.
pub open spec fn hex_digit(n: nat) -> char {
    if n < 10 {
        (48 + n) as char
    } else {
        (87 + n) as char
    }
}

/// A character as it stands in a JSON string literal: quotes, backslashes and
/// control characters are escaped.
pub open spec fn escaped(c: char) -> Seq<char> {
    if c == '"' {
        seq!['\\', '"']
    } else if c == '\\' {
        seq!['\\', '\\']
    } else if c == '\u{8}' {
        seq!['\\', 'b']
    } else if c == '\t' {
        seq!['\\', 't']
    } else if c == '\n' {
        seq!['\\', 'n']
    } else if c == '\u{c}' {
        seq!['\\', 'f']
    } else if c == '\r' {
        seq!['\\', 'r']
    } else if c as nat <= 0x1f {
        seq!['\\', 'u', '0', '0', hex_digit(c as nat / 16), hex_digit(c as nat % 16)]
    } else {
        seq![c]
    }
}

/// The characters of a text as they stand in a JSON string literal.
pub open spec fn all_escaped(text: Seq<char>) -> Seq<char>
    decreases text.len(),
{
    if text.len() == 0 {
        Seq::empty()
    } else {
        all_escaped(text.drop_last()) + escaped(text.last())
    }
}

/// A text as a JSON string literal: in quotes, with what needs it escaped.
pub open spec fn json_quoted(text: Seq<char>) -> Seq<char> {
    seq!['"'] + all_escaped(text) + seq!['"']
}

/// What `serde_json::to_string` returns for a string: its JSON literal. The
/// call fails only where the serialised type does, which a string never does.
#[verifier::external_body]
pub(crate) fn quoted(text: &str) -> (r: String)
    ensures
        r@ == json_quoted(text@),
{
    serde_json::to_string(text).unwrap_or_default()
}

/// A JSON string literal is one line.
pub proof fn lemma_quoted_one_line(text: Seq<char>)
    ensures
        text::one_line(json_quoted(text)),
{
    lemma_escaped_one_line(text);
}

proof fn lemma_escaped_one_line(text: Seq<char>)
    ensures
        text::one_line(all_escaped(text)),
    decreases text.len(),
{
    if text.len() > 0 {
        lemma_escaped_one_line(text.drop_last());
    }
}

/// The JSON text of a value, without any white space between its parts.
pub open spec fn value_text(value: Value) -> Seq<char>
    decreases value,
{
    match value {
        Value::Null => "null"@,
        Value::Bool(b) => if b {
            "true"@
        } else {
            "false"@
        },
        Value::Number(n) => number::number_text(n),
        Value::String(s) => json_quoted(s@),
        Value::Array(items) => list_text(item_texts(items@, items@.len())),
        Value::Object(object) => fields_text(
            entry_texts(object.entries(), object.entries().len()),
        ),
    }
}

/// The JSON texts of the first `n` items.
pub open spec fn item_texts(items: Seq<Value>, n: nat) -> Seq<Seq<char>>
    decreases items, n,
{
    if n == 0 || n > items.len() {
        Seq::empty()
    } else {
        item_texts(items, (n - 1) as nat).push(value_text(items[n - 1]))
    }
}

/// The JSON texts of the first `n` fields.
pub open spec fn entry_texts(entries: Seq<(String, Value)>, n: nat) -> Seq<Seq<char>>
    decreases entries, n,
{
    if n == 0 || n > entries.len() {
        Seq::empty()
    } else {
        entry_texts(entries, (n - 1) as nat).push(
            field_text(entries[n - 1].0@, value_text(entries[n - 1].1)),
        )
    }
}

/// The JSON text of a field, from its key and the text of its value.
pub open spec fn field_text(key: Seq<char>, value: Seq<char>) -> Seq<char> {
    json_quoted(key) + ":"@ + value
}

/// The JSON text of an array, from the texts of its items.
pub open spec fn list_text(items: Seq<Seq<char>>) -> Seq<char> {
    "["@ + text::joined(items, ","@) + "]"@
}

/// The JSON text of an object, from the texts of its fields.
pub open spec fn fields_text(fields: Seq<Seq<char>>) -> Seq<char> {
    "{"@ + text::joined(fields, ","@) + "}"@
}

/// The JSON text of a field is one line if that of its value is.
pub proof fn lemma_field_one_line(key: Seq<char>, value: Seq<char>)
    requires
        text::one_line(value),
    ensures
        text::one_line(field_text(key, value)),
{
    lemma_quoted_one_line(key);
    reveal_strlit(":");
}

/// The JSON text of an array is one line if those of its items are.
pub proof fn lemma_list_one_line(items: Seq<Seq<char>>)
    requires
        text::all_one_line(items),
    ensures
        text::one_line(list_text(items)),
{
    reveal_strlit("[");
    reveal_strlit(",");
    reveal_strlit("]");
    text::lemma_joined_one_line(items, ","@);
}

/// The JSON text of an object is one line if those of its fields are.
pub proof fn lemma_fields_one_line(fields: Seq<Seq<char>>)
    requires
        text::all_one_line(fields),
    ensures
        text::one_line(fields_text(fields)),
{
    reveal_strlit("{");
    reveal_strlit(",");
    reveal_strlit("}");
    text::lemma_joined_one_line(fields, ","@);
}

/// The JSON text of an array, from the texts of its items.
pub(crate) fn write_list(items: &[String]) -> (r: String)
    ensures
        r@ == list_text(text::views(items@)),
{
    let mut out = "[".to_owned();
    out.append(join_text(items, ",").as_str());
    out.append("]");
    out
}

/// The JSON text of an object, from the texts of its fields.
pub(crate) fn write_fields(fields: &[String]) -> (r: String)
    ensures
        r@ == fields_text(text::views(fields@)),
{
    let mut out = "{".to_owned();
    out.append(join_text(fields, ",").as_str());
    out.append("}");
    out
}

/// The JSON text of a field, from its key and the text of its value.
pub(crate) fn write_field(key: &str, value: &str) -> (r: String)
    ensures
        r@ == field_text(key@, value@),
{
    let mut out = quoted(key);
    out.append(":");
    out.append(value);
    out
}

impl View for Value {
    type V = Json;

    open spec fn view(&self) -> Json {
        json_of(*self)
    }
}

/// The JSON text of what a value without floats holds.
pub open spec fn json_text(json: Json) -> Seq<char>
    decreases json,
{
    match json {
        Json::Null => "null"@,
        Json::Bool(b) => if b {
            "true"@
        } else {
            "false"@
        },
        Json::Number(n) => match n {
            NumberView::PosInt(n) => text::decimal(n as nat),
            NumberView::NegInt(n) => number::integer_text(n as int),
            NumberView::Float(_) => Seq::empty(),
        },
        Json::String(s) => json_quoted(s),
        Json::Array(items) => list_text(json_item_texts(items, items.len())),
        Json::Object(fields) => fields_text(json_field_texts(fields, fields.len())),
    }
}

/// The JSON texts of the first `n` items.
pub open spec fn json_item_texts(items: Seq<Json>, n: nat) -> Seq<Seq<char>>
    decreases items, n,
{
    if n == 0 || n > items.len() {
        Seq::empty()
    } else {
        json_item_texts(items, (n - 1) as nat).push(json_text(items[n - 1]))
    }
}

/// The JSON texts of the first `n` fields.
pub open spec fn json_field_texts(fields: Seq<(Seq<char>, Json)>, n: nat) -> Seq<Seq<char>>
    decreases fields, n,
{
    if n == 0 || n > fields.len() {
        Seq::empty()
    } else {
        json_field_texts(fields, (n - 1) as nat).push(
            field_text(fields[n - 1].0, json_text(fields[n - 1].1)),
        )
    }
}

/// No float is in a value.
pub open spec fn float_free(json: Json) -> bool
    decreases json,
{
    match json {
        Json::Number(n) => !(n is Float),
        Json::Array(items) => forall|i: int|
            0 <= i < items.len() ==> float_free(#[trigger] items[i]),
        Json::Object(fields) => forall|i: int|
            0 <= i < fields.len() ==> float_free((#[trigger] fields[i]).1),
        _ => true,
    }
}

/// The text of a value without floats depends on what it holds alone.
pub proof fn lemma_value_text(value: Value)
    requires
        float_free(value@),
    ensures
        value_text(value) == json_text(value@),
    decreases value,
{
    match value {
        Value::Array(items) => {
            let json = value@->Array_0;
            assert forall|i: int| 0 <= i < items@.len() implies #[trigger] value_text(items@[i])
                == json_text(json[i]) by {
                assert(float_free(json[i]));
                lemma_value_text(items@[i]);
            }
            lemma_item_texts(items@, json, items@.len());
        },
        Value::Object(object) => {
            let entries = object.entries();
            let json = value@->Object_0;
            assert forall|i: int| 0 <= i < entries.len() implies (#[trigger] entries[i]).0@
                == json[i].0 && value_text(entries[i].1) == json_text(json[i].1) by {
                assert(float_free(json[i].1));
                lemma_value_text(entries[i].1);
            }
            lemma_entry_texts(entries, json, entries.len());
        },
        _ => {},
    }
}

proof fn lemma_item_texts(items: Seq<Value>, json: Seq<Json>, n: nat)
    requires
        n <= items.len(),
        items.len() == json.len(),
        forall|i: int|
            0 <= i < items.len() ==> #[trigger] value_text(items[i]) == json_text(json[i]),
    ensures
        item_texts(items, n) == json_item_texts(json, n),
    decreases n,
{
    if n > 0 {
        lemma_item_texts(items, json, (n - 1) as nat);
        assert(value_text(items[n - 1]) == json_text(json[n - 1]));
    }
}

proof fn lemma_entry_texts(entries: Seq<(String, Value)>, json: Seq<(Seq<char>, Json)>, n: nat)
    requires
        n <= entries.len(),
        entries.len() == json.len(),
        forall|i: int|
            0 <= i < entries.len() ==> (#[trigger] entries[i]).0@ == json[i].0 && value_text(
                entries[i].1,
            ) == json_text(json[i].1),
    ensures
        entry_texts(entries, n) == json_field_texts(json, n),
    decreases n,
{
    if n > 0 {
        lemma_entry_texts(entries, json, (n - 1) as nat);
        assert(entries[n - 1].0@ == json[n - 1].0);
    }
}

proof fn lemma_same_item_texts(a: Seq<Value>, b: Seq<Value>, n: nat)
    requires
        n <= a.len(),
        a.len() == b.len(),
        forall|i: int| 0 <= i < a.len() ==> value_text(#[trigger] a[i]) == value_text(b[i]),
    ensures
        item_texts(a, n) == item_texts(b, n),
    decreases n,
{
    if n > 0 {
        lemma_same_item_texts(a, b, (n - 1) as nat);
        assert(value_text(a[n - 1]) == value_text(b[n - 1]));
    }
}

proof fn lemma_same_entry_texts(a: Seq<(String, Value)>, b: Seq<(String, Value)>, n: nat)
    requires
        n <= a.len(),
        a.len() == b.len(),
        forall|i: int|
            0 <= i < a.len() ==> (#[trigger] a[i]).0@ == b[i].0@ && value_text(a[i].1)
                == value_text(b[i].1),
    ensures
        entry_texts(a, n) == entry_texts(b, n),
    decreases n,
{
    if n > 0 {
        lemma_same_entry_texts(a, b, (n - 1) as nat);
        assert(a[n - 1].0@ == b[n - 1].0@);
    }
}

/// An object of fields without floats has no floats.
pub proof fn lemma_object_float_free(fields: Seq<(Seq<char>, Json)>)
    requires
        forall|i: int| 0 <= i < fields.len() ==> float_free((#[trigger] fields[i]).1),
    ensures
        float_free(Json::Object(object_of(fields))),
        forall|i: int|
            0 <= i < object_of(fields).len() ==> float_free((#[trigger] object_of(fields)[i]).1),
    decreases fields.len(),
{
    if fields.len() > 0 {
        let init = fields.drop_last();
        assert forall|i: int| 0 <= i < init.len() implies float_free((#[trigger] init[i]).1) by {
            assert(init[i] == fields[i]);
        }
        lemma_object_float_free(init);
        assert(float_free(fields[fields.len() - 1].1));
        lemma_with_field_float_free(object_of(init), fields.last().0, fields.last().1);
    }
}

proof fn lemma_with_field_float_free(fields: Seq<(Seq<char>, Json)>, key: Seq<char>, value: Json)
    requires
        forall|i: int| 0 <= i < fields.len() ==> float_free((#[trigger] fields[i]).1),
        float_free(value),
    ensures
        forall|i: int|
            0 <= i < with_field(fields, key, value).len() ==> float_free(
                (#[trigger] with_field(fields, key, value)[i]).1,
            ),
    decreases fields.len(),
{
    let result = with_field(fields, key, value);
    if fields.len() > 0 {
        let rest = fields.drop_first();
        assert forall|i: int| 0 <= i < rest.len() implies float_free((#[trigger] rest[i]).1) by {
            assert(rest[i] == fields[i + 1]);
        }
        lemma_with_field_float_free(rest, key, value);
        let tail = with_field(rest, key, value);
        assert forall|i: int| 0 <= i < result.len() implies float_free(
            (#[trigger] result[i]).1,
        ) by {
            if fields[0].0 == key {
                assert(i > 0 ==> result[i] == fields[i]);
            } else if text::text_before(key, fields[0].0) {
                assert(i > 0 ==> result[i] == fields[i - 1]);
            } else {
                assert(i == 0 ==> result[i] == fields[0]);
                assert(i > 0 ==> result[i] == tail[i - 1]);
            }
        }
    }
}

/// The value of the first field with a key.
pub open spec fn field(fields: Seq<(Seq<char>, Json)>, key: Seq<char>) -> Option<Json>
    decreases fields.len(),
{
    if fields.len() == 0 {
        None
    } else if fields[0].0 == key {
        Some(fields[0].1)
    } else {
        field(fields.drop_first(), key)
    }
}

/// The fields with one field set: in place of the field with its key, or
/// before the first field whose key comes after it.
pub open spec fn with_field(
    fields: Seq<(Seq<char>, Json)>,
    key: Seq<char>,
    value: Json,
) -> Seq<(Seq<char>, Json)>
    decreases fields.len(),
{
    if fields.len() == 0 {
        seq![(key, value)]
    } else if fields[0].0 == key {
        fields.update(0, (key, value))
    } else if text::text_before(key, fields[0].0) {
        seq![(key, value)] + fields
    } else {
        seq![fields[0]] + with_field(fields.drop_first(), key, value)
    }
}

/// The object that holds the given fields; of two with one key, the later.
pub open spec fn object_of(fields: Seq<(Seq<char>, Json)>) -> Seq<(Seq<char>, Json)>
    decreases fields.len(),
{
    if fields.len() == 0 {
        Seq::empty()
    } else {
        with_field(object_of(fields.drop_last()), fields.last().0, fields.last().1)
    }
}

/// Every key comes before all keys after it.
pub open spec fn ascending(fields: Seq<(Seq<char>, Json)>) -> bool {
    forall|i: int, j: int|
        0 <= i < j < fields.len() ==> text::text_before(#[trigger] fields[i].0, #[trigger] fields[j].0)
}

/// What a sequence of fields holds.
pub open spec fn fields_of(entries: Seq<(String, Value)>) -> Seq<(Seq<char>, Json)> {
    entries.map_values(|entry: (String, Value)| (entry.0@, json_of(entry.1)))
}

impl View for Object {
    type V = Seq<(Seq<char>, Json)>;

    open spec fn view(&self) -> Seq<(Seq<char>, Json)> {
        fields_of(self.entries())
    }
}

/// Setting a field keeps the keys ascending.
proof fn lemma_with_field_ascending(fields: Seq<(Seq<char>, Json)>, key: Seq<char>, value: Json)
    requires
        ascending(fields),
    ensures
        ascending(with_field(fields, key, value)),
        forall|j: int|
            0 <= j < with_field(fields, key, value).len() ==> {
                let k = (#[trigger] with_field(fields, key, value)[j]).0;
                k == key || exists|i: int| 0 <= i < fields.len() && fields[i].0 == k
            },
    decreases fields.len(),
{
    let result = with_field(fields, key, value);
    if fields.len() > 0 {
        let first = fields[0].0;
        let rest = fields.drop_first();
        if first == key {
            assert forall|j: int| 0 <= j < result.len() implies {
                let k = (#[trigger] result[j]).0;
                k == key || exists|i: int| 0 <= i < fields.len() && fields[i].0 == k
            } by {
                assert(fields[j].0 == result[j].0);
            }
        } else if text::text_before(key, first) {
            assert forall|i: int, j: int| 0 <= i < j < result.len() implies text::text_before(
                #[trigger] result[i].0,
                #[trigger] result[j].0,
            ) by {
                if i == 0 && j > 1 {
                    assert(text::text_before(fields[0].0, fields[j - 1].0));
                    text::lemma_before_transitive(key, first, fields[j - 1].0);
                } else if i > 0 {
                    assert(text::text_before(fields[i - 1].0, fields[j - 1].0));
                }
            }
            assert forall|j: int| 0 <= j < result.len() implies {
                let k = (#[trigger] result[j]).0;
                k == key || exists|i: int| 0 <= i < fields.len() && fields[i].0 == k
            } by {
                if j > 0 {
                    assert(fields[j - 1].0 == result[j].0);
                }
            }
        } else {
            text::lemma_before_total(key, first);
            lemma_with_field_ascending(rest, key, value);
            let tail = with_field(rest, key, value);
            assert forall|j: int| 0 <= j < tail.len() implies text::text_before(
                first,
                #[trigger] tail[j].0,
            ) by {
                if tail[j].0 != key {
                    let i = choose|i: int| 0 <= i < rest.len() && rest[i].0 == tail[j].0;
                    assert(text::text_before(fields[0].0, fields[i + 1].0));
                }
            }
            assert forall|i: int, j: int| 0 <= i < j < result.len() implies text::text_before(
                #[trigger] result[i].0,
                #[trigger] result[j].0,
            ) by {
                if i > 0 {
                    assert(text::text_before(tail[i - 1].0, tail[j - 1].0));
                } else {
                    assert(result[j] == tail[j - 1]);
                }
            }
            assert forall|j: int| 0 <= j < result.len() implies {
                let k = (#[trigger] result[j]).0;
                k == key || exists|i: int| 0 <= i < fields.len() && fields[i].0 == k
            } by {
                if j == 0 {
                    assert(fields[0].0 == result[j].0);
                } else if tail[j - 1].0 != key {
                    let i = choose|i: int| 0 <= i < rest.len() && rest[i].0 == tail[j - 1].0;
                    assert(fields[i + 1].0 == result[j].0);
                }
            }
        }
    }
}

/// The first `n` fields stay as they are when a field with a key that comes
/// after theirs is set.
proof fn lemma_with_field_skip(
    fields: Seq<(Seq<char>, Json)>,
    key: Seq<char>,
    value: Json,
    n: nat,
)
    requires
        n <= fields.len(),
        forall|i: int|
            0 <= i < n ==> #[trigger] fields[i].0 != key && !text::text_before(key, fields[i].0),
    ensures
        with_field(fields, key, value) == fields.take(n as int) + with_field(
            fields.skip(n as int),
            key,
            value,
        ),
    decreases n,
{
    if n == 0 {
        assert(fields.skip(0) =~= fields);
        assert(fields.take(0) + with_field(fields, key, value) =~= with_field(fields, key, value));
    } else {
        let rest = fields.drop_first();
        assert(fields[0].0 != key);
        assert forall|i: int| 0 <= i < n - 1 implies #[trigger] rest[i].0 != key && !text::text_before(
            key,
            rest[i].0,
        ) by {
            assert(rest[i] == fields[i + 1]);
        }
        lemma_with_field_skip(rest, key, value, (n - 1) as nat);
        assert(rest.skip(n - 1) =~= fields.skip(n as int));
        assert(seq![fields[0]] + rest.take(n - 1) =~= fields.take(n as int));
        assert(seq![fields[0]] + (rest.take(n - 1) + with_field(fields.skip(n as int), key, value))
            =~= (seq![fields[0]] + rest.take(n - 1)) + with_field(
            fields.skip(n as int),
            key,
            value,
        ));
    }
}

/// The first `n` fields do not matter to a look-up that none of them answers.
proof fn lemma_field_skip(fields: Seq<(Seq<char>, Json)>, key: Seq<char>, n: nat)
    requires
        n <= fields.len(),
        forall|i: int| 0 <= i < n ==> #[trigger] fields[i].0 != key,
    ensures
        field(fields, key) == field(fields.skip(n as int), key),
    decreases n,
{
    if n == 0 {
        assert(fields.skip(0) =~= fields);
    } else {
        let rest = fields.drop_first();
        assert forall|i: int| 0 <= i < n - 1 implies #[trigger] rest[i].0 != key by {
            assert(rest[i] == fields[i + 1]);
        }
        assert(fields[0].0 != key);
        lemma_field_skip(rest, key, (n - 1) as nat);
        assert(rest.skip(n - 1) =~= fields.skip(n as int));
    }
}

/// A field that was set is read back, and every other field stays as it was.
pub proof fn field_reads_back(
    fields: Seq<(Seq<char>, Json)>,
    key: Seq<char>,
    value: Json,
    other: Seq<char>,
)
    ensures
        field(with_field(fields, key, value), key) == Some(value),
        other != key ==> field(with_field(fields, key, value), other) == field(fields, other),
    decreases fields.len(),
{
    let result = with_field(fields, key, value);
    if fields.len() == 0 {
        assert(result.drop_first() =~= fields);
    } else if fields[0].0 == key {
        assert(result.drop_first() =~= fields.drop_first());
    } else if text::text_before(key, fields[0].0) {
        assert(result.drop_first() =~= fields);
    } else {
        field_reads_back(fields.drop_first(), key, value, other);
        assert(result.drop_first() =~= with_field(fields.drop_first(), key, value));
    }
}

/// An object gives back the last field that it was given with a key.
pub proof fn given_fields_read_back(fields: Seq<(Seq<char>, Json)>, i: int)
    requires
        0 <= i < fields.len(),
        forall|j: int| i < j < fields.len() ==> (#[trigger] fields[j]).0 != fields[i].0,
    ensures
        field(object_of(fields), fields[i].0) == Some(fields[i].1),
    decreases fields.len(),
{
    let init = fields.drop_last();
    let last = fields.last();
    field_reads_back(object_of(init), last.0, last.1, fields[i].0);
    if i < init.len() {
        assert(fields[fields.len() - 1].0 != fields[i].0);
        assert forall|j: int| i < j < init.len() implies (#[trigger] init[j]).0 != init[i].0 by {
            assert(init[j] == fields[j]);
        }
        given_fields_read_back(init, i);
    }
}

/// An object has no field that it was not given.
pub proof fn absent_fields_read_as_none(fields: Seq<(Seq<char>, Json)>, key: Seq<char>)
    requires
        forall|j: int| 0 <= j < fields.len() ==> (#[trigger] fields[j]).0 != key,
    ensures
        field(object_of(fields), key) is None,
    decreases fields.len(),
{
    if fields.len() > 0 {
        let init = fields.drop_last();
        let last = fields.last();
        assert(fields[fields.len() - 1].0 != key);
        assert forall|j: int| 0 <= j < init.len() implies (#[trigger] init[j]).0 != key by {
            assert(init[j] == fields[j]);
        }
        absent_fields_read_as_none(init, key);
        field_reads_back(object_of(init), last.0, last.1, key);
    }
}

impl Object {
    /// The fields in order.
    pub closed spec fn entries(&self) -> Seq<(String, Value)> {
        self.fields@
    }

    #[verifier::type_invariant]
    spec fn keys_ascend(&self) -> bool {
        ascending(self@)
    }

    /// An object without fields.
    pub fn new() -> (r: Object)
        ensures
            r@ == Seq::<(Seq<char>, Json)>::empty(),
    {
        let r = Object { fields: Vec::new() };
        assert(r@ =~= Seq::<(Seq<char>, Json)>::empty());
        r
    }

    /// Sets a field.
    pub fn set(self, key: &str, value: Value) -> (r: Object)
        ensures
            r@ == with_field(self@, key@, value@),
    {
        proof {
            use_type_invariant(&self);
            lemma_with_field_ascending(self@, key@, value@);
        }
        let ghost before = self@;
        let mut fields = self.fields;
        let mut at: usize = 0;
        while at < fields.len() && comes_before(fields[at].0.as_str(), key)
            invariant
                at <= fields@.len(),
                fields@ == self.entries(),
                before == self@,
                forall|i: int| 0 <= i < at ==> text::text_before(#[trigger] before[i].0, key@),
            decreases fields@.len() - at,
        {
            assert(before[at as int].0 == fields@[at as int].0@);
            at += 1;
        }
        proof {
            assert forall|i: int| 0 <= i < at implies #[trigger] before[i].0 != key@
                && !text::text_before(key@, before[i].0) by {
                text::lemma_before_irreflexive(before[i].0);
                if text::text_before(key@, before[i].0) {
                    text::lemma_before_transitive(before[i].0, key@, before[i].0);
                }
            }
            lemma_with_field_skip(before, key@, value@, at as nat);
        }
        let ghost rest = before.skip(at as int);
        if at < fields.len() && same_text(fields[at].0.as_str(), key) {
            fields.set(at, (key.to_owned(), value));
            proof {
                assert(rest[0] == before[at as int]);
                assert(fields_of(fields@) =~= before.take(at as int) + rest.update(
                    0,
                    (key@, value@),
                ));
            }
            Object { fields }
        } else {
            proof {
                if at < fields@.len() {
                    assert(rest[0] == before[at as int]);
                    text::lemma_before_total(rest[0].0, key@);
                }
            }
            fields.insert(at, (key.to_owned(), value));
            proof {
                assert(fields_of(fields@) =~= before.take(at as int) + (seq![(key@, value@)]
                    + rest));
            }
            Object { fields }
        }
    }

    /// The value of a field.
    pub fn get(&self, key: &str) -> (r: Option<&Value>)
        ensures
            r is Some == field(self@, key@) is Some,
            r matches Some(v) ==> field(self@, key@) == Some(v@),
    {
        let mut i: usize = 0;
        while i < self.fields.len()
            invariant
                i <= self.fields@.len(),
                forall|j: int| 0 <= j < i ==> #[trigger] self@[j].0 != key@,
            decreases self.fields@.len() - i,
        {
            assert(self@[i as int] == (self.fields@[i as int].0@, self.fields@[i as int].1@));
            if same_text(self.fields[i].0.as_str(), key) {
                proof {
                    lemma_field_skip(self@, key@, i as nat);
                    assert(self@.skip(i as int)[0] == self@[i as int]);
                }
                return Some(&self.fields[i].1);
            }
            i += 1;
        }
        proof {
            lemma_field_skip(self@, key@, self@.len());
            assert(self@.skip(self@.len() as int).len() == 0);
        }
        None
    }
}

impl Value {
    /// The object that holds the given fields; of two with one key, the later.
    pub fn object(fields: Vec<(String, Value)>) -> (r: Value)
        ensures
            r@ == Json::Object(object_of(fields_of(fields@))),
    {
        let ghost all = fields_of(fields@);
        let mut object = Object::new();
        for entry in it: fields
            invariant
                all == fields_of(it.seq()),
                object@ == object_of(all.take(it.index() as int)),
        {
            proof {
                let n = it.index();
                assert(all.take(n + 1).drop_last() =~= all.take(n as int));
                assert(all.take(n + 1).last() == (entry.0@, entry.1@));
            }
            object = object.set(entry.0.as_str(), entry.1);
        }
        let r = Value::Object(object);
        proof {
            assert(all.take(all.len() as int) =~= all);
            assert(r@->Object_0 =~= object@);
        }
        r
    }

    /// An array of strings.
    pub fn strings(items: &Vec<String>) -> (r: Value)
        ensures
            r@ == Json::Array(text::views(items@).map_values(|s: Seq<char>| Json::String(s))),
    {
        let mut values: Vec<Value> = Vec::new();
        let mut i: usize = 0;
        while i < items.len()
            invariant
                i <= items@.len(),
                values@.len() == i,
                forall|j: int|
                    0 <= j < i ==> (#[trigger] values@[j])@ == Json::String(items@[j]@),
            decreases items@.len() - i,
        {
            values.push(Value::String(items[i].clone()));
            i += 1;
        }
        let r = Value::Array(values);
        assert(r@->Array_0 =~= text::views(items@).map_values(|s: Seq<char>| Json::String(s)));
        r
    }

    /// The value of a field, if this is an object that has it.
    pub fn get(&self, key: &str) -> (r: Option<&Value>)
        ensures
            match self@ {
                Json::Object(fields) => match r {
                    Some(v) => field(fields, key@) == Some(v@),
                    None => field(fields, key@) is None,
                },
                _ => r is None,
            },
    {
        match self {
            Value::Object(object) => {
                assert(self@->Object_0 =~= object@);
                object.get(key)
            },
            _ => None,
        }
    }

    /// The text, if this is a string.
    pub fn as_str(&self) -> (r: Option<&str>)
        ensures
            match self@ {
                Json::String(s) => r is Some && r->0@ == s,
                _ => r is None,
            },
    {
        match self {
            Value::String(s) => Some(s.as_str()),
            _ => None,
        }
    }

    /// The items, if this is an array.
    pub fn as_array(&self) -> (r: Option<&Vec<Value>>)
        ensures
            match self@ {
                Json::Array(items) => {
                    &&& r is Some
                    &&& r->0@.len() == items.len()
                    &&& forall|i: int| 0 <= i < items.len() ==> (#[trigger] r->0@[i])@ == items[i]
                },
                _ => r is None,
            },
    {
        match self {
            Value::Array(items) => Some(items),
            _ => None,
        }
    }

    /// The boolean, if this is one.
    pub fn as_bool(&self) -> (r: Option<bool>)
        ensures
            r == match self@ {
                Json::Bool(b) => Some(b),
                _ => None,
            },
    {
        match self {
            Value::Bool(b) => Some(*b),
            _ => None,
        }
    }

    /// Whether this is null.
    pub fn is_null(&self) -> (r: bool)
        ensures
            r == (self@ == Json::Null),
    {
        match self {
            Value::Null => true,
            _ => false,
        }
    }

    /// The JSON text of this value, without any white space between its parts.
    pub fn text(&self) -> (r: String)
        ensures
            r@ == value_text(*self),
        decreases *self,
    {
        match self {
            Value::Null => "null".to_owned(),
            Value::Bool(b) => if *b {
                "true".to_owned()
            } else {
                "false".to_owned()
            },
            Value::Number(n) => n.text(),
            Value::String(s) => quoted(s.as_str()),
            Value::Array(items) => {
                let mut parts: Vec<String> = Vec::new();
                let mut i: usize = 0;
                while i < items.len()
                    invariant
                        *self == Value::Array(*items),
                        i <= items@.len(),
                        text::views(parts@) == item_texts(items@, i as nat),
                    decreases items@.len() - i,
                {
                    proof {
                        assert(decreases_to!(*self => self->Array_0));
                        assert(decreases_to!(items => items@));
                        assert(decreases_to!(items@ => items@[i as int]));
                    }
                    let ghost before = parts@;
                    parts.push(items[i].text());
                    assert(text::views(parts@) =~= text::views(before).push(
                        value_text(items@[i as int]),
                    ));
                    i += 1;
                }
                write_list(parts.as_slice())
            },
            Value::Object(object) => {
                let fields = &object.fields;
                let mut parts: Vec<String> = Vec::new();
                let mut i: usize = 0;
                while i < fields.len()
                    invariant
                        *self == Value::Object(*object),
                        *fields == object.fields,
                        i <= fields@.len(),
                        text::views(parts@) == entry_texts(fields@, i as nat),
                    decreases fields@.len() - i,
                {
                    proof {
                        assert(decreases_to!(*self => self->Object_0));
                        assert(decreases_to!(object => object.fields));
                        assert(decreases_to!(fields => fields@));
                        assert(decreases_to!(fields@ => fields@[i as int]));
                        assert(decreases_to!(fields@[i as int] => fields@[i as int].1));
                    }
                    let ghost before = parts@;
                    let value = fields[i].1.text();
                    parts.push(write_field(fields[i].0.as_str(), value.as_str()));
                    assert(text::views(parts@) =~= text::views(before).push(
                        field_text(fields@[i as int].0@, value_text(fields@[i as int].1)),
                    ));
                    i += 1;
                }
                write_fields(parts.as_slice())
            },
        }
    }

    /// A copy of this value.
    pub fn copy(&self) -> (r: Value)
        ensures
            r@ == self@,
            value_text(r) == value_text(*self),
        decreases *self,
    {
        match self {
            Value::Null => Value::Null,
            Value::Bool(b) => Value::Bool(*b),
            Value::Number(n) => Value::Number(n.copy()),
            Value::String(s) => Value::String(s.clone()),
            Value::Array(items) => {
                let mut copies: Vec<Value> = Vec::new();
                let mut i: usize = 0;
                while i < items.len()
                    invariant
                        *self == Value::Array(*items),
                        i <= items@.len(),
                        copies@.len() == i,
                        forall|j: int|
                            0 <= j < i ==> (#[trigger] copies@[j])@ == items@[j]@ && value_text(
                                copies@[j],
                            ) == value_text(items@[j]),
                    decreases items@.len() - i,
                {
                    proof {
                        assert(decreases_to!(*self => self->Array_0));
                        assert(decreases_to!(items => items@));
                        assert(decreases_to!(items@ => items@[i as int]));
                    }
                    copies.push(items[i].copy());
                    i += 1;
                }
                let r = Value::Array(copies);
                proof {
                    lemma_same_item_texts(copies@, items@, items@.len());
                    assert(r@->Array_0 =~= self@->Array_0);
                }
                r
            },
            Value::Object(object) => {
                let fields = &object.fields;
                let mut copies: Vec<(String, Value)> = Vec::new();
                let mut i: usize = 0;
                while i < fields.len()
                    invariant
                        *self == Value::Object(*object),
                        *fields == object.fields,
                        i <= fields@.len(),
                        copies@.len() == i,
                        forall|j: int|
                            0 <= j < i ==> (#[trigger] copies@[j]).0@ == fields@[j].0@
                                && copies@[j].1@ == fields@[j].1@ && value_text(copies@[j].1)
                                == value_text(fields@[j].1),
                    decreases fields@.len() - i,
                {
                    proof {
                        assert(decreases_to!(*self => self->Object_0));
                        assert(decreases_to!(object => object.fields));
                        assert(decreases_to!(fields => fields@));
                        assert(decreases_to!(fields@ => fields@[i as int]));
                        assert(decreases_to!(fields@[i as int] => fields@[i as int].1));
                    }
                    copies.push((fields[i].0.clone(), fields[i].1.copy()));
                    i += 1;
                }
                proof {
                    use_type_invariant(object);
                    assert(fields_of(copies@) =~= object@);
                }
                let r = Value::Object(Object { fields: copies });
                proof {
                    lemma_same_entry_texts(copies@, fields@, fields@.len());
                    assert(r@->Object_0 =~= self@->Object_0);
                }
                r
            },
        }
    }

    /// Whether both values hold the same.
    pub fn equals(&self, other: &Value) -> (r: bool)
        ensures
            r == (self@ == other@),
        decreases *self,
    {
        match (self, other) {
            (Value::Null, Value::Null) => true,
            (Value::Bool(a), Value::Bool(b)) => *a == *b,
            (Value::Number(a), Value::Number(b)) => a.equals(b),
            (Value::String(a), Value::String(b)) => same_text(a.as_str(), b.as_str()),
            (Value::Array(a), Value::Array(b)) => {
                if a.len() != b.len() {
                    assert(self@->Array_0.len() != other@->Array_0.len());
                    return false;
                }
                let mut i: usize = 0;
                while i < a.len()
                    invariant
                        *self == Value::Array(*a),
                        *other == Value::Array(*b),
                        a@.len() == b@.len(),
                        i <= a@.len(),
                        forall|j: int| 0 <= j < i ==> self@->Array_0[j] == other@->Array_0[j],
                    decreases a@.len() - i,
                {
                    proof {
                        assert(decreases_to!(*self => self->Array_0));
                        assert(decreases_to!(a => a@));
                        assert(decreases_to!(a@ => a@[i as int]));
                    }
                    if !a[i].equals(&b[i]) {
                        assert(self@->Array_0[i as int] != other@->Array_0[i as int]);
                        return false;
                    }
                    i += 1;
                }
                assert(self@->Array_0 =~= other@->Array_0);
                true
            },
            (Value::Object(x), Value::Object(y)) => {
                let a = &x.fields;
                let b = &y.fields;
                if a.len() != b.len() {
                    assert(self@->Object_0.len() != other@->Object_0.len());
                    return false;
                }
                let mut i: usize = 0;
                while i < a.len()
                    invariant
                        *self == Value::Object(*x),
                        *other == Value::Object(*y),
                        *a == x.fields,
                        *b == y.fields,
                        a@.len() == b@.len(),
                        i <= a@.len(),
                        forall|j: int| 0 <= j < i ==> self@->Object_0[j] == other@->Object_0[j],
                    decreases a@.len() - i,
                {
                    proof {
                        assert(decreases_to!(*self => self->Object_0));
                        assert(decreases_to!(x => x.fields));
                        assert(decreases_to!(a => a@));
                        assert(decreases_to!(a@ => a@[i as int]));
                        assert(decreases_to!(a@[i as int] => a@[i as int].1));
                    }
                    if !same_text(a[i].0.as_str(), b[i].0.as_str()) || !a[i].1.equals(&b[i].1) {
                        assert(self@->Object_0[i as int] != other@->Object_0[i as int]);
                        return false;
                    }
                    i += 1;
                }
                assert(self@->Object_0 =~= other@->Object_0);
                true
            },
            _ => false,
        }
    }
}

// --- Laws ---

/// A value holds what it is made of: a boolean itself, a string its text, an array
/// what its items hold, each in its place.
pub proof fn values_hold_what_they_are_made_of(value: Value, i: int)
    ensures
        value is Null <==> value@ == Json::Null,
        value matches Value::Bool(b) ==> value@ == Json::Bool(b),
        value matches Value::Number(n) ==> value@ == Json::Number(n@),
        value matches Value::String(s) ==> value@ == Json::String(s@),
        value matches Value::Array(items) ==> {
            &&& value@ is Array
            &&& value@->Array_0.len() == items@.len()
            &&& 0 <= i < items@.len() ==> value@->Array_0[i] == items@[i]@
        },
        value matches Value::Object(object) ==> {
            &&& value@ is Object
            &&& value@->Object_0.len() == object@.len()
            &&& 0 <= i < object@.len() ==> value@->Object_0[i] == object@[i]
        },
{
}

/// An array is written in brackets, with a comma between each two of its items.
pub proof fn lists_are_written_item_by_item(items: Seq<Seq<char>>, item: Seq<char>)
    ensures
        list_text(Seq::empty()) == "[]"@,
        list_text(seq![item]) == "["@ + item + "]"@,
        items.len() > 0 ==> list_text(items.push(item)) == list_text(items).drop_last() + ","@ + item
            + "]"@,
{
    reveal_strlit("[]");
    reveal_strlit("[");
    reveal_strlit("]");
    assert(text::joined(Seq::<Seq<char>>::empty(), ","@) =~= Seq::<char>::empty());
    assert(list_text(Seq::empty()) =~= "[]"@);
    if items.len() > 0 {
        text::parts_are_joined_in_order(items, item, ","@);
        assert(list_text(items).drop_last() =~= "["@ + text::joined(items, ","@));
        assert(list_text(items.push(item)) =~= list_text(items).drop_last() + ","@ + item + "]"@);
    }
}

/// An object is written in braces, with a comma between each two of its fields.
pub proof fn objects_are_written_field_by_field(fields: Seq<Seq<char>>, field: Seq<char>)
    ensures
        fields_text(Seq::empty()) == "{}"@,
        fields_text(seq![field]) == "{"@ + field + "}"@,
        fields.len() > 0 ==> fields_text(fields.push(field)) == fields_text(fields).drop_last()
            + ","@ + field + "}"@,
{
    reveal_strlit("{}");
    reveal_strlit("{");
    reveal_strlit("}");
    assert(text::joined(Seq::<Seq<char>>::empty(), ","@) =~= Seq::<char>::empty());
    assert(fields_text(Seq::empty()) =~= "{}"@);
    if fields.len() > 0 {
        text::parts_are_joined_in_order(fields, field, ","@);
        assert(fields_text(fields).drop_last() =~= "{"@ + text::joined(fields, ","@));
        assert(fields_text(fields.push(field)) =~= fields_text(fields).drop_last() + ","@ + field
            + "}"@);
    }
}

/// A field is written as its key in quotes, a colon and its value.
pub proof fn fields_are_written_with_their_key(key: Seq<char>, value: Seq<char>)
    ensures
        field_text(key, value) == json_quoted(key) + ":"@ + value,
        text::begins_with(field_text(key, value), json_quoted(key)),
        text::finishes_with(field_text(key, value), value),
{
    let whole = field_text(key, value);
    let quoted_key = json_quoted(key);
    assert(whole.subrange(0, quoted_key.len() as int) =~= quoted_key);
    assert(whole.subrange(whole.len() - value.len(), whole.len() as int) =~= value);
}

/// Every item of an array and every field of an object stands in its text.
pub proof fn parts_stand_in_their_whole(parts: Seq<Seq<char>>, i: int)
    requires
        0 <= i < parts.len(),
    ensures
        text::contains_text(list_text(parts), parts[i]),
        text::contains_text(fields_text(parts), parts[i]),
{
    let inner = text::joined(parts, ","@);
    text::joined_parts_are_contained(parts, ","@, i);
    text::framed_text_is_contained("["@, inner, "]"@);
    text::containment_is_transitive(list_text(parts), inner, parts[i]);
    text::framed_text_is_contained("{"@, inner, "}"@);
    text::containment_is_transitive(fields_text(parts), inner, parts[i]);
}

proof fn lemma_item_texts_by_index(items: Seq<Value>, n: nat, i: int)
    requires
        0 <= i < n <= items.len(),
    ensures
        item_texts(items, n).len() == n,
        item_texts(items, n)[i] == value_text(items[i]),
    decreases n,
{
    if n == 1 {
        assert(item_texts(items, 0) =~= Seq::<Seq<char>>::empty());
    } else if i < n - 1 {
        lemma_item_texts_by_index(items, (n - 1) as nat, i);
    } else {
        lemma_item_texts_by_index(items, (n - 1) as nat, 0);
    }
}

proof fn lemma_entry_texts_by_index(entries: Seq<(String, Value)>, n: nat, i: int)
    requires
        0 <= i < n <= entries.len(),
    ensures
        entry_texts(entries, n).len() == n,
        entry_texts(entries, n)[i] == field_text(entries[i].0@, value_text(entries[i].1)),
    decreases n,
{
    if n == 1 {
        assert(entry_texts(entries, 0) =~= Seq::<Seq<char>>::empty());
    } else if i < n - 1 {
        lemma_entry_texts_by_index(entries, (n - 1) as nat, i);
    } else {
        lemma_entry_texts_by_index(entries, (n - 1) as nat, 0);
    }
}

/// Null and the booleans are written as words, a string in quotes.
pub proof fn simple_values_are_written_as_words(value: Value)
    ensures
        value is Null ==> value_text(value) == "null"@,
        value == Value::Bool(true) ==> value_text(value) == "true"@,
        value == Value::Bool(false) ==> value_text(value) == "false"@,
        value matches Value::Number(n) ==> value_text(value) == number::number_text(n),
        value matches Value::String(s) ==> value_text(value) == json_quoted(s@),
{
}

/// The text of an array shows every one of its items, and that of an object every
/// one of its fields.
pub proof fn values_are_written_in_full(value: Value, i: int)
    ensures
        value matches Value::Array(items) ==> 0 <= i < items@.len() ==> text::contains_text(
            value_text(value),
            value_text(items@[i]),
        ),
        value matches Value::Object(object) ==> 0 <= i < object.entries().len()
            ==> text::contains_text(
            value_text(value),
            json_quoted(object.entries()[i].0@) + ":"@ + value_text(object.entries()[i].1),
        ),
{
    match value {
        Value::Array(items) => {
            if 0 <= i < items@.len() {
                lemma_item_texts_by_index(items@, items@.len(), i);
                parts_stand_in_their_whole(item_texts(items@, items@.len()), i);
            }
        },
        Value::Object(object) => {
            let entries = object.entries();
            if 0 <= i < entries.len() {
                lemma_entry_texts_by_index(entries, entries.len(), i);
                parts_stand_in_their_whole(entry_texts(entries, entries.len()), i);
            }
        },
        _ => {},
    }
}

/// The keys of an object ascend, in whatever order its fields were given.
pub proof fn objects_have_ascending_keys(fields: Seq<(Seq<char>, Json)>, i: int, j: int)
    requires
        0 <= i < j < object_of(fields).len(),
    ensures
        text::text_before(object_of(fields)[i].0, object_of(fields)[j].0),
{
    lemma_object_ascending(fields);
}

proof fn lemma_object_ascending(fields: Seq<(Seq<char>, Json)>)
    ensures
        ascending(object_of(fields)),
    decreases fields.len(),
{
    if fields.len() > 0 {
        lemma_object_ascending(fields.drop_last());
        lemma_with_field_ascending(
            object_of(fields.drop_last()),
            fields.last().0,
            fields.last().1,
        );
    }
}

} // verus!
