//! Helpers of the OpenBar API client: query-string encoding, `deepObject`
//! parameters and content types.

use vstd::prelude::*;
use vstd::string::to_string_from_display_ensures;
use vstd::utf8::encode_utf8;
use crate::text::{chars_of, contains_text, decimal, has_infix, has_prefix, push_decimal, push_text, starts_with};

verus! {

/// A JSON value, as the API client reads it.
///
/// A number is held as the text that JSON writes for it.
#[derive(Debug)]
pub enum JsonValue {
    Null,
    Bool(bool),
    Number(String),
    String(String),
    Array(Vec<JsonValue>),
    Object(Vec<(String, JsonValue)>),
}

/// The JSON text of a value that is neither a string, an array nor an object.
pub open spec fn scalar_text(v: JsonValue) -> Seq<char> {
    match v {
        JsonValue::Null => "null"@,
        JsonValue::Bool(b) => if b {
            "true"@
        } else {
            "false"@
        },
        JsonValue::Number(n) => n@,
        _ => Seq::<char>::empty(),
    }
}

/// `prefix[key]`.
pub open spec fn bracketed(prefix: Seq<char>, key: Seq<char>) -> Seq<char> {
    prefix + seq!['['] + key + seq![']']
}

/// A value that `deepObject` style can flatten: an object whose arrays, at any
/// depth, hold objects only.
pub open spec fn deep_object_ok(v: JsonValue) -> bool
    decreases v, 0nat,
{
    match v {
        JsonValue::Object(fields) => fields_ok(fields@, fields@.len()),
        _ => false,
    }
}

/// The first `n` fields of an object can be flattened.
pub open spec fn fields_ok(fields: Seq<(String, JsonValue)>, n: nat) -> bool
    decreases fields, n,
{
    if n == 0 {
        true
    } else if n > fields.len() {
        false
    } else {
        fields_ok(fields, (n - 1) as nat) && field_ok(fields[n - 1].1)
    }
}

/// A field value that `deepObject` style can flatten.
pub open spec fn field_ok(v: JsonValue) -> bool
    decreases v, 0nat,
{
    match v {
        JsonValue::Object(fields) => fields_ok(fields@, fields@.len()),
        JsonValue::Array(elems) => elems_ok(elems@, elems@.len()),
        _ => true,
    }
}

/// The first `n` elements of an array field are objects that can be flattened.
pub open spec fn elems_ok(elems: Seq<JsonValue>, n: nat) -> bool
    decreases elems, n,
{
    if n == 0 {
        true
    } else if n > elems.len() {
        false
    } else {
        elems_ok(elems, (n - 1) as nat) && deep_object_ok(elems[n - 1])
    }
}

/// Each of the first `n` fields can be flattened.
proof fn lemma_fields_ok(fields: Seq<(String, JsonValue)>, n: nat, i: int)
    requires
        fields_ok(fields, n),
        0 <= i < n,
    ensures
        field_ok(fields[i].1),
    decreases n,
{
    if i < n - 1 {
        lemma_fields_ok(fields, (n - 1) as nat, i);
    }
}

/// Each of the first `n` elements can be flattened.
proof fn lemma_elems_ok(elems: Seq<JsonValue>, n: nat, i: int)
    requires
        elems_ok(elems, n),
        0 <= i < n,
    ensures
        deep_object_ok(elems[i]),
    decreases n,
{
    if i < n - 1 {
        lemma_elems_ok(elems, (n - 1) as nat, i);
    }
}

/// The (name, value) pairs of a `deepObject` parameter named `prefix` whose
/// value is `v`.
pub open spec fn deep_pairs(prefix: Seq<char>, v: JsonValue) -> Seq<(Seq<char>, Seq<char>)>
    decreases v, 0nat,
{
    match v {
        JsonValue::Object(fields) => fields_pairs(prefix, fields@, fields@.len()),
        _ => Seq::empty(),
    }
}

/// The pairs of the first `n` fields of an object under `prefix`.
pub open spec fn fields_pairs(prefix: Seq<char>, fields: Seq<(String, JsonValue)>, n: nat) -> Seq<
    (Seq<char>, Seq<char>),
>
    decreases fields, n,
{
    if n == 0 || n > fields.len() {
        Seq::empty()
    } else {
        fields_pairs(prefix, fields, (n - 1) as nat) + entry_pairs(
            bracketed(prefix, fields[n - 1].0@),
            fields[n - 1].1,
        )
    }
}

/// The pairs of one field, whose name, with the prefix, is `name`.
pub open spec fn entry_pairs(name: Seq<char>, v: JsonValue) -> Seq<(Seq<char>, Seq<char>)>
    decreases v, 0nat,
{
    match v {
        JsonValue::Object(fields) => fields_pairs(name, fields@, fields@.len()),
        JsonValue::Array(elems) => elems_pairs(name, elems@, elems@.len()),
        JsonValue::String(s) => seq![(name, s@)],
        _ => seq![(name, scalar_text(v))],
    }
}

/// The pairs of the first `n` elements of an array field named `name`: element
/// `i` is flattened under `name[i]`.
pub open spec fn elems_pairs(name: Seq<char>, elems: Seq<JsonValue>, n: nat) -> Seq<
    (Seq<char>, Seq<char>),
>
    decreases elems, n,
{
    if n == 0 || n > elems.len() {
        Seq::empty()
    } else {
        elems_pairs(name, elems, (n - 1) as nat) + deep_pairs(
            bracketed(name, decimal((n - 1) as nat)),
            elems[n - 1],
        )
    }
}

/// A name built on `prefix` starts with it.
proof fn lemma_bracketed_prefix(x: Seq<char>, prefix: Seq<char>, key: Seq<char>)
    requires
        starts_with(x, bracketed(prefix, key)),
    ensures
        starts_with(x, prefix),
{
    assert(x.subrange(0, prefix.len() as int) =~= bracketed(prefix, key).subrange(0, prefix.len() as int));
    assert(bracketed(prefix, key).subrange(0, prefix.len() as int) =~= prefix);
}

/// Every pair of a `deepObject` parameter is named under its prefix.
pub proof fn law_deep_names_prefixed(prefix: Seq<char>, v: JsonValue)
    ensures
        forall|i: int| 0 <= i < deep_pairs(prefix, v).len() ==> starts_with(#[trigger] deep_pairs(prefix, v)[i].0, prefix),
    decreases v, 0nat,
{
    match v {
        JsonValue::Object(fields) => {
            assert(decreases_to!(v => v->Object_0));
            assert(decreases_to!(fields => fields@));
            lemma_fields_prefixed(prefix, fields@, fields@.len());
            assert(deep_pairs(prefix, v) == fields_pairs(prefix, fields@, fields@.len()));
        },
        _ => {},
    }
}

/// The pairs of the first `n` fields are named under the prefix.
proof fn lemma_fields_prefixed(prefix: Seq<char>, fields: Seq<(String, JsonValue)>, n: nat)
    ensures
        forall|i: int| 0 <= i < fields_pairs(prefix, fields, n).len() ==> starts_with(#[trigger] fields_pairs(prefix, fields, n)[i].0, prefix),
    decreases fields, n,
{
    if n > 0 && n <= fields.len() {
        lemma_fields_prefixed(prefix, fields, (n - 1) as nat);
        let key = fields[n - 1].0@;
        let value = fields[n - 1].1;
        assert(decreases_to!(fields => fields[n - 1]));
        assert(decreases_to!(fields[n - 1] => fields[n - 1].1));
        lemma_entry_prefixed(bracketed(prefix, key), value);
        let a = fields_pairs(prefix, fields, (n - 1) as nat);
        let b = entry_pairs(bracketed(prefix, key), value);
        assert forall|i: int| 0 <= i < fields_pairs(prefix, fields, n).len() implies starts_with(#[trigger] fields_pairs(prefix, fields, n)[i].0, prefix) by {
            if i < a.len() {
                assert(fields_pairs(prefix, fields, n)[i] == a[i]);
            } else {
                assert(fields_pairs(prefix, fields, n)[i] == b[i - a.len()]);
                lemma_bracketed_prefix(b[i - a.len()].0, prefix, key);
            }
        }
    }
}

/// The pairs of one field are named under its full name.
proof fn lemma_entry_prefixed(name: Seq<char>, v: JsonValue)
    ensures
        forall|i: int| 0 <= i < entry_pairs(name, v).len() ==> starts_with(#[trigger] entry_pairs(name, v)[i].0, name),
    decreases v, 0nat,
{
    match v {
        JsonValue::Object(fields) => {
            assert(decreases_to!(v => v->Object_0));
            assert(decreases_to!(fields => fields@));
            lemma_fields_prefixed(name, fields@, fields@.len());
            assert(entry_pairs(name, v) == fields_pairs(name, fields@, fields@.len()));
        },
        JsonValue::Array(elems) => {
            assert(decreases_to!(v => v->Array_0));
            assert(decreases_to!(elems => elems@));
            lemma_elems_prefixed(name, elems@, elems@.len());
            assert(entry_pairs(name, v) == elems_pairs(name, elems@, elems@.len()));
        },
        _ => {
            assert(entry_pairs(name, v)[0].0 == name);
            assert(name.subrange(0, name.len() as int) =~= name);
        },
    }
}

/// The pairs of the first `n` elements of an array field are named under the field's name.
proof fn lemma_elems_prefixed(name: Seq<char>, elems: Seq<JsonValue>, n: nat)
    ensures
        forall|i: int| 0 <= i < elems_pairs(name, elems, n).len() ==> starts_with(#[trigger] elems_pairs(name, elems, n)[i].0, name),
    decreases elems, n,
{
    if n > 0 && n <= elems.len() {
        lemma_elems_prefixed(name, elems, (n - 1) as nat);
        let index = decimal((n - 1) as nat);
        assert(decreases_to!(elems => elems[n - 1]));
        law_deep_names_prefixed(bracketed(name, index), elems[n - 1]);
        let a = elems_pairs(name, elems, (n - 1) as nat);
        let b = deep_pairs(bracketed(name, index), elems[n - 1]);
        assert forall|i: int| 0 <= i < elems_pairs(name, elems, n).len() implies starts_with(#[trigger] elems_pairs(name, elems, n)[i].0, name) by {
            if i < a.len() {
                assert(elems_pairs(name, elems, n)[i] == a[i]);
            } else {
                assert(elems_pairs(name, elems, n)[i] == b[i - a.len()]);
                lemma_bracketed_prefix(b[i - a.len()].0, name, index);
            }
        }
    }
}

/// The text of a field value that is neither an object nor an array: a string
/// as it is, anything else as JSON writes it.
pub open spec fn plain_text(v: JsonValue) -> Seq<char> {
    match v {
        JsonValue::String(s) => s@,
        _ => scalar_text(v),
    }
}

/// A field value that is neither an object nor an array.
pub open spec fn is_plain(v: JsonValue) -> bool {
    !(v is Object) && !(v is Array)
}

/// An object whose fields are all plain values gives exactly one pair per field,
/// in order: `prefix[key]` with the value's text, an empty string included.
pub proof fn law_plain_fields(prefix: Seq<char>, fields: Vec<(String, JsonValue)>)
    requires
        forall|i: int| 0 <= i < fields@.len() ==> is_plain(#[trigger] fields@[i].1),
    ensures
        deep_pairs(prefix, JsonValue::Object(fields)).len() == fields@.len(),
        forall|i: int|
            0 <= i < fields@.len() ==> #[trigger] deep_pairs(prefix, JsonValue::Object(fields))[i] == (
                bracketed(prefix, fields@[i].0@),
                plain_text(fields@[i].1),
            ),
{
    lemma_plain_fields(prefix, fields@, fields@.len());
    assert(deep_pairs(prefix, JsonValue::Object(fields)) == fields_pairs(prefix, fields@, fields@.len()));
}

/// The first `n` plain fields give one pair each.
proof fn lemma_plain_fields(prefix: Seq<char>, fields: Seq<(String, JsonValue)>, n: nat)
    requires
        n <= fields.len(),
        forall|i: int| 0 <= i < fields.len() ==> is_plain(#[trigger] fields[i].1),
    ensures
        fields_pairs(prefix, fields, n).len() == n,
        forall|i: int| 0 <= i < n ==> #[trigger] fields_pairs(prefix, fields, n)[i] == (bracketed(prefix, fields[i].0@), plain_text(fields[i].1)),
    decreases n,
{
    if n > 0 {
        lemma_plain_fields(prefix, fields, (n - 1) as nat);
        let v = fields[n - 1].1;
        assert(is_plain(v));
        let name = bracketed(prefix, fields[n - 1].0@);
        assert(entry_pairs(name, v) =~= seq![(name, plain_text(v))]);
        let a = fields_pairs(prefix, fields, (n - 1) as nat);
        assert forall|i: int| 0 <= i < n implies #[trigger] fields_pairs(prefix, fields, n)[i] == (bracketed(prefix, fields[i].0@), plain_text(fields[i].1)) by {
            if i < n - 1 {
                assert(fields_pairs(prefix, fields, n)[i] == a[i]);
            }
        }
    }
}

/// The texts of a list of (name, value) pairs.
pub open spec fn pair_texts(v: Seq<(String, String)>) -> Seq<(Seq<char>, Seq<char>)> {
    v.map_values(|p: (String, String)| (p.0@, p.1@))
}

/// `prefix[key]`.
fn bracket(prefix: &str, key: &str) -> (r: String)
    ensures
        r@ == bracketed(prefix@, key@),
{
    let mut r = prefix.to_owned();
    push_text(&mut r, "[");
    push_text(&mut r, key);
    push_text(&mut r, "]");
    proof {
        reveal_strlit("[");
        reveal_strlit("]");
    }
    assert(r@ =~= bracketed(prefix@, key@));
    r
}

/// `prefix[i]`.
fn bracket_index(prefix: &str, i: usize) -> (r: String)
    ensures
        r@ == bracketed(prefix@, decimal(i as nat)),
{
    let mut r = prefix.to_owned();
    push_text(&mut r, "[");
    push_decimal(&mut r, i as u64);
    push_text(&mut r, "]");
    proof {
        reveal_strlit("[");
        reveal_strlit("]");
    }
    assert(r@ =~= bracketed(prefix@, decimal(i as nat)));
    r
}

/// The JSON text of a value that is neither a string, an array nor an object.
fn scalar_string(v: &JsonValue) -> (r: String)
    ensures
        r@ == scalar_text(*v),
{
    match v {
        JsonValue::Null => "null".to_owned(),
        JsonValue::Bool(b) => if *b {
            "true".to_owned()
        } else {
            "false".to_owned()
        },
        JsonValue::Number(n) => n.clone(),
        _ => String::new(),
    }
}

/// Flattens an object parameter in `deepObject` style: each field becomes a
/// `prefix[key]` pair, nested objects and the objects of arrays (under
/// `prefix[key][i]`) are flattened in turn. Only objects are supported, at the
/// top and inside arrays.
pub fn parse_deep_object(prefix: &str, value: &JsonValue) -> (params: Vec<(String, String)>)
    requires
        deep_object_ok(*value),
    ensures
        pair_texts(params@) == deep_pairs(prefix@, *value),
    decreases *value, 0nat,
{
    match value {
        JsonValue::Object(object) => {
            let mut params: Vec<(String, String)> = Vec::new();
            let mut i: usize = 0;
            while i < object.len()
                invariant
                    i <= object.len(),
                    deep_object_ok(*value),
                    *value == JsonValue::Object(*object),
                    pair_texts(params@) == fields_pairs(prefix@, object@, i as nat),
                decreases object.len() - i,
            {
                let key = &object[i].0;
                let field = &object[i].1;
                proof {
                    lemma_fields_ok(object@, object@.len(), i as int);
                    assert(decreases_to!(*value => value->Object_0));
                    assert(decreases_to!(*object => object@));
                    assert(decreases_to!(object@ => object@[i as int]));
                    assert(decreases_to!(object@[i as int] => object@[i as int].1));
                }
                let name = bracket(prefix, key.as_str());
                let ghost before = pair_texts(params@);
                let mut more = field_params(name.as_str(), field);
                let ghost added = pair_texts(more@);
                params.append(&mut more);
                assert(pair_texts(params@) =~= before + added);
                i = i + 1;
            }
            params
        },
        _ => Vec::new(),
    }
}

/// The pairs of one field value, under its full name `name`.
fn field_params(name: &str, value: &JsonValue) -> (params: Vec<(String, String)>)
    requires
        field_ok(*value),
    ensures
        pair_texts(params@) == entry_pairs(name@, *value),
    decreases *value, 1nat,
{
    match value {
        JsonValue::Object(_) => parse_deep_object(name, value),
        JsonValue::Array(array) => {
            let mut params: Vec<(String, String)> = Vec::new();
            let mut i: usize = 0;
            while i < array.len()
                invariant
                    i <= array.len(),
                    field_ok(*value),
                    *value == JsonValue::Array(*array),
                    pair_texts(params@) == elems_pairs(name@, array@, i as nat),
                decreases array.len() - i,
            {
                let elem = &array[i];
                proof {
                    lemma_elems_ok(array@, array@.len(), i as int);
                    assert(decreases_to!(*value => value->Array_0));
                    assert(decreases_to!(*array => array@));
                    assert(decreases_to!(array@ => array@[i as int]));
                }
                let elem_name = bracket_index(name, i);
                let ghost before = pair_texts(params@);
                let mut more = parse_deep_object(elem_name.as_str(), elem);
                let ghost added = pair_texts(more@);
                params.append(&mut more);
                assert(pair_texts(params@) =~= before + added);
                i = i + 1;
            }
            params
        },
        JsonValue::String(s) => {
            let params = vec![(name.to_owned(), s.clone())];
            assert(pair_texts(params@) =~= entry_pairs(name@, *value));
            params
        },
        _ => {
            let params = vec![(name.to_owned(), scalar_string(value))];
            assert(pair_texts(params@) =~= entry_pairs(name@, *value));
            params
        },
    }
}

/// A byte that `application/x-www-form-urlencoded` leaves as it is:
/// `*`, `-`, `.`, `_`, digits and ASCII letters.
pub open spec fn form_unreserved(b: u8) -> bool {
    b == 42 || b == 45 || b == 46 || (48 <= b <= 57) || (65 <= b <= 90) || b == 95 || (97 <= b <= 122)
}

/// The uppercase hexadecimal digit of `d` (for `d < 16`).
pub open spec fn upper_hex(d: nat) -> char {
    if d < 10 {
        (48 + d) as char
    } else {
        (55 + d) as char
    }
}

/// The encoding of one byte: itself when unreserved, `+` for a space, and
/// `%` with two uppercase hexadecimal digits otherwise.
pub open spec fn form_byte(b: u8) -> Seq<char> {
    if form_unreserved(b) {
        seq![b as char]
    } else if b == 32 {
        seq!['+']
    } else {
        seq!['%', upper_hex((b / 16) as nat), upper_hex((b % 16) as nat)]
    }
}

/// The `application/x-www-form-urlencoded` encoding of `bytes`, byte by byte.
pub open spec fn form_urlencoded(bytes: Seq<u8>) -> Seq<char>
    decreases bytes.len(),
{
    if bytes.len() == 0 {
        Seq::<char>::empty()
    } else {
        form_urlencoded(bytes.drop_last()) + form_byte(bytes.last())
    }
}

/// The form-urlencoded text of `bytes`, by `url::form_urlencoded::byte_serialize`
/// collected into a string. Trusted: the text is `form_urlencoded(bytes)`, each
/// byte encoded by itself as the crate's serializer does (unreserved bytes kept,
/// a space as `+`, any other byte as `%` and two uppercase hexadecimal digits).
#[verifier::external_body]
fn byte_serialize(bytes: &[u8]) -> (r: String)
    ensures
        r@ == form_urlencoded(bytes@),
{
    url::form_urlencoded::byte_serialize(bytes).collect()
}

/// Encodes `s` for a query string: the `application/x-www-form-urlencoded`
/// encoding of its UTF-8 bytes.
pub fn urlencode(s: &str) -> (r: String)
    ensures
        r@ == form_urlencoded(encode_utf8(s@)),
{
    byte_serialize(s.as_bytes())
}

/// A character that can appear in a form-urlencoded text: an ASCII character
/// that is unreserved (the hexadecimal digits among them), `+` or `%`.
pub open spec fn form_char(c: char) -> bool {
    (c as u32) < 128 && (form_unreserved(c as u8) || c == '+' || c == '%')
}

/// Form-urlencoded text holds only the characters of that encoding: no space,
/// no reserved character, nothing outside ASCII.
pub proof fn law_urlencoded_alphabet(bytes: Seq<u8>)
    ensures
        forall|i: int| 0 <= i < form_urlencoded(bytes).len() ==> form_char(#[trigger] form_urlencoded(bytes)[i]),
    decreases bytes.len(),
{
    if bytes.len() > 0 {
        law_urlencoded_alphabet(bytes.drop_last());
        let b = bytes.last();
        let prev = form_urlencoded(bytes.drop_last());
        let tail = form_byte(b);
        assert forall|i: int| 0 <= i < tail.len() implies form_char(#[trigger] tail[i]) by {
            if form_unreserved(b) {
                assert(tail[i] == b as char);
                assert((b as char) as u8 == b);
            } else if b != 32 {
                if i == 1 {
                    assert(b / 16 < 16);
                }
                if i == 2 {
                    assert(b % 16 < 16);
                }
            }
        }
        assert forall|i: int| 0 <= i < form_urlencoded(bytes).len() implies form_char(#[trigger] form_urlencoded(bytes)[i]) by {
            if i < prev.len() {
                assert(form_urlencoded(bytes)[i] == prev[i]);
            } else {
                assert(form_urlencoded(bytes)[i] == tail[i - prev.len()]);
            }
        }
    }
}

/// A byte that writes a hexadecimal digit, in either case.
pub open spec fn is_hex_byte(b: u8) -> bool {
    (48 <= b <= 57) || (65 <= b <= 70) || (97 <= b <= 102)
}

/// The value of a hexadecimal digit byte.
pub open spec fn hex_value(b: u8) -> nat {
    if b <= 57 {
        (b - 48) as nat
    } else if b <= 70 {
        (b - 55) as nat
    } else {
        (b - 87) as nat
    }
}

/// Form-urlencoded bytes decoded: `+` as a space, `%` followed by two
/// hexadecimal digits as the byte they write, and any other byte as itself.
pub open spec fn form_decode(t: Seq<u8>) -> Seq<u8>
    decreases t.len(),
{
    if t.len() == 0 {
        Seq::<u8>::empty()
    } else if t[0] == 43 {
        seq![32u8] + form_decode(t.drop_first())
    } else if t[0] == 37 && t.len() >= 3 && is_hex_byte(t[1]) && is_hex_byte(t[2]) {
        seq![(hex_value(t[1]) * 16 + hex_value(t[2])) as u8] + form_decode(t.subrange(3, t.len() as int))
    } else {
        seq![t[0]] + form_decode(t.drop_first())
    }
}

/// The bytes of a text of ASCII characters: each character's code.
pub open spec fn ascii_bytes(t: Seq<char>) -> Seq<u8> {
    t.map_values(|c: char| (c as u32) as u8)
}

/// The UTF-8 encoding of ASCII text is the characters' codes.
proof fn lemma_ascii_encoding(t: Seq<char>)
    requires
        forall|i: int| 0 <= i < t.len() ==> (#[trigger] t[i] as u32) < 128,
    ensures
        encode_utf8(t) == ascii_bytes(t),
    decreases t.len(),
{
    if t.len() > 0 {
        let c0 = t[0] as u32;
        assert(c0 < 128);
        assert(c0 as u8 == vstd::utf8::leading_byte_width_1(c0)) by (bit_vector)
            requires
                c0 < 128,
        ;
        let rest = t.drop_first();
        assert forall|i: int| 0 <= i < rest.len() implies (#[trigger] rest[i] as u32) < 128 by {
            assert(rest[i] == t[i + 1]);
        }
        lemma_ascii_encoding(rest);
        assert(ascii_bytes(t) =~= seq![c0 as u8] + ascii_bytes(rest));
    } else {
        assert(ascii_bytes(t) =~= Seq::<u8>::empty());
    }
}

/// The encoding read from its first byte on.
proof fn lemma_form_front(bytes: Seq<u8>)
    requires
        bytes.len() > 0,
    ensures
        form_urlencoded(bytes) == form_byte(bytes[0]) + form_urlencoded(bytes.drop_first()),
    decreases bytes.len(),
{
    if bytes.len() == 1 {
        assert(bytes.drop_last() =~= Seq::<u8>::empty());
        assert(bytes.drop_first() =~= Seq::<u8>::empty());
        assert(form_urlencoded(Seq::<u8>::empty()) =~= Seq::<char>::empty());
        assert(bytes.last() == bytes[0]);
        assert(form_urlencoded(bytes) =~= form_byte(bytes[0]));
        assert(form_byte(bytes[0]) + Seq::<char>::empty() =~= form_byte(bytes[0]));
    } else {
        let init = bytes.drop_last();
        lemma_form_front(init);
        assert(init.drop_first() =~= bytes.drop_first().drop_last());
        assert(bytes.drop_first().last() == bytes.last());
        assert(init[0] == bytes[0]);
        let a = form_byte(bytes[0]);
        let m = form_urlencoded(init.drop_first());
        let z = form_byte(bytes.last());
        assert((a + m) + z =~= a + (m + z));
    }
}

/// Decoding gives back each byte from its encoding.
proof fn lemma_decode_byte(x: u8, rest: Seq<u8>)
    ensures
        form_decode(ascii_bytes(form_byte(x)) + rest) == seq![x] + form_decode(rest),
{
    let t = ascii_bytes(form_byte(x)) + rest;
    if form_unreserved(x) {
        assert((x as char) as u8 == x);
        assert(t[0] == x);
        assert(t.drop_first() =~= rest);
    } else if x == 32 {
        assert(t[0] == 43);
        assert(t.drop_first() =~= rest);
    } else {
        let hi = (x / 16) as nat;
        let lo = (x % 16) as nat;
        assert(t[0] == 37);
        assert(t[1] == upper_hex(hi) as u8);
        assert(t[2] == upper_hex(lo) as u8);
        assert(is_hex_byte(t[1]) && hex_value(t[1]) == hi);
        assert(is_hex_byte(t[2]) && hex_value(t[2]) == lo);
        assert(hi * 16 + lo == x);
        assert(t.subrange(3, t.len() as int) =~= rest);
    }
}

/// Decoding the bytes of the encoding of `bytes` gives back `bytes`.
proof fn lemma_decode_encoding(bytes: Seq<u8>)
    ensures
        form_decode(ascii_bytes(form_urlencoded(bytes))) == bytes,
    decreases bytes.len(),
{
    if bytes.len() == 0 {
        assert(ascii_bytes(form_urlencoded(bytes)) =~= Seq::<u8>::empty());
    } else {
        lemma_form_front(bytes);
        let head = form_byte(bytes[0]);
        let tail = form_urlencoded(bytes.drop_first());
        assert(ascii_bytes(head + tail) =~= ascii_bytes(head) + ascii_bytes(tail));
        lemma_decode_byte(bytes[0], ascii_bytes(tail));
        lemma_decode_encoding(bytes.drop_first());
        assert(seq![bytes[0]] + bytes.drop_first() =~= bytes);
    }
}

/// Encoding is undone by decoding: the UTF-8 bytes of the encoded text of
/// `bytes`, decoded, are `bytes` again.
pub proof fn law_urlencode_round_trip(bytes: Seq<u8>)
    ensures
        form_decode(encode_utf8(form_urlencoded(bytes))) == bytes,
{
    let t = form_urlencoded(bytes);
    law_urlencoded_alphabet(bytes);
    assert forall|i: int| 0 <= i < t.len() implies (#[trigger] t[i] as u32) < 128 by {
        assert(form_char(t[i]));
    }
    lemma_ascii_encoding(t);
    lemma_decode_encoding(bytes);
}

/// A content type supported by this client.
#[derive(Debug)]
pub enum ContentType {
    Json,
    Text,
    Unsupported(String),
}

/// A JSON content type: an `application` type whose name mentions `json`.
pub open spec fn is_json_type(t: Seq<char>) -> bool {
    starts_with(t, "application"@) && contains_text(t, "json"@)
}

/// A plain text content type.
pub open spec fn is_text_type(t: Seq<char>) -> bool {
    starts_with(t, "text/plain"@)
}

/// Which content types are JSON and which plain text: a type is JSON exactly
/// when it starts with `application` and mentions `json` anywhere, so
/// `application/json` followed by any parameters is JSON; a type that starts
/// with `text/plain` is plain text, whatever follows.
pub proof fn law_content_types(t: Seq<char>, params: Seq<char>)
    ensures
        is_json_type(t) <==> (t.len() >= 11 && t.subrange(0, 11) == seq!['a', 'p', 'p', 'l', 'i', 'c', 'a', 't', 'i', 'o', 'n']
            && exists|i: int| 0 <= i && i + 4 <= t.len() && #[trigger] t.subrange(i, i + 4) == seq!['j', 's', 'o', 'n']),
        is_text_type(t) <==> (t.len() >= 10 && t.subrange(0, 10) == seq!['t', 'e', 'x', 't', '/', 'p', 'l', 'a', 'i', 'n']),
        is_json_type("application/json"@ + params),
        is_text_type("text/plain"@ + params),
        !is_json_type("text/plain"@ + params),
{
    reveal_strlit("application");
    reveal_strlit("json");
    reveal_strlit("application/json");
    reveal_strlit("text/plain");
    assert("application"@ =~= seq!['a', 'p', 'p', 'l', 'i', 'c', 'a', 't', 'i', 'o', 'n']);
    assert("json"@ =~= seq!['j', 's', 'o', 'n']);
    assert("text/plain"@ =~= seq!['t', 'e', 'x', 't', '/', 'p', 'l', 'a', 'i', 'n']);
    let j = "application/json"@ + params;
    assert(j.subrange(0, 11) =~= "application"@);
    assert(j.subrange(12, 16) =~= "json"@);
    assert(j.subrange(12, 12 + "json"@.len() as int) == "json"@);
    assert(contains_text(j, "json"@));
    assert(starts_with(j, "application"@));
    let x = "text/plain"@ + params;
    assert(x.subrange(0, 10) =~= "text/plain"@);
    assert(x[0] == 't');
    if starts_with(x, "application"@) {
        assert(x.subrange(0, 11)[0] == 'a');
    }
}

impl ContentType {
    /// The content type named by a `Content-Type` header value.
    pub fn from(content_type: &str) -> (r: Self)
        ensures
            is_json_type(content_type@) ==> r is Json,
            !is_json_type(content_type@) && is_text_type(content_type@) ==> r is Text,
            !is_json_type(content_type@) && !is_text_type(content_type@) ==> (r matches ContentType::Unsupported(t) && t@ == content_type@),
    {
        let chars = chars_of(content_type);
        if has_prefix(&chars, &chars_of("application")) && has_infix(&chars, &chars_of("json")) {
            return Self::Json;
        } else if has_prefix(&chars, &chars_of("text/plain")) {
            return Self::Text;
        } else {
            return Self::Unsupported(content_type.to_owned());
        }
    }
}

/// `reqwest::Error`, declared so that the errors can carry it; nothing about its
/// contents is known to the proofs.
#[verifier::external_type_specification]
#[verifier::external_body]
pub struct ExReqwestError(reqwest::Error);

/// `serde_json::Error`, declared so that the errors can carry it; nothing about its
/// contents is known to the proofs.
#[verifier::external_type_specification]
#[verifier::external_body]
pub struct ExSerdeJsonError(serde_json::Error);

/// `std::io::Error`, declared so that the errors can carry it; nothing about its
/// contents is known to the proofs.
#[verifier::external_type_specification]
#[verifier::external_body]
pub struct ExIoError(std::io::Error);

/// `reqwest::StatusCode`, declared so that the errors can carry it; nothing about its
/// contents is known to the proofs.
#[verifier::external_type_specification]
#[verifier::external_body]
pub struct ExStatusCode(reqwest::StatusCode);

/// A response that the API client could not accept.
#[derive(Debug)]
pub struct ResponseContent<T> {
    pub status: reqwest::StatusCode,
    pub content: String,
    pub entity: Option<T>,
}

impl<T: Clone> Clone for ResponseContent<T> {
    fn clone(&self) -> (r: Self)
        ensures
            r.status == self.status,
            r.content == self.content,
            r.entity is Some <==> self.entity is Some,
            r.entity is Some ==> cloned::<T>(self.entity->0, r.entity->0),
    {
        ResponseContent { status: self.status, content: self.content.clone(), entity: self.entity.clone() }
    }
}

/// The errors of the API client.
#[derive(Debug)]
pub enum ApiError<T> {
    Reqwest(reqwest::Error),
    Serde(serde_json::Error),
    Io(std::io::Error),
    ResponseError(ResponseContent<T>),
}

/// The message of an error from `module` with the description `detail`.
pub open spec fn error_line(module: Seq<char>, detail: Seq<char>) -> Seq<char> {
    "error in "@ + module + ": "@ + detail
}

/// The message of an error from `module` with the description `detail`.
pub fn error_text(module: &str, detail: &str) -> (r: String)
    ensures
        r@ == error_line(module@, detail@),
{
    let mut r = "error in ".to_owned();
    push_text(&mut r, module);
    push_text(&mut r, ": ");
    push_text(&mut r, detail);
    assert(r@ =~= error_line(module@, detail@));
    r
}

impl<T> ApiError<T> {
    /// The error's message: `error in <module>: <description>`, the description
    /// being the wrapped error's own text, or `status code <status>` for a
    /// rejected response.
    pub fn message(&self) -> (r: String)
        ensures
            match *self {
                ApiError::Reqwest(e) => exists|t: String|
                    #[trigger] to_string_from_display_ensures::<reqwest::Error>(&e, t) && r@ == error_line("reqwest"@, t@),
                ApiError::Serde(e) => exists|t: String|
                    #[trigger] to_string_from_display_ensures::<serde_json::Error>(&e, t) && r@ == error_line("serde"@, t@),
                ApiError::Io(e) => exists|t: String|
                    #[trigger] to_string_from_display_ensures::<std::io::Error>(&e, t) && r@ == error_line("IO"@, t@),
                ApiError::ResponseError(c) => exists|t: String|
                    #[trigger] to_string_from_display_ensures::<reqwest::StatusCode>(&c.status, t) && r@ == error_line("response"@, "status code "@ + t@),
            },
    {
        match self {
            ApiError::Reqwest(e) => {
                let t = e.to_string();
                error_text("reqwest", t.as_str())
            },
            ApiError::Serde(e) => {
                let t = e.to_string();
                error_text("serde", t.as_str())
            },
            ApiError::Io(e) => {
                let t = e.to_string();
                error_text("IO", t.as_str())
            },
            ApiError::ResponseError(c) => {
                let t = c.status.to_string();
                let mut d = "status code ".to_owned();
                push_text(&mut d, t.as_str());
                error_text("response", d.as_str())
            },
        }
    }
}

impl<T> From<reqwest::Error> for ApiError<T> {
    fn from(e: reqwest::Error) -> (r: Self) {
        ApiError::Reqwest(e)
    }
}

impl<T> vstd::std_specs::convert::FromSpecImpl<reqwest::Error> for ApiError<T> {
    open spec fn obeys_from_spec() -> bool {
        true
    }

    open spec fn from_spec(e: reqwest::Error) -> Self {
        ApiError::Reqwest(e)
    }
}

impl<T> From<serde_json::Error> for ApiError<T> {
    fn from(e: serde_json::Error) -> (r: Self) {
        ApiError::Serde(e)
    }
}

impl<T> vstd::std_specs::convert::FromSpecImpl<serde_json::Error> for ApiError<T> {
    open spec fn obeys_from_spec() -> bool {
        true
    }

    open spec fn from_spec(e: serde_json::Error) -> Self {
        ApiError::Serde(e)
    }
}

impl<T> From<std::io::Error> for ApiError<T> {
    fn from(e: std::io::Error) -> (r: Self) {
        ApiError::Io(e)
    }
}

impl<T> vstd::std_specs::convert::FromSpecImpl<std::io::Error> for ApiError<T> {
    open spec fn obeys_from_spec() -> bool {
        true
    }

    open spec fn from_spec(e: std::io::Error) -> Self {
        ApiError::Io(e)
    }
}

} // verus!
