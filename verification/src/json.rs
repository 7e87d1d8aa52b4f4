//! A model of JSON values: what the logic of the crate reads from tool
//! schemas and configuration files, and what it hands back as data.
use vstd::prelude::*;
use crate::text::{push_str, string_of};

verus! {

broadcast use vstd::string::group_string_axioms;

/// A JSON value. Numbers are kept as their JSON text; object members are
/// kept in the order the object holds them.
pub enum Json {
    Null,
    Bool(bool),
    Number(String),
    Str(String),
    Array(Vec<Json>),
    Object(Vec<(String, Json)>),
}

// ---------------------------------------------------------------------------
// Reading values
// ---------------------------------------------------------------------------

/// The value of the first member of `m` named `key`.
pub open spec fn member(m: Seq<(String, Json)>, key: Seq<char>) -> Option<Json>
    decreases m.len(),
{
    if m.len() == 0 {
        None
    } else if m[0].0@ == key {
        Some(m[0].1)
    } else {
        member(m.drop_first(), key)
    }
}

/// `Value::get` with a string key: the member named `key` of an object, and
/// nothing for any other value.
pub open spec fn get(j: Json, key: Seq<char>) -> Option<Json> {
    match j {
        Json::Object(m) => member(m@, key),
        _ => None,
    }
}

/// The text of a string value.
pub open spec fn as_str(j: Json) -> Option<Seq<char>> {
    match j {
        Json::Str(s) => Some(s@),
        _ => None,
    }
}

/// `get(j, key)` followed by `as_str`.
pub open spec fn str_member(j: Json, key: Seq<char>) -> Option<Seq<char>> {
    match get(j, key) {
        Some(v) => as_str(v),
        None => None,
    }
}

impl Json {
    /// `Value::get` with a string key.
    pub fn get<'a>(&'a self, key: &str) -> (r: Option<&'a Json>)
        ensures
            r matches Some(v) ==> get(*self, key@) == Some(*v),
            r is None ==> get(*self, key@) is None,
    {
        match self {
            Json::Object(m) => {
                let k = crate::text::string_from(key);
                let mut i: usize = 0;
                assert(m@.skip(0) == m@);
                while i < m.len()
                    invariant
                        i <= m.len(),
                        k@ == key@,
                        *self == Json::Object(*m),
                        member(m@, key@) == member(m@.skip(i as int), key@),
                    decreases m.len() - i,
                {
                    assert(m@.skip(i as int).drop_first() == m@.skip(i + 1));
                    assert(m@.skip(i as int)[0] == m@[i as int]);
                    let found = m[i].0 == k;
                    assert(found == (m@[i as int].0@ == key@));
                    if found {
                        return Some(&m[i].1);
                    }
                    i = i + 1;
                }
                None
            },
            _ => None,
        }
    }

    /// `Value::as_str`.
    pub fn as_str(&self) -> (r: Option<&String>)
        ensures
            r matches Some(s) ==> as_str(*self) == Some(s@),
            r is None ==> as_str(*self) is None,
    {
        match self {
            Json::Str(s) => Some(s),
            _ => None,
        }
    }

    /// `Value::as_array`.
    pub fn as_array(&self) -> (r: Option<&Vec<Json>>)
        ensures
            r matches Some(v) ==> *self == Json::Array(*v),
            r is None ==> !(*self is Array),
    {
        match self {
            Json::Array(v) => Some(v),
            _ => None,
        }
    }

    /// `Value::as_object`.
    pub fn as_object(&self) -> (r: Option<&Vec<(String, Json)>>)
        ensures
            r matches Some(m) ==> *self == Json::Object(*m),
            r is None ==> !(*self is Object),
    {
        match self {
            Json::Object(m) => Some(m),
            _ => None,
        }
    }
}

/// `get(j, key)` followed by `as_str`.
pub fn get_str<'a>(j: &'a Json, key: &str) -> (r: Option<&'a String>)
    ensures
        r matches Some(s) ==> str_member(*j, key@) == Some(s@),
        r is None ==> str_member(*j, key@) is None,
{
    match j.get(key) {
        Some(v) => v.as_str(),
        None => None,
    }
}


/// The position of the first member of `m` named `key`, or -1.
pub open spec fn member_index(m: Seq<(String, Json)>, key: Seq<char>) -> int
    decreases m.len(),
{
    if m.len() == 0 {
        -1
    } else if m[0].0@ == key {
        0
    } else {
        let r = member_index(m.drop_first(), key);
        if r < 0 {
            -1
        } else {
            r + 1
        }
    }
}

pub proof fn lemma_member_index(m: Seq<(String, Json)>, key: Seq<char>)
    ensures
        -1 <= member_index(m, key) < m.len(),
        member_index(m, key) >= 0 ==> member(m, key) == Some(m[member_index(m, key)].1),
        member_index(m, key) >= 0 ==> m[member_index(m, key)].0@ == key,
        member_index(m, key) < 0 ==> member(m, key) is None,
    decreases m.len(),
{
    if m.len() > 0 && m[0].0@ != key {
        lemma_member_index(m.drop_first(), key);
    }
}

/// Whether two values are the same JSON value: same variant, same texts,
/// same items and members in the same order.
pub open spec fn same(a: Json, b: Json) -> bool
    decreases a,
{
    match (a, b) {
        (Json::Null, Json::Null) => true,
        (Json::Bool(x), Json::Bool(y)) => x == y,
        (Json::Number(x), Json::Number(y)) => x@ == y@,
        (Json::Str(x), Json::Str(y)) => x@ == y@,
        (Json::Array(x), Json::Array(y)) => x@.len() == y@.len() && forall|i: int|
            0 <= i < x@.len() ==> same(#[trigger] x@[i], y@[i]),
        (Json::Object(x), Json::Object(y)) => x@.len() == y@.len() && forall|i: int|
            0 <= i < x@.len() ==> (#[trigger] x@[i]).0@ == y@[i].0@ && same(x@[i].1, y@[i].1),
        _ => false,
    }
}

/// A copy of a value.
pub fn copy_json(j: &Json) -> (r: Json)
    ensures
        same(r, *j),
    decreases j,
{
    match j {
        Json::Null => Json::Null,
        Json::Bool(b) => Json::Bool(*b),
        Json::Number(t) => Json::Number(t.clone()),
        Json::Str(s) => Json::Str(s.clone()),
        Json::Array(v) => {
            let mut out: Vec<Json> = Vec::new();
            let mut i: usize = 0;
            while i < v.len()
                invariant
                    i <= v.len(),
                    out@.len() == i,
                    *j == Json::Array(*v),
                    forall|k: int| 0 <= k < i ==> same(#[trigger] out@[k], v@[k]),
                decreases v.len() - i,
            {
                proof {
                    assert(decreases_to!(*j => (*j)->Array_0));
                    assert(decreases_to!(*v => v@));
                    assert(decreases_to!(v@ => v@[i as int]));
                }
                let c = copy_json(&v[i]);
                out.push(c);
                i = i + 1;
            }
            let r = Json::Array(out);
            assert(same(r, *j));
            r
        },
        Json::Object(m) => {
            let mut out: Vec<(String, Json)> = Vec::new();
            let mut i: usize = 0;
            while i < m.len()
                invariant
                    i <= m.len(),
                    out@.len() == i,
                    *j == Json::Object(*m),
                    forall|k: int|
                        0 <= k < i ==> (#[trigger] out@[k]).0@ == m@[k].0@ && same(out@[k].1, m@[k].1),
                decreases m.len() - i,
            {
                proof {
                    assert(decreases_to!(*j => (*j)->Object_0));
                    assert(decreases_to!(*m => m@));
                    assert(decreases_to!(m@ => m@[i as int]));
                    assert(decreases_to!(m@[i as int] => m@[i as int].1));
                }
                let c = copy_json(&m[i].1);
                out.push((m[i].0.clone(), c));
                i = i + 1;
            }
            let r = Json::Object(out);
            assert(same(r, *j));
            r
        },
    }
}

// ---------------------------------------------------------------------------
// Parsing
// ---------------------------------------------------------------------------

/// `serde_json::Value`, the value `serde_json::from_str` parses into.
#[verifier::external_type_specification]
#[verifier::external_body]
pub struct ExValue(serde_json::Value);

/// What `serde_json::from_str::<serde_json::Value>` gives for a text, in the
/// library's model: the value (numbers as their JSON text, object members in
/// the order of `serde_json`'s map), or nothing when the text is not JSON.
pub uninterp spec fn parsed_json(text: Seq<char>) -> Option<Json>;

/// A `serde_json::Value` in the library's model, one variant for one:
/// numbers as the text `Number::to_string` gives, object members in the
/// order the map iterates them.
#[verifier::external_body]
fn json_of_value(v: &serde_json::Value) -> Json {
    match v {
        serde_json::Value::Null => Json::Null,
        serde_json::Value::Bool(b) => Json::Bool(*b),
        serde_json::Value::Number(n) => Json::Number(n.to_string()),
        serde_json::Value::String(s) => Json::Str(s.clone()),
        serde_json::Value::Array(a) => Json::Array(a.iter().map(json_of_value).collect()),
        serde_json::Value::Object(m) => Json::Object(m.iter().map(|(k, x)| (k.clone(), json_of_value(x))).collect()),
    }
}

/// `serde_json::from_str::<serde_json::Value>`: the JSON value of a text, or
/// `None` when the text is not JSON. The contract names the result; the
/// JSON grammar behind it is not restated here.
#[verifier::external_body]
pub(crate) fn parse_json(text: &str) -> (r: Option<Json>)
    ensures
        r == parsed_json(text@),
{
    match serde_json::from_str::<serde_json::Value>(text) {
        Ok(v) => Some(json_of_value(&v)),
        Err(_) => None,
    }
}

// ---------------------------------------------------------------------------
// Compact rendering
// ---------------------------------------------------------------------------

/// The lowercase hexadecimal digit of `n` (below 16).
pub open spec fn hex_digit(n: nat) -> char {
    if n < 10 {
        (n + 48) as char
    } else {
        (n + 87) as char
    }
}

/// How a character is written inside a JSON string: `"` and `\` behind a
/// backslash; backspace, tab, line feed, form feed and carriage return as
/// `\b`, `\t`, `\n`, `\f`, `\r`; the other control characters below 0x20
/// as `\u00` and two lowercase hexadecimal digits; any other character as
/// itself.
pub open spec fn escaped_char(c: char) -> Seq<char> {
    let u = c as u32;
    if c == '"' {
        seq!['\\', '"']
    } else if c == '\\' {
        seq!['\\', '\\']
    } else if u == 8 {
        seq!['\\', 'b']
    } else if u == 9 {
        seq!['\\', 't']
    } else if u == 10 {
        seq!['\\', 'n']
    } else if u == 12 {
        seq!['\\', 'f']
    } else if u == 13 {
        seq!['\\', 'r']
    } else if u < 32 {
        seq!['\\', 'u', '0', '0', hex_digit((u / 16) as nat), hex_digit((u % 16) as nat)]
    } else {
        seq![c]
    }
}

/// The characters of a string, each written as in a JSON string.
pub open spec fn json_escaped(s: Seq<char>) -> Seq<char>
    decreases s.len(),
{
    if s.len() == 0 {
        seq![]
    } else {
        json_escaped(s.drop_last()) + escaped_char(s.last())
    }
}

/// What `serde_json::to_string` gives for a string: the string in double
/// quotes, with JSON escapes.
pub open spec fn json_quoted(s: Seq<char>) -> Seq<char> {
    seq!['"'] + json_escaped(s) + seq!['"']
}

/// `serde_json::to_string` on a string: its characters in double quotes,
/// each escaped as `format_escaped_str` writes it (see [`escaped_char`]).
/// Serializing a `str` into a vector cannot fail.
#[verifier::external_body]
pub(crate) fn quote_json(s: &str) -> (r: String)
    ensures
        r@ == json_quoted(s@),
{
    match serde_json::to_string(s) {
        Ok(t) => t,
        Err(_) => String::new(),
    }
}

/// The compact JSON text of a value, as `Value::to_string` writes it: no
/// white space, strings quoted and escaped, numbers as their text.
pub open spec fn compact(j: Json) -> Seq<char>
    decreases j, 1nat, 0nat,
{
    match j {
        Json::Null => "null"@,
        Json::Bool(b) => if b { "true"@ } else { "false"@ },
        Json::Number(t) => t@,
        Json::Str(s) => json_quoted(s@),
        Json::Array(v) => seq!['['] + compact_items(j, v@.len()) + seq![']'],
        Json::Object(m) => seq!['{'] + compact_items(j, m@.len()) + seq!['}'],
    }
}

/// The compact text of the first `n` items of an array or members of an
/// object, separated by commas.
pub open spec fn compact_items(j: Json, n: nat) -> Seq<char>
    decreases j, 0nat, n,
{
    match j {
        Json::Array(v) => if n == 0 || n > v@.len() {
            seq![]
        } else if n == 1 {
            compact(v@[0])
        } else {
            compact_items(j, (n - 1) as nat) + seq![','] + compact(v@[n - 1])
        },
        Json::Object(m) => if n == 0 || n > m@.len() {
            seq![]
        } else if n == 1 {
            json_quoted(m@[0].0@) + seq![':'] + compact(m@[0].1)
        } else {
            compact_items(j, (n - 1) as nat) + seq![','] + json_quoted(m@[n - 1].0@) + seq![
                ':',
            ] + compact(m@[n - 1].1)
        },
        _ => seq![],
    }
}

/// Appends the compact JSON text of `j` to `out`.
pub fn write_compact(j: &Json, out: &mut Vec<char>)
    ensures
        final(out)@ == old(out)@ + compact(*j),
    decreases j,
{
    match j {
        Json::Null => push_str(out, "null"),
        Json::Bool(b) => if *b {
            push_str(out, "true")
        } else {
            push_str(out, "false")
        },
        Json::Number(t) => push_str(out, t.as_str()),
        Json::Str(s) => {
            let q = quote_json(s.as_str());
            push_str(out, q.as_str());
        },
        Json::Array(v) => {
            let ghost start = out@;
            out.push('[');
            let mut i: usize = 0;
            while i < v.len()
                invariant
                    i <= v.len(),
                    *j == Json::Array(*v),
                    out@ == start + seq!['['] + compact_items(*j, i as nat),
                decreases v.len() - i,
            {
                if i > 0 {
                    out.push(',');
                }
                proof {
                    assert(decreases_to!(*j => (*j)->Array_0));
                    assert(decreases_to!(*v => v@));
                    assert(decreases_to!(v@ => v@[i as int]));
                    assert(decreases_to!(*j => v@[i as int]));
                }
                write_compact(&v[i], out);
                i = i + 1;
            }
            out.push(']');
        },
        Json::Object(m) => {
            let ghost start = out@;
            out.push('{');
            let mut i: usize = 0;
            while i < m.len()
                invariant
                    i <= m.len(),
                    *j == Json::Object(*m),
                    out@ == start + seq!['{'] + compact_items(*j, i as nat),
                decreases m.len() - i,
            {
                if i > 0 {
                    out.push(',');
                }
                let q = quote_json(m[i].0.as_str());
                push_str(out, q.as_str());
                out.push(':');
                proof {
                    assert(decreases_to!(*j => (*j)->Object_0));
                    assert(decreases_to!(*m => m@));
                    assert(decreases_to!(m@ => m@[i as int]));
                    assert(decreases_to!(m@[i as int] => m@[i as int].1));
                    assert(decreases_to!(*j => m@[i as int].1));
                }
                write_compact(&m[i].1, out);
                i = i + 1;
            }
            out.push('}');
        },
    }
}

/// The compact JSON text of a value.
pub fn compact_string(j: &Json) -> (r: String)
    ensures
        r@ == compact(*j),
{
    let mut out: Vec<char> = Vec::new();
    write_compact(j, &mut out);
    string_of(&out)
}

} // verus!
