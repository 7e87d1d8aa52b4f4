//! The aggregated catalog of tools of all connected servers, and the
//! TypeScript declarations generated from it.
use vstd::prelude::*;
use crate::json::{
    str_member, as_str, compact, copy_json, get, get_str, lemma_member_index, member_index, same, write_compact, Json,
};
use crate::order::{count_in, distinct_in_order, insert_sorted, is_sorted_set_of, strictly_sorted, tally};
use crate::text::{
    chars_of, copy_string, decimal, decimal_chars, is_ascii_alnum, is_ascii_alpha, push_all, push_str, replace,
    replace_chars, string_from, string_of, views, starts_with, lemma_replace_absent,
};

verus! {

broadcast use vstd::string::group_string_axioms;

/// A tool with the name of the server that owns it.
pub struct CatalogEntry {
    pub server: String,
    pub name: String,
    pub description: String,
    pub input_schema: Json,
}

/// What the catalog reads of a tool advertised by a server.
pub struct ToolInfo {
    pub name: String,
    pub description: Option<String>,
    pub input_schema: Json,
}

/// The tools of all connected servers, in the order they were registered.
pub struct Catalog {
    entries: Vec<CatalogEntry>,
}

// ---------------------------------------------------------------------------
// Identifiers
// ---------------------------------------------------------------------------

/// A JavaScript identifier of ASCII letters, digits, `_` and `$`, not starting
/// with a digit.
pub open spec fn is_js_ident(s: Seq<char>) -> bool {
    &&& s.len() > 0
    &&& (is_ascii_alpha(s[0]) || s[0] == '_' || s[0] == '$')
    &&& forall|i: int| 1 <= i < s.len() ==> (is_ascii_alnum(#[trigger] s[i]) || s[i] == '_' || s[i] == '$')
}

/// Whether `s` is a plain JavaScript identifier.
pub fn is_valid_js_ident(s: &Vec<char>) -> (r: bool)
    ensures
        r == is_js_ident(s@),
{
    if s.len() == 0 {
        return false;
    }
    let first = s[0];
    if !(('a' <= first && first <= 'z') || ('A' <= first && first <= 'Z') || first == '_' || first
        == '$') {
        return false;
    }
    let mut i: usize = 1;
    while i < s.len()
        invariant
            1 <= i <= s.len(),
            forall|k: int| 1 <= k < i ==> (is_ascii_alnum(#[trigger] s@[k]) || s@[k] == '_' || s@[k] == '$'),
        decreases s.len() - i,
    {
        let c = s[i];
        if !(('a' <= c && c <= 'z') || ('A' <= c && c <= 'Z') || ('0' <= c && c <= '9') || c == '_'
            || c == '$') {
            return false;
        }
        i = i + 1;
    }
    true
}

// ---------------------------------------------------------------------------
// Schemas to TypeScript
// ---------------------------------------------------------------------------

/// Whether `name` is listed as a string in the `required` array of a schema.
pub open spec fn is_required(schema: Json, name: Seq<char>) -> bool {
    match get(schema, "required"@) {
        Some(Json::Array(v)) => exists|i: int| 0 <= i < v@.len() && as_str(#[trigger] v@[i]) == Some(name),
        _ => false,
    }
}

/// One property of a parameter list: `name: type`, with the name quoted
/// when it is not an identifier and marked `?` when it is not required.
pub open spec fn param_text(schema: Json, name: Seq<char>, ts: Seq<char>) -> Seq<char> {
    let quoted = if is_js_ident(name) { name } else { seq!['"'] + name + seq!['"'] };
    let optional = if is_required(schema, name) { seq![] } else { seq!['?'] };
    quoted + optional + ": "@ + ts
}

/// An enum value as a TypeScript literal: strings in double quotes, other
/// values as their compact JSON text.
pub open spec fn literal(v: Json) -> Seq<char> {
    match v {
        Json::Str(s) => seq!['"'] + s@ + seq!['"'],
        _ => compact(v),
    }
}

/// The literals of the first `n` values, joined by ` | `.
pub open spec fn literals(v: Seq<Json>, n: nat) -> Seq<char>
    decreases n,
{
    if n == 0 || n > v.len() {
        seq![]
    } else if n == 1 {
        literal(v[0])
    } else {
        literals(v, (n - 1) as nat) + " | "@ + literal(v[n - 1])
    }
}

/// The TypeScript type of a JSON schema.
pub open spec fn ts_type(j: Json) -> Seq<char>
    decreases j, 2nat, 0nat,
{
    match j {
        Json::Object(m) => {
            let ei = member_index(m@, "enum"@);
            if 0 <= ei < m@.len() && m@[ei].1 is Array {
                literals(m@[ei].1->Array_0@, m@[ei].1->Array_0@.len())
            } else {
                let ti = member_index(m@, "type"@);
                let t = if 0 <= ti < m@.len() && m@[ti].1 is Str {
                    m@[ti].1->Str_0@
                } else {
                    "any"@
                };
                if t == "string"@ {
                    "string"@
                } else if t == "number"@ || t == "integer"@ {
                    "number"@
                } else if t == "boolean"@ {
                    "boolean"@
                } else if t == "null"@ {
                    "null"@
                } else if t == "array"@ {
                    let ii = member_index(m@, "items"@);
                    if 0 <= ii < m@.len() {
                        ts_type(m@[ii].1) + "[]"@
                    } else {
                        "any[]"@
                    }
                } else if t == "object"@ {
                    let pi = member_index(m@, "properties"@);
                    if 0 <= pi < m@.len() && m@[pi].1 is Object {
                        if m@[pi].1->Object_0@.len() == 0 {
                            "Record<string, any>"@
                        } else {
                            "{ "@ + ts_params(j) + " }"@
                        }
                    } else {
                        "Record<string, any>"@
                    }
                } else {
                    "any"@
                }
            }
        },
        _ => "any"@,
    }
}

/// A schema whose `enum` member is an array is the union of the literals of
/// its values, joined by ` | `, whatever its `type` member says; without
/// such an `enum`, a `type` of `string`, `number` or `integer`, `boolean`
/// or `null` gives that TypeScript type, and a schema that is no object is
/// `any`.
pub proof fn law_enum_before_type(schema: Json)
    ensures
        get(schema, "enum"@) matches Some(Json::Array(v)) ==> ts_type(schema) == literals(v@, v@.len()),
        schema is Object && !(get(schema, "enum"@) matches Some(Json::Array(_))) ==> {
            &&& str_member(schema, "type"@) == Some("string"@) ==> ts_type(schema) == "string"@
            &&& str_member(schema, "type"@) == Some("number"@) ==> ts_type(schema) == "number"@
            &&& str_member(schema, "type"@) == Some("integer"@) ==> ts_type(schema) == "number"@
            &&& str_member(schema, "type"@) == Some("boolean"@) ==> ts_type(schema) == "boolean"@
            &&& str_member(schema, "type"@) == Some("null"@) ==> ts_type(schema) == "null"@
        },
        !(schema is Object) ==> ts_type(schema) == "any"@,
{
    match schema {
        Json::Object(m) => {
            lemma_member_index(m@, "enum"@);
            lemma_member_index(m@, "type"@);
            reveal_strlit("string");
            reveal_strlit("number");
            reveal_strlit("integer");
            reveal_strlit("boolean");
            reveal_strlit("null");
            assert("string"@ != "number"@) by {
                assert("string"@[0] != "number"@[0]);
            }
            assert("integer"@ != "boolean"@) by {
                assert("integer"@[0] != "boolean"@[0]);
            }
            assert("string"@.len() != "integer"@.len() && "string"@.len() != "boolean"@.len());
            assert("string"@.len() != "null"@.len() && "number"@.len() != "integer"@.len());
            assert("number"@.len() != "boolean"@.len() && "number"@.len() != "null"@.len());
            assert("integer"@.len() != "null"@.len() && "boolean"@.len() != "null"@.len());
        },
        _ => {},
    }
}

/// The parameter list of an object schema: its properties, in order,
/// joined by `; `; empty when it has no `properties` object.
pub open spec fn ts_params(j: Json) -> Seq<char>
    decreases j, 1nat, 0nat,
{
    match j {
        Json::Object(m) => {
            let pi = member_index(m@, "properties"@);
            if 0 <= pi < m@.len() && m@[pi].1 is Object {
                ts_param_list(j, m@[pi].1->Object_0@.len())
            } else {
                seq![]
            }
        },
        _ => seq![],
    }
}

/// The first `n` properties of the parameter list of `j`.
pub open spec fn ts_param_list(j: Json, n: nat) -> Seq<char>
    decreases j, 0nat, n,
{
    match j {
        Json::Object(m) => {
            let pi = member_index(m@, "properties"@);
            if 0 <= pi < m@.len() {
                match m@[pi].1 {
                    Json::Object(pm) => if n == 0 || n > pm@.len() {
                        seq![]
                    } else {
                        let prev = if n == 1 {
                            seq![]
                        } else {
                            ts_param_list(j, (n - 1) as nat) + "; "@
                        };
                        prev + param_text(j, pm@[n - 1].0@, ts_type(pm@[n - 1].1))
                    },
                    _ => seq![],
                }
            } else {
                seq![]
            }
        },
        _ => seq![],
    }
}

/// Whether `name` is listed as a string in the `required` array of a schema.
fn is_required_name(schema: &Json, name: &String) -> (r: bool)
    ensures
        r == is_required(*schema, name@),
{
    match schema.get("required") {
        Some(Json::Array(v)) => {
            let mut i: usize = 0;
            while i < v.len()
                invariant
                    i <= v.len(),
                    get(*schema, "required"@) == Some(Json::Array(*v)),
                    forall|k: int| 0 <= k < i ==> as_str(#[trigger] v@[k]) != Some(name@),
                decreases v.len() - i,
            {
                match v[i].as_str() {
                    Some(s) => {
                        if *s == *name {
                            assert(as_str(v@[i as int]) == Some(name@));
                            return true;
                        }
                    },
                    None => {},
                }
                i = i + 1;
            }
            false
        },
        _ => false,
    }
}

/// Appends the TypeScript literal of an enum value to `out`.
fn write_literal(v: &Json, out: &mut Vec<char>)
    ensures
        final(out)@ == old(out)@ + literal(*v),
{
    match v {
        Json::Str(s) => {
            out.push('"');
            push_str(out, s.as_str());
            out.push('"');
        },
        _ => write_compact(v, out),
    }
}

/// The literals of enum values joined by ` | `.
fn enum_literals(vals: &Vec<Json>) -> (r: Vec<char>)
    ensures
        r@ == literals(vals@, vals@.len()),
{
    let mut out: Vec<char> = Vec::new();
    let mut i: usize = 0;
    while i < vals.len()
        invariant
            i <= vals.len(),
            out@ == literals(vals@, i as nat),
        decreases vals.len() - i,
    {
        if i > 0 {
            push_str(&mut out, " | ");
        }
        write_literal(&vals[i], &mut out);
        i = i + 1;
    }
    out
}

/// `json_type_to_ts`: the TypeScript type of a JSON schema.
pub fn json_type_to_ts(schema: &Json) -> (r: Vec<char>)
    ensures
        r@ == ts_type(*schema),
    decreases schema, 2nat, 0nat,
{
    match schema {
        Json::Object(m) => {
            proof {
                lemma_member_index(m@, "enum"@);
                lemma_member_index(m@, "type"@);
                lemma_member_index(m@, "items"@);
                lemma_member_index(m@, "properties"@);
            }
            match schema.get("enum") {
                Some(Json::Array(vals)) => {
                    return enum_literals(vals);
                },
                _ => {},
            }
            let t: String = match get_str(schema, "type") {
                Some(t) => t.clone(),
                None => string_from("any"),
            };
            if t == string_from("string") {
                chars_of("string")
            } else if t == string_from("number") || t == string_from("integer") {
                chars_of("number")
            } else if t == string_from("boolean") {
                chars_of("boolean")
            } else if t == string_from("null") {
                chars_of("null")
            } else if t == string_from("array") {
                match schema.get("items") {
                    Some(items) => {
                        proof {
                            let ii = member_index(m@, "items"@);
                            assert(*items == m@[ii].1);
                            assert(decreases_to!(*schema => (*schema)->Object_0));
                            assert(decreases_to!(*m => m@));
                            assert(decreases_to!(m@ => m@[ii]));
                            assert(decreases_to!(m@[ii] => m@[ii].1));
                        }
                        let mut r = json_type_to_ts(items);
                        push_str(&mut r, "[]");
                        r
                    },
                    None => chars_of("any[]"),
                }
            } else if t == string_from("object") {
                match schema.get("properties") {
                    Some(Json::Object(pm)) => {
                        if pm.len() == 0 {
                            chars_of("Record<string, any>")
                        } else {
                            let mut r = chars_of("{ ");
                            let inner = schema_to_ts_params(schema);
                            push_all(&mut r, &inner);
                            push_str(&mut r, " }");
                            r
                        }
                    },
                    _ => chars_of("Record<string, any>"),
                }
            } else {
                chars_of("any")
            }
        },
        _ => chars_of("any"),
    }
}

/// `schema_to_ts_params`: the parameter list of an object schema.
pub fn schema_to_ts_params(schema: &Json) -> (r: Vec<char>)
    ensures
        r@ == ts_params(*schema),
    decreases schema, 1nat, 0nat,
{
    match schema {
        Json::Object(m) => {
            proof {
                lemma_member_index(m@, "properties"@);
            }
            match schema.get("properties") {
                Some(Json::Object(pm)) => {
                    let ghost pi = member_index(m@, "properties"@);
                    let mut out: Vec<char> = Vec::new();
                    let mut k: usize = 0;
                    while k < pm.len()
                        invariant
                            k <= pm.len(),
                            *schema == Json::Object(*m),
                            0 <= pi < m@.len(),
                            m@[pi].1 == Json::Object(*pm),
                            pi == member_index(m@, "properties"@),
                            out@ == ts_param_list(*schema, k as nat),
                        decreases pm.len() - k,
                    {
                        if k > 0 {
                            push_str(&mut out, "; ");
                        }
                        let name = &pm[k].0;
                        let nv = chars_of(name.as_str());
                        if is_valid_js_ident(&nv) {
                            push_all(&mut out, &nv);
                        } else {
                            out.push('"');
                            push_all(&mut out, &nv);
                            out.push('"');
                        }
                        if !is_required_name(schema, name) {
                            out.push('?');
                        }
                        push_str(&mut out, ": ");
                        proof {
                            assert(decreases_to!(*schema => (*schema)->Object_0));
                            assert(decreases_to!(*m => m@));
                            assert(decreases_to!(m@ => m@[pi]));
                            assert(decreases_to!(m@[pi] => m@[pi].1));
                            assert(decreases_to!(m@[pi].1 => (m@[pi].1)->Object_0));
                            assert(decreases_to!(*pm => pm@));
                            assert(decreases_to!(pm@ => pm@[k as int]));
                            assert(decreases_to!(pm@[k as int] => pm@[k as int].1));
                        }
                        let ts = json_type_to_ts(&pm[k].1);
                        push_all(&mut out, &ts);
                        k = k + 1;
                    }
                    out
                },
                _ => Vec::new(),
            }
        },
        _ => Vec::new(),
    }
}

// ---------------------------------------------------------------------------
// Declarations
// ---------------------------------------------------------------------------

/// The first line of the declarations: the type of the `tools` array.
pub open spec fn declaration_header() -> Seq<char> {
    "declare const tools: Array<{ server: string; name: string; description: string; input_schema: any }>;\n\n"@
}

/// A description as it stands in a doc comment: line breaks become spaces
/// and `*/` becomes `* /`.
pub open spec fn clean_description(d: Seq<char>) -> Seq<char> {
    replace(replace(d, "\n"@, " "@), "*/"@, "* /"@)
}

/// No `*/` stands in `s`: it cannot close a doc comment.
pub open spec fn no_comment_end(s: Seq<char>) -> bool {
    forall|k: int| 0 <= k < s.len() - 1 ==> !(#[trigger] s[k] == '*' && s[k + 1] == '/')
}

proof fn lemma_replace_comment_end(s: Seq<char>)
    ensures
        no_comment_end(replace(s, "*/"@, "* /"@)),
        replace(s, "*/"@, "* /"@).len() > 0 && replace(s, "*/"@, "* /"@)[0] == '/' ==> s.len() > 0 && s[0] == '/',
    decreases s.len(),
{
    reveal_strlit("*/");
    reveal_strlit("* /");
    let p = "*/"@;
    let q = "* /"@;
    if s.len() > 0 {
        if starts_with(s, p) {
            let rest = s.skip(2);
            lemma_replace_comment_end(rest);
            let rr = replace(rest, p, q);
            let r = q + rr;
            assert(replace(s, p, q) == r);
            assert forall|k: int| 0 <= k < r.len() - 1 implies !(#[trigger] r[k] == '*' && r[k + 1] == '/') by {
                if k >= 3 {
                    assert(r[k] == rr[k - 3]);
                    assert(r[k + 1] == rr[k - 2]);
                    assert(!(rr[k - 3] == '*' && rr[k - 3 + 1] == '/'));
                }
            }
            assert(r[0] == '*');
        } else {
            let rest = s.drop_first();
            lemma_replace_comment_end(rest);
            let rr = replace(rest, p, q);
            let r = seq![s[0]] + rr;
            assert(replace(s, p, q) == r);
            assert forall|k: int| 0 <= k < r.len() - 1 implies !(#[trigger] r[k] == '*' && r[k + 1] == '/') by {
                if k >= 1 {
                    assert(r[k] == rr[k - 1]);
                    assert(r[k + 1] == rr[k]);
                    assert(!(rr[k - 1] == '*' && rr[k - 1 + 1] == '/'));
                } else if r[0] == '*' && r[1] == '/' {
                    assert(rr[0] == '/');
                    assert(rest[0] == '/');
                    assert(s.take(2) =~= p);
                }
            }
        }
    }
}

/// A cleaned description holds no line break and no `*/`: it stays on the
/// line of its doc comment and cannot end the comment early.
pub proof fn law_clean_description_is_safe(d: Seq<char>)
    ensures
        !clean_description(d).contains('\n'),
        no_comment_end(clean_description(d)),
{
    reveal_strlit("\n");
    reveal_strlit(" ");
    reveal_strlit("* /");
    let r1 = replace(d, "\n"@, " "@);
    assert("\n"@ == seq!['\n']);
    assert(!" "@.contains('\n')) by {
        assert(" "@[0] != '\n');
    }
    lemma_replace_absent(d, "\n"@, " "@, '\n');
    assert(!"* /"@.contains('\n')) by {
        assert forall|k: int| 0 <= k < 3 implies "* /"@[k] != '\n' by {}
    }
    lemma_replace_absent(r1, "*/"@, "* /"@, '\n');
    lemma_replace_comment_end(r1);
}

/// The declaration of one tool as a method of its server's object.
pub open spec fn tool_decl(e: CatalogEntry) -> Seq<char> {
    let desc = clean_description(e.description@);
    let doc = if desc.len() > 0 { "  /** "@ + desc + " */\n"@ } else { seq![] };
    let name = if is_js_ident(e.name@) { e.name@ } else { seq!['"'] + e.name@ + seq!['"'] };
    doc + "  "@ + name + "(params: { "@ + ts_params(e.input_schema) + " }): Promise<any>;"@ + "\n"@
}

/// The declarations of the tools among the first `n` entries that belong to
/// `server`, in entry order.
pub open spec fn tool_decls(es: Seq<CatalogEntry>, server: Seq<char>, n: nat) -> Seq<char>
    decreases n,
{
    if n == 0 || n > es.len() {
        seq![]
    } else {
        tool_decls(es, server, (n - 1) as nat) + if es[n - 1].server@ == server {
            tool_decl(es[n - 1])
        } else {
            seq![]
        }
    }
}

/// The object declared for a server: its name with `-` replaced by `_`; a
/// server whose name is then no identifier gets no declaration.
pub open spec fn server_block(es: Seq<CatalogEntry>, server: Seq<char>) -> Seq<char> {
    let js = replace(server, "-"@, "_"@);
    if is_js_ident(js) {
        "declare const "@ + js + ": {\n"@ + tool_decls(es, server, es.len()) + "};\n\n"@
    } else {
        seq![]
    }
}

/// The blocks of the first `k` servers of `order`.
pub open spec fn server_blocks(es: Seq<CatalogEntry>, order: Seq<Seq<char>>, k: nat) -> Seq<char>
    decreases k,
{
    if k == 0 || k > order.len() {
        seq![]
    } else {
        server_blocks(es, order, (k - 1) as nat) + server_block(es, order[k - 1])
    }
}

/// The server names of the entries, in entry order.
pub open spec fn servers_of(es: Seq<CatalogEntry>) -> Seq<Seq<char>> {
    es.map_values(|e: CatalogEntry| e.server@)
}

/// The declarations of a catalog whose servers, sorted, are `order`.
pub open spec fn declarations(es: Seq<CatalogEntry>, order: Seq<Seq<char>>) -> Seq<char> {
    declaration_header() + server_blocks(es, order, order.len())
}

fn write_tool_decl(e: &CatalogEntry, out: &mut Vec<char>)
    ensures
        final(out)@ == old(out)@ + tool_decl(*e),
{
    proof {
        reveal_strlit("\n");
        reveal_strlit("*/");
    }
    let d1 = replace_chars(&chars_of(e.description.as_str()), "\n", " ");
    let desc = replace_chars(&d1, "*/", "* /");
    if desc.len() > 0 {
        push_str(out, "  /** ");
        push_all(out, &desc);
        push_str(out, " */\n");
    }
    push_str(out, "  ");
    let nv = chars_of(e.name.as_str());
    if is_valid_js_ident(&nv) {
        push_all(out, &nv);
    } else {
        out.push('"');
        push_all(out, &nv);
        out.push('"');
    }
    push_str(out, "(params: { ");
    let params = schema_to_ts_params(&e.input_schema);
    push_all(out, &params);
    push_str(out, " }): Promise<any>;");
    push_str(out, "\n");
}

/// The server names of the entries, sorted, each once.
pub fn sorted_server_names(es: &[CatalogEntry]) -> (r: Vec<String>)
    ensures
        is_sorted_set_of(views(r@), servers_of(es@)),
{
    let mut order: Vec<String> = Vec::new();
    let mut i: usize = 0;
    while i < es.len()
        invariant
            i <= es@.len(),
            strictly_sorted(views(order@)),
            forall|s: Seq<char>| views(order@).contains(s) <==> servers_of(es@.take(i as int)).contains(s),
        decreases es.len() - i,
    {
        insert_sorted(&mut order, &es[i].server);
        proof {
            let prev = servers_of(es@.take(i as int));
            let next = servers_of(es@.take(i + 1 as int));
            assert(next =~= prev.push(es@[i as int].server@));
            assert forall|s: Seq<char>| next.contains(s) <==> (prev.contains(s) || s == es@[i as int].server@) by {
                if next.contains(s) {
                    let k = choose|k: int| 0 <= k < next.len() && next[k] == s;
                    if k < prev.len() {
                        assert(prev[k] == s);
                    }
                }
                if prev.contains(s) {
                    let k = choose|k: int| 0 <= k < prev.len() && prev[k] == s;
                    assert(next[k] == s);
                }
                if s == es@[i as int].server@ {
                    assert(next[i as int] == s);
                }
            }
        }
        i = i + 1;
    }
    assert(es@.take(es.len() as int) == es@);
    order
}

fn write_server_block(es: &Vec<CatalogEntry>, server: &String, out: &mut Vec<char>)
    ensures
        final(out)@ == old(out)@ + server_block(es@, server@),
{
    proof {
        reveal_strlit("-");
    }
    let js = replace_chars(&chars_of(server.as_str()), "-", "_");
    if !is_valid_js_ident(&js) {
        return;
    }
    push_str(out, "declare const ");
    push_all(out, &js);
    push_str(out, ": {\n");
    let ghost start = out@;
    let mut i: usize = 0;
    while i < es.len()
        invariant
            i <= es.len(),
            out@ == start + tool_decls(es@, server@, i as nat),
        decreases es.len() - i,
    {
        if es[i].server == *server {
            write_tool_decl(&es[i], out);
        }
        i = i + 1;
    }
    push_str(out, "};\n\n");
}

/// The JSON object of an entry, as serializing it gives: its fields as
/// members, in the order of a `serde_json` map (sorted by name).
pub open spec fn is_entry_json(j: Json, e: CatalogEntry) -> bool {
    match j {
        Json::Object(m) => {
            &&& m@.len() == 4
            &&& m@[0].0@ == "description"@ && as_str(m@[0].1) == Some(e.description@)
            &&& m@[1].0@ == "input_schema"@ && same(m@[1].1, e.input_schema)
            &&& m@[2].0@ == "name"@ && as_str(m@[2].1) == Some(e.name@)
            &&& m@[3].0@ == "server"@ && as_str(m@[3].1) == Some(e.server@)
        },
        _ => false,
    }
}

/// The JSON object of an entry.
pub fn entry_to_json(e: &CatalogEntry) -> (r: Json)
    ensures
        is_entry_json(r, *e),
{
    let mut m: Vec<(String, Json)> = Vec::new();
    m.push((string_from("description"), Json::Str(e.description.clone())));
    m.push((string_from("input_schema"), copy_json(&e.input_schema)));
    m.push((string_from("name"), Json::Str(e.name.clone())));
    m.push((string_from("server"), Json::Str(e.server.clone())));
    Json::Object(m)
}

// ---------------------------------------------------------------------------
// Summary
// ---------------------------------------------------------------------------

/// One part of the summary: `name: count tools`.
pub open spec fn summary_part(name: Seq<char>, count: nat) -> Seq<char> {
    name + ": "@ + decimal(count) + " tools"@
}

/// The parts of the first `k` distinct servers, joined by `, `.
pub open spec fn summary_parts(s: Seq<Seq<char>>, d: Seq<Seq<char>>, k: nat) -> Seq<char>
    decreases k,
{
    if k == 0 || k > d.len() {
        seq![]
    } else if k == 1 {
        summary_part(d[0], count_in(s, d[0]))
    } else {
        summary_parts(s, d, (k - 1) as nat) + ", "@ + summary_part(d[k - 1], count_in(s, d[k - 1]))
    }
}

/// The summary line of a catalog: the number of tools, then the number of
/// tools of each server, servers in the order they first occur.
pub open spec fn summary_text(es: Seq<CatalogEntry>) -> Seq<char> {
    let s = servers_of(es);
    let d = distinct_in_order(s);
    decimal(es.len()) + " total tools ("@ + summary_parts(s, d, d.len()) + ")"@
}

impl View for Catalog {
    type V = Seq<CatalogEntry>;

    closed spec fn view(&self) -> Seq<CatalogEntry> {
        self.entries@
    }
}

impl Catalog {
    /// An empty catalog.
    pub fn new() -> (r: Catalog)
        ensures
            r@ == Seq::<CatalogEntry>::empty(),
    {
        Catalog { entries: Vec::new() }
    }

    /// A catalog holding the given entries.
    pub fn from_entries(entries: Vec<CatalogEntry>) -> (r: Catalog)
        ensures
            r@ == entries@,
    {
        Catalog { entries }
    }

    /// Registers all tools of a server, after the entries already there.
    pub fn add_server_tools(&mut self, server_name: &str, tools: Vec<ToolInfo>)
        ensures
            final(self)@.len() == old(self)@.len() + tools@.len(),
            forall|i: int| 0 <= i < old(self)@.len() ==> final(self)@[i] == old(self)@[i],
            forall|k: int|
                0 <= k < tools@.len() ==> {
                    let e = #[trigger] final(self)@[old(self)@.len() + k];
                    let t = tools@[k];
                    &&& e.server@ == server_name@
                    &&& e.name == t.name
                    &&& e.description@ == match t.description {
                        Some(d) => d@,
                        None => Seq::<char>::empty(),
                    }
                    &&& e.input_schema == t.input_schema
                },
    {
        let ghost start = self.entries@;
        let ghost all = tools@;
        let mut tools = tools;
        let mut k: usize = 0;
        let n = tools.len();
        assert(all.len() == n);
        assert(all.skip(0) == all);
        while tools.len() > 0
            invariant
                tools@ == all.skip(k as int),
                all.len() <= usize::MAX,
                k <= all.len(),
                self.entries@.len() == start.len() + k,
                forall|i: int| 0 <= i < start.len() ==> self.entries@[i] == start[i],
                forall|q: int|
                    0 <= q < k ==> {
                        let e = #[trigger] self.entries@[start.len() + q];
                        let t = all[q];
                        &&& e.server@ == server_name@
                        &&& e.name == t.name
                        &&& e.description@ == match t.description {
                            Some(d) => d@,
                            None => Seq::<char>::empty(),
                        }
                        &&& e.input_schema == t.input_schema
                    },
            decreases tools.len(),
        {
            assert(k < all.len());
            let t = tools.remove(0);
            assert(t == all[k as int]);
            let description = match t.description {
                Some(d) => d,
                None => String::new(),
            };
            self.entries.push(
                CatalogEntry {
                    server: string_from(server_name),
                    name: t.name,
                    description,
                    input_schema: t.input_schema,
                },
            );
            k = k + 1;
            assert(tools@ == all.skip(k as int));
        }
    }

    /// All entries, in registration order.
    pub fn entries(&self) -> (r: &[CatalogEntry])
        ensures
            r@ == self@,
    {
        self.entries.as_slice()
    }

    /// All entries as a JSON array of objects.
    pub fn to_json_value(&self) -> (r: Json)
        ensures
            r matches Json::Array(v) && v@.len() == self@.len() && forall|i: int|
                0 <= i < v@.len() ==> is_entry_json(#[trigger] v@[i], self@[i]),
    {
        let mut v: Vec<Json> = Vec::new();
        let mut i: usize = 0;
        while i < self.entries.len()
            invariant
                i <= self.entries.len(),
                v@.len() == i,
                forall|k: int| 0 <= k < i ==> is_entry_json(#[trigger] v@[k], self.entries@[k]),
            decreases self.entries.len() - i,
        {
            v.push(entry_to_json(&self.entries[i]));
            i = i + 1;
        }
        Json::Array(v)
    }

    /// TypeScript declarations for all servers and their tools: the
    /// declaration of `tools`, then one object per server in increasing
    /// order of name, holding its tools in registration order.
    pub fn type_declarations(&self) -> (r: String)
        ensures
            exists|order: Seq<Seq<char>>|
                is_sorted_set_of(order, servers_of(self@)) && r@ == declarations(self@, order),
    {
        let order = sorted_server_names(self.entries.as_slice());
        let mut out: Vec<char> = Vec::new();
        push_str(&mut out, "declare const tools: Array<{ server: string; name: string; description: string; input_schema: any }>;\n\n");
        let mut k: usize = 0;
        while k < order.len()
            invariant
                k <= order.len(),
                out@ == declaration_header() + server_blocks(self.entries@, views(order@), k as nat),
            decreases order.len() - k,
        {
            write_server_block(&self.entries, &order[k], &mut out);
            k = k + 1;
        }
        let r = string_of(&out);
        assert(is_sorted_set_of(views(order@), servers_of(self@)));
        assert(r@ == declarations(self@, views(order@)));
        r
    }

    /// A one-line summary: the number of tools, and per server its number of
    /// tools, servers in the order they first occur.
    pub fn summary(&self) -> (r: String)
        ensures
            r@ == summary_text(self@),
    {
        let mut servers: Vec<String> = Vec::new();
        let mut i: usize = 0;
        while i < self.entries.len()
            invariant
                i <= self.entries.len(),
                views(servers@) == servers_of(self.entries@.take(i as int)),
            decreases self.entries.len() - i,
        {
            servers.push(copy_string(&self.entries[i].server));
            i = i + 1;
            assert(servers_of(self.entries@.take(i as int)) =~= servers_of(self.entries@.take(i - 1 as int)).push(self.entries@[i - 1].server@));
            assert(views(servers@) =~= views(servers@.drop_last()).push(servers@.last()@));
        }
        assert(self.entries@.take(self.entries.len() as int) == self.entries@);
        let ghost s = servers_of(self.entries@);
        let (names, counts) = tally(&servers);
        let mut out = decimal_chars(self.entries.len());
        push_str(&mut out, " total tools (");
        let ghost start = out@;
        let mut k: usize = 0;
        while k < names.len()
            invariant
                k <= names.len(),
                names@.len() == counts@.len(),
                views(names@) == distinct_in_order(s),
                forall|q: int| 0 <= q < counts@.len() ==> #[trigger] counts@[q] == count_in(s, names@[q]@),
                out@ == start + summary_parts(s, views(names@), k as nat),
            decreases names.len() - k,
        {
            if k > 0 {
                push_str(&mut out, ", ");
            }
            push_str(&mut out, names[k].as_str());
            push_str(&mut out, ": ");
            let dv = decimal_chars(counts[k]);
            push_all(&mut out, &dv);
            push_str(&mut out, " tools");
            k = k + 1;
        }
        push_str(&mut out, ")");
        string_of(&out)
    }
}


} // verus!
