//! What the sandbox computes around the JavaScript engine: the TypeScript
//! source handed to the transpiler, the body taken back from its output, and
//! the scripts that run agent code with the catalog and the servers in scope.
use vstd::prelude::*;
use crate::catalog::{is_entry_json, servers_of, Catalog};
use crate::json::{compact, write_compact, Json};
use crate::order::is_sorted_set_of;
use crate::text::{
    chars_of, has_prefix_at, prefix_to, push_all, push_str, replace, replace_chars, starts_with,
    string_of, suffix_from, trim, trim_chars, views,
};

verus! {

broadcast use vstd::string::group_string_axioms;

// ---------------------------------------------------------------------------
// Searching in text
// ---------------------------------------------------------------------------

/// `p` occurs in `s` at position `i`.
pub open spec fn occurs_at(s: Seq<char>, p: Seq<char>, i: int) -> bool {
    0 <= i <= s.len() && starts_with(s.skip(i), p)
}

/// `i` is the first position where `p` occurs in `s`.
pub open spec fn is_first_occurrence(s: Seq<char>, p: Seq<char>, i: int) -> bool {
    occurs_at(s, p, i) && forall|j: int| 0 <= j < i ==> !occurs_at(s, p, j)
}

/// `str::find` with a pattern: the first position where `p` occurs in `s`.
pub open spec fn find(s: Seq<char>, p: Seq<char>) -> Option<int> {
    if exists|i: int| occurs_at(s, p, i) {
        Some(choose|i: int| is_first_occurrence(s, p, i))
    } else {
        None
    }
}

/// `i` is the last position of `c` in `s`.
pub open spec fn is_last_of(s: Seq<char>, c: char, i: int) -> bool {
    0 <= i < s.len() && s[i] == c && forall|j: int| i < j < s.len() ==> s[j] != c
}

/// `str::rfind` with a character: the last position of `c` in `s`.
pub open spec fn rfind(s: Seq<char>, c: char) -> Option<int> {
    if s.contains(c) {
        Some(choose|i: int| is_last_of(s, c, i))
    } else {
        None
    }
}

/// `str::find` with a character.
pub open spec fn find_char(s: Seq<char>, c: char) -> Option<int> {
    if s.contains(c) {
        Some(choose|i: int| crate::text::is_first_of(s, c, i))
    } else {
        None
    }
}

/// The first position of `pat` in `s`.
pub fn find_chars(s: &Vec<char>, pat: &str) -> (r: Option<usize>)
    ensures
        r matches Some(i) ==> i <= s@.len() && find(s@, pat@) == Some(i as int),
        r is None ==> find(s@, pat@) is None,
{
    let p = chars_of(pat);
    let mut i: usize = 0;
    loop
        invariant
            i <= s.len(),
            p@ == pat@,
            forall|j: int| 0 <= j < i ==> !occurs_at(s@, pat@, j),
        decreases s.len() - i,
    {
        if has_prefix_at(s, i, &p) {
            assert(is_first_occurrence(s@, pat@, i as int));
            let ghost w = choose|w: int| is_first_occurrence(s@, pat@, w);
            assert(w == i);
            return Some(i);
        }
        if i == s.len() {
            return None;
        }
        i = i + 1;
    }
}

/// The last position of `c` in `s`.
pub fn rfind_char(s: &Vec<char>, c: char) -> (r: Option<usize>)
    ensures
        r matches Some(i) ==> i < s.len() && rfind(s@, c) == Some(i as int),
        r is None ==> rfind(s@, c) is None,
{
    let mut i: usize = s.len();
    while i > 0
        invariant
            i <= s.len(),
            forall|j: int| i <= j < s.len() ==> s@[j] != c,
        decreases i,
    {
        if s[i - 1] == c {
            assert(is_last_of(s@, c, i - 1));
            let ghost w = choose|w: int| is_last_of(s@, c, w);
            assert(w == i - 1);
            return Some(i - 1);
        }
        i = i - 1;
    }
    None
}

/// The first position of `c` in `s`.
pub fn find_char_in(s: &Vec<char>, c: char) -> (r: Option<usize>)
    ensures
        r matches Some(i) ==> i < s.len() && find_char(s@, c) == Some(i as int),
        r is None ==> find_char(s@, c) is None,
{
    let mut i: usize = 0;
    while i < s.len()
        invariant
            i <= s.len(),
            forall|j: int| 0 <= j < i ==> s@[j] != c,
        decreases s.len() - i,
    {
        if s[i] == c {
            assert(crate::text::is_first_of(s@, c, i as int));
            let ghost w = choose|w: int| crate::text::is_first_of(s@, c, w);
            assert(w == i);
            return Some(i);
        }
        i = i + 1;
    }
    None
}

// ---------------------------------------------------------------------------
// Agent code
// ---------------------------------------------------------------------------

/// The TypeScript source handed to the transpiler: the type declarations,
/// then the agent's code as the body of `async function __agent__()`.
pub open spec fn agent_source(code: Seq<char>, type_decls: Seq<char>) -> Seq<char> {
    type_decls + "\nasync function __agent__() {\n"@ + code + "\n}"@
}

/// The TypeScript source of agent code.
pub fn agent_source_text(code: &str, type_decls: &str) -> (r: String)
    ensures
        r@ == agent_source(code@, type_decls@),
{
    let mut v = chars_of(type_decls);
    push_str(&mut v, "\nasync function __agent__() {\n");
    push_str(&mut v, code);
    push_str(&mut v, "\n}");
    string_of(&v)
}

/// The body of `__agent__` in transpiled JavaScript: what stands between the
/// first `{` after `async function __agent__()` and the last `}`, trimmed;
/// the whole output when the function or its `{` is not found.
pub open spec fn agent_body(js: Seq<char>) -> Seq<char> {
    match find(js, "async function __agent__()"@) {
        Some(start) => {
            let after = js.skip(start);
            match find_char(after, '{') {
                Some(open) => {
                    let inner = after.skip(open + 1);
                    match rfind(inner, '}') {
                        Some(close) => trim(inner.take(close)),
                        None => trim(inner),
                    }
                },
                None => js,
            }
        },
        None => js,
    }
}

/// Takes the body of `__agent__` out of transpiled JavaScript.
pub fn extract_agent_body(js: &str) -> (r: String)
    ensures
        r@ == agent_body(js@),
{
    let s = chars_of(js);
    match find_chars(&s, "async function __agent__()") {
        Some(start) => {
            let after = suffix_from(&s, start);
            match find_char_in(&after, '{') {
                Some(open) => {
                    let inner = suffix_from(&after, open + 1);
                    match rfind_char(&inner, '}') {
                        Some(close) => string_of(&trim_chars(&prefix_to(&inner, close))),
                        None => string_of(&trim_chars(&inner)),
                    }
                },
                None => string_of(&s),
            }
        },
        None => string_of(&s),
    }
}

// ---------------------------------------------------------------------------
// Scripts
// ---------------------------------------------------------------------------

/// Code run as the body of an async arrow function that is called at once.
pub open spec fn async_script(body: Seq<char>) -> Seq<char> {
    "(async () => { "@ + body + " })()"@
}

/// The script of `search_code`: the agent's code in an async function.
pub fn search_code_script(code: &str) -> (r: String)
    ensures
        r@ == async_script(code@),
{
    let mut v = chars_of("(async () => { ");
    push_str(&mut v, code);
    push_str(&mut v, " })()");
    string_of(&v)
}

/// The global object of a server in `execute`: a proxy whose every property
/// is an async function that calls the tool of that name on the server.
pub open spec fn proxy_decl(server: Seq<char>) -> Seq<char> {
    "const "@ + replace(server, "-"@, "_"@) + " = new Proxy({}, {\n  get(_, tool) {\n    return async (args = {}) => {\n      const resultJson = await __call_tool(\""@
        + server
        + "\", tool, JSON.stringify(args));\n      try { return JSON.parse(resultJson); } catch { return resultJson; }\n    };\n  }\n});\n"@
}

/// The proxies of the first `k` servers of `order`.
pub open spec fn proxy_decls(order: Seq<Seq<char>>, k: nat) -> Seq<char>
    decreases k,
{
    if k == 0 || k > order.len() {
        seq![]
    } else {
        proxy_decls(order, (k - 1) as nat) + proxy_decl(order[k - 1])
    }
}

/// The script of `execute`: one proxy per server (servers in increasing
/// order of name), the catalog as `tools`, then the agent's code.
pub open spec fn execute_script_text(order: Seq<Seq<char>>, catalog_json: Seq<char>, code: Seq<char>) -> Seq<char> {
    async_script(proxy_decls(order, order.len()) + "const tools = "@ + catalog_json + ";"@ + "\n"@ + code)
}

fn write_proxy(server: &String, out: &mut Vec<char>)
    ensures
        final(out)@ == old(out)@ + proxy_decl(server@),
{
    proof {
        reveal_strlit("-");
    }
    push_str(out, "const ");
    let js = replace_chars(&chars_of(server.as_str()), "-", "_");
    push_all(out, &js);
    push_str(out, " = new Proxy({}, {\n  get(_, tool) {\n    return async (args = {}) => {\n      const resultJson = await __call_tool(\"");
    push_str(out, server.as_str());
    push_str(out, "\", tool, JSON.stringify(args));\n      try { return JSON.parse(resultJson); } catch { return resultJson; }\n    };\n  }\n});\n");
}

/// The script that runs agent code in `execute`.
pub fn execute_script(catalog: &Catalog, code: &str) -> (r: String)
    ensures
        exists|order: Seq<Seq<char>>, j: Json|
            is_sorted_set_of(order, servers_of(catalog@))
            && (j matches Json::Array(v) && v@.len() == catalog@.len() && forall|i: int|
                0 <= i < v@.len() ==> is_entry_json(#[trigger] v@[i], catalog@[i]))
            && r@ == execute_script_text(order, compact(j), code@),
{
    let entries = catalog.entries();
    let order = crate::catalog::sorted_server_names(entries);
    let mut setup: Vec<char> = Vec::new();
    let mut k: usize = 0;
    while k < order.len()
        invariant
            k <= order.len(),
            setup@ == proxy_decls(views(order@), k as nat),
        decreases order.len() - k,
    {
        write_proxy(&order[k], &mut setup);
        k = k + 1;
    }
    let j = catalog.to_json_value();
    let mut body = setup;
    push_str(&mut body, "const tools = ");
    let ghost before = body@;
    write_compact(&j, &mut body);
    push_str(&mut body, ";");
    push_str(&mut body, "\n");
    push_str(&mut body, code);
    let mut v = chars_of("(async () => { ");
    push_all(&mut v, &body);
    push_str(&mut v, " })()");
    let r = string_of(&v);
    assert(r@ == execute_script_text(views(order@), compact(j), code@));
    r
}

/// What `__call_tool` returns when a call fails: a JSON object whose `error`
/// is the message, its double quotes escaped.
pub open spec fn call_error_json(message: Seq<char>) -> Seq<char> {
    "{\"error\":\""@ + replace(message, "\""@, "\\\""@) + "\"}"@
}

/// The result of a failed tool call.
pub fn call_tool_error(message: &str) -> (r: String)
    ensures
        r@ == call_error_json(message@),
{
    proof {
        reveal_strlit("\"");
    }
    let mut v = chars_of("{\"error\":\"");
    let escaped = replace_chars(&chars_of(message), "\"", "\\\"");
    push_all(&mut v, &escaped);
    push_str(&mut v, "\"}");
    string_of(&v)
}

// ---------------------------------------------------------------------------
// Laws
// ---------------------------------------------------------------------------

proof fn lemma_first_occurrence_exists(s: Seq<char>, p: Seq<char>, i: int)
    requires
        occurs_at(s, p, i),
    ensures
        exists|k: int| is_first_occurrence(s, p, k),
    decreases i,
{
    if exists|j: int| 0 <= j < i && occurs_at(s, p, j) {
        let j = choose|j: int| 0 <= j < i && occurs_at(s, p, j);
        lemma_first_occurrence_exists(s, p, j);
    } else {
        assert(is_first_occurrence(s, p, i));
    }
}

proof fn lemma_first_of_exists(s: Seq<char>, c: char, i: int)
    requires
        0 <= i < s.len(),
        s[i] == c,
    ensures
        exists|k: int| crate::text::is_first_of(s, c, k),
    decreases i,
{
    if exists|j: int| 0 <= j < i && s[j] == c {
        let j = choose|j: int| 0 <= j < i && s[j] == c;
        lemma_first_of_exists(s, c, j);
    } else {
        assert(crate::text::is_first_of(s, c, i));
    }
}

proof fn lemma_last_of_exists(s: Seq<char>, c: char, i: int)
    requires
        0 <= i < s.len(),
        s[i] == c,
    ensures
        exists|k: int| is_last_of(s, c, k),
    decreases s.len() - i,
{
    if exists|j: int| i < j < s.len() && s[j] == c {
        let j = choose|j: int| i < j < s.len() && s[j] == c;
        lemma_last_of_exists(s, c, j);
    } else {
        assert(is_last_of(s, c, i));
    }
}

/// `find` gives the first position at which the text continues with the
/// pattern, and nothing when it never does.
pub proof fn law_find_is_first(s: Seq<char>, p: Seq<char>)
    ensures
        find(s, p) matches Some(i) ==> 0 <= i && i + p.len() <= s.len() && s.skip(i).take(p.len() as int) == p
            && forall|j: int| 0 <= j < i ==> !(j + p.len() <= s.len() && #[trigger] s.skip(j).take(p.len() as int) == p),
        find(s, p) is None ==> forall|j: int|
            0 <= j && j + p.len() <= s.len() ==> #[trigger] s.skip(j).take(p.len() as int) != p,
{
    if exists|i: int| occurs_at(s, p, i) {
        let i = choose|i: int| occurs_at(s, p, i);
        lemma_first_occurrence_exists(s, p, i);
        let f = choose|k: int| is_first_occurrence(s, p, k);
        assert forall|j: int| 0 <= j < f implies !(j + p.len() <= s.len() && #[trigger] s.skip(j).take(p.len() as int)
            == p) by {
            assert(!occurs_at(s, p, j));
        }
    } else {
        assert forall|j: int| 0 <= j && j + p.len() <= s.len() implies #[trigger] s.skip(j).take(p.len() as int)
            != p by {
            assert(!occurs_at(s, p, j));
        }
    }
}

/// `find_char` gives the first position of the character, and nothing when
/// the text does not hold it.
pub proof fn law_find_char_is_first(s: Seq<char>, c: char)
    ensures
        find_char(s, c) matches Some(i) ==> 0 <= i < s.len() && s[i] == c && forall|j: int| 0 <= j < i ==> s[j] != c,
        find_char(s, c) is None ==> forall|j: int| 0 <= j < s.len() ==> s[j] != c,
{
    if s.contains(c) {
        let i = choose|i: int| 0 <= i < s.len() && s[i] == c;
        lemma_first_of_exists(s, c, i);
    }
}

/// `rfind` gives the last position of the character, and nothing when the
/// text does not hold it.
pub proof fn law_rfind_is_last(s: Seq<char>, c: char)
    ensures
        rfind(s, c) matches Some(i) ==> 0 <= i < s.len() && s[i] == c && forall|j: int| i < j < s.len() ==> s[j] != c,
        rfind(s, c) is None ==> forall|j: int| 0 <= j < s.len() ==> s[j] != c,
{
    if s.contains(c) {
        let i = choose|i: int| 0 <= i < s.len() && s[i] == c;
        lemma_last_of_exists(s, c, i);
    }
}

/// The body taken out of transpiled JavaScript. Where `async function
/// __agent__()` first occurs at `start` and the first `{` after it is at
/// `open`, the body is what follows that `{` up to the LAST `}` of the rest
/// of the text, trimmed (so brace-balanced agent code comes back whole); all
/// of the rest, trimmed, when no `}` follows.
pub proof fn law_agent_body_ends_at_last_brace(js: Seq<char>, start: int, open: int)
    requires
        0 <= start,
        start + "async function __agent__()"@.len() <= js.len(),
        js.skip(start).take("async function __agent__()"@.len() as int) == "async function __agent__()"@,
        forall|j: int|
            0 <= j < start ==> #[trigger] js.skip(j).take("async function __agent__()"@.len() as int)
                != "async function __agent__()"@,
        0 <= open < js.len() - start,
        js[start + open] == '{',
        forall|j: int| start <= j < start + open ==> js[j] != '{',
    ensures
        ({
            let inner = js.skip(start + open + 1);
            ||| exists|close: int|
                0 <= close < inner.len() && inner[close] == '}' && (forall|k: int| close < k < inner.len() ==> inner[k]
                    != '}') && agent_body(js) == trim(#[trigger] inner.take(close))
            ||| (forall|k: int| 0 <= k < inner.len() ==> inner[k] != '}') && agent_body(js) == trim(inner)
        }),
{
    let pat = "async function __agent__()"@;
    law_find_is_first(js, pat);
    assert(occurs_at(js, pat, start));
    let f = find(js, pat)->0;
    if f < start {
    } else if f > start {
        assert(js.skip(start).take(pat.len() as int) == pat);
    }
    assert(f == start);
    let after = js.skip(start);
    law_find_char_is_first(after, '{');
    assert(after[open] == '{');
    let o = find_char(after, '{')->0;
    if o < open {
        assert(after[o] == js[start + o]);
    } else if o > open {
        assert(after[open] == js[start + open]);
    }
    assert(o == open);
    let inner = after.skip(open + 1);
    assert(inner =~= js.skip(start + open + 1));
    law_rfind_is_last(inner, '}');
    match rfind(inner, '}') {
        Some(close) => {
            assert(agent_body(js) == trim(inner.take(close)));
        },
        None => {},
    }
}

/// Without `async function __agent__()` in it, the transpiled text is the
/// body as it stands.
pub proof fn law_agent_body_without_function(js: Seq<char>)
    requires
        forall|j: int|
            0 <= j && j + "async function __agent__()"@.len() <= js.len() ==> #[trigger] js.skip(j).take(
                "async function __agent__()"@.len() as int,
            ) != "async function __agent__()"@,
    ensures
        agent_body(js) == js,
{
    let pat = "async function __agent__()"@;
    law_find_is_first(js, pat);
    if find(js, pat) is Some {
        let f = find(js, pat)->0;
        assert(js.skip(f).take(pat.len() as int) == pat);
    }
}

/// `t` stands in `s` at position `i`.
pub open spec fn text_at(s: Seq<char>, t: Seq<char>, i: int) -> bool {
    0 <= i && i + t.len() <= s.len() && s.subrange(i, i + t.len()) == t
}

/// The proxy of a server is a global named after the server (`-` as `_`)
/// whose every property calls `__call_tool` with the server's name and the
/// property as the tool, and returns the tool's result parsed as JSON,
/// falling back to the raw text only when it is not JSON.
pub proof fn law_proxy_parses_results(server: Seq<char>)
    ensures
        proxy_decl(server).take(("const "@ + replace(server, "-"@, "_"@) + " = new Proxy("@).len() as int) == "const "@
            + replace(server, "-"@, "_"@) + " = new Proxy("@,
        exists|i: int| text_at(proxy_decl(server), "__call_tool(\""@ + server + "\", tool, JSON.stringify(args))"@, i),
        exists|i: int|
            text_at(
                proxy_decl(server),
                "const resultJson = await __call_tool("@,
                i,
            ),
        exists|i: int|
            text_at(
                proxy_decl(server),
                "try { return JSON.parse(resultJson); } catch { return resultJson; }"@,
                i,
            ),
{
    let a = "const "@ + replace(server, "-"@, "_"@);
    let b = " = new Proxy({}, {\n  get(_, tool) {\n    return async (args = {}) => {\n      const resultJson = await __call_tool(\""@;
    let c = "\", tool, JSON.stringify(args));\n      try { return JSON.parse(resultJson); } catch { return resultJson; }\n    };\n  }\n});\n"@;
    let d = proxy_decl(server);
    assert(d == a + b + server + c);
    reveal_strlit(" = new Proxy(");
    reveal_strlit(" = new Proxy({}, {\n  get(_, tool) {\n    return async (args = {}) => {\n      const resultJson = await __call_tool(\"");
    reveal_strlit("\", tool, JSON.stringify(args));\n      try { return JSON.parse(resultJson); } catch { return resultJson; }\n    };\n  }\n});\n");
    reveal_strlit("__call_tool(\"");
    reveal_strlit("\", tool, JSON.stringify(args))");
    reveal_strlit("const resultJson = await __call_tool(");
    reveal_strlit("try { return JSON.parse(resultJson); } catch { return resultJson; }");
    let p = " = new Proxy("@;
    assert(b.take(p.len() as int) =~= p);
    assert(d.take((a + p).len() as int) =~= a + p);
    // `__call_tool("` + server + `", tool, JSON.stringify(args))`
    let t1 = "__call_tool(\""@ + server + "\", tool, JSON.stringify(args))"@;
    let i1: int = a.len() + b.len() - 13;
    let tail1 = "\", tool, JSON.stringify(args))"@;
    assert(c.take(tail1.len() as int) =~= tail1);
    assert(b.skip(b.len() - 13) =~= "__call_tool(\""@);
    assert(d.subrange(i1, i1 + t1.len() as int) =~= t1);
    assert(text_at(d, t1, i1));
    // `const resultJson = await __call_tool(`
    let t2 = "const resultJson = await __call_tool("@;
    let i2: int = a.len() + b.len() - 38;
    assert(b.subrange(b.len() - 38, b.len() - 1) =~= t2);
    assert(d.subrange(i2, i2 + t2.len() as int) =~= t2);
    assert(text_at(d, t2, i2));
    // the parse with its fallback
    let t3 = "try { return JSON.parse(resultJson); } catch { return resultJson; }"@;
    let i3: int = (a.len() + b.len() + server.len() + 38) as int;
    assert(c.subrange(38, 38 + t3.len() as int) =~= t3);
    assert(d.subrange(i3, i3 + t3.len() as int) =~= t3);
    assert(text_at(d, t3, i3));
}

proof fn lemma_proxy_decls_prefix(order: Seq<Seq<char>>, i: nat, n: nat)
    requires
        i <= n <= order.len(),
    ensures
        proxy_decls(order, n).len() >= proxy_decls(order, i).len(),
        proxy_decls(order, n).take(proxy_decls(order, i).len() as int) == proxy_decls(order, i),
    decreases n - i,
{
    if i < n {
        lemma_proxy_decls_prefix(order, i, (n - 1) as nat);
        let p = proxy_decls(order, (n - 1) as nat);
        assert(proxy_decls(order, n) == p + proxy_decl(order[n - 1]));
        assert((p + proxy_decl(order[n - 1])).take(proxy_decls(order, i).len() as int) =~= p.take(
            proxy_decls(order, i).len() as int,
        ));
    } else {
        assert(proxy_decls(order, n).take(proxy_decls(order, n).len() as int) =~= proxy_decls(order, n));
    }
}

/// The script of `execute` declares the proxy of every server of `order`.
pub proof fn law_execute_script_declares_servers(order: Seq<Seq<char>>, catalog_json: Seq<char>, code: Seq<char>, k: int)
    requires
        0 <= k < order.len(),
    ensures
        exists|p: int| text_at(execute_script_text(order, catalog_json, code), proxy_decl(order[k]), p),
{
    reveal_strlit("(async () => { ");
    let n = order.len();
    let all = proxy_decls(order, n);
    let body = all + "const tools = "@ + catalog_json + ";"@ + "\n"@ + code;
    let sc = execute_script_text(order, catalog_json, code);
    assert(sc == "(async () => { "@ + body + " })()"@);

        lemma_proxy_decls_prefix(order, (k + 1) as nat, n);
        let before = proxy_decls(order, k as nat);
        let upto = proxy_decls(order, (k + 1) as nat);
        assert(upto == before + proxy_decl(order[k]));
        let p: int = 15 + before.len() as int;
        let t = proxy_decl(order[k]);
        assert(all.take(upto.len() as int) == upto);
        assert forall|j: int| 0 <= j < t.len() implies sc.subrange(p, p + t.len())[j] == t[j] by {
            assert(sc[p + j] == body[before.len() + j]);
            assert(body[before.len() + j] == all[before.len() + j]);
            assert(all[before.len() + j] == upto[before.len() + j]);
        }
        assert(sc.subrange(p, p + t.len()) =~= t);
        assert(text_at(sc, t, p));
    }

/// The script of `execute` holds the catalog as `tools`, and runs the
/// agent's code last, inside one async function that is called at once.
pub proof fn law_execute_script_parts(order: Seq<Seq<char>>, catalog_json: Seq<char>, code: Seq<char>)
    ensures
        exists|p: int| text_at(execute_script_text(order, catalog_json, code), "const tools = "@ + catalog_json + ";"@, p),
        execute_script_text(order, catalog_json, code).take(15) == "(async () => { "@,
        exists|p: int| text_at(execute_script_text(order, catalog_json, code), "\n"@ + code + " })()"@, p)
            && p + ("\n"@ + code + " })()"@).len() == execute_script_text(order, catalog_json, code).len(),
{
    reveal_strlit("(async () => { ");
    reveal_strlit(" })()");
    let n = order.len();
    let all = proxy_decls(order, n);
    let body = all + "const tools = "@ + catalog_json + ";"@ + "\n"@ + code;
    let sc = execute_script_text(order, catalog_json, code);
    assert(sc == "(async () => { "@ + body + " })()"@);
    let tt = "const tools = "@ + catalog_json + ";"@;
    let p2: int = 15 + all.len() as int;
    assert(sc.subrange(p2, p2 + tt.len()) =~= tt);
    assert(text_at(sc, tt, p2));
    assert(sc.take(15) =~= "(async () => { "@);
    let tail = "\n"@ + code + " })()"@;
    let p3: int = sc.len() - tail.len();
    assert(sc.subrange(p3, p3 + tail.len()) =~= tail);
    assert(text_at(sc, tail, p3));
}

} // verus!
