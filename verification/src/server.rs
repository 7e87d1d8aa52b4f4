//! What the MCP meta-tools compute besides the search itself: their
//! defaults, the limit on the length of their responses, and the text of a
//! failed run.
use vstd::prelude::*;
use crate::text::{chars_of, decimal, decimal_chars, prefix_to, push_all, push_str, string_of};

verus! {

broadcast use vstd::string::group_string_axioms;

/// The response limit, in characters, when a call names none.
pub const DEFAULT_MAX_LENGTH: usize = 40000;

/// The number of `search` results when a call names none.
pub const DEFAULT_TOP_K: usize = 20;

/// The number of `search` results of a call: the one it names, else
/// [`DEFAULT_TOP_K`].
pub fn effective_top_k(top_k: Option<usize>) -> (r: usize)
    ensures
        r == match top_k {
            Some(k) => k,
            None => DEFAULT_TOP_K,
        },
{
    match top_k {
        Some(k) => k,
        None => DEFAULT_TOP_K,
    }
}

/// The response limit of a call: the one it names, else
/// [`DEFAULT_MAX_LENGTH`].
pub fn effective_max_length(max_length: Option<usize>) -> (r: usize)
    ensures
        r == match max_length {
            Some(m) => m,
            None => DEFAULT_MAX_LENGTH,
        },
{
    match max_length {
        Some(m) => m,
        None => DEFAULT_MAX_LENGTH,
    }
}

/// The meta-tools that run code in the sandbox.
pub enum CodeTool {
    SearchCode,
    Execute,
}

/// The name of a code-running meta-tool.
pub open spec fn tool_name(t: CodeTool) -> Seq<char> {
    match t {
        CodeTool::SearchCode => "search_code"@,
        CodeTool::Execute => "execute"@,
    }
}

/// The text of a failed run of a meta-tool: its name, ` error: ` and the
/// message.
pub fn tool_error_text(tool: CodeTool, message: &str) -> (r: String)
    ensures
        r@ == tool_name(tool) + " error: "@ + message@,
{
    let mut v = match tool {
        CodeTool::SearchCode => chars_of("search_code"),
        CodeTool::Execute => chars_of("execute"),
    };
    push_str(&mut v, " error: ");
    push_str(&mut v, message);
    string_of(&v)
}

/// The text of a successful run of a meta-tool: the result's text cut to
/// the call's limit (see [`truncated`]).
pub fn tool_result_text(text: String, max_length: Option<usize>) -> (r: String)
    ensures
        r@ == truncated(
            text@,
            match max_length {
                Some(m) => m as nat,
                None => DEFAULT_MAX_LENGTH as nat,
            },
        ),
{
    truncate_response(text, effective_max_length(max_length))
}

/// The position of the last line break before position `k`, or -1.
pub open spec fn last_newline_before(s: Seq<char>, k: int) -> int
    decreases k,
{
    if k <= 0 {
        -1
    } else if s[k - 1] == '\n' {
        k - 1
    } else {
        last_newline_before(s, k - 1)
    }
}

/// The note that ends a truncated response.
pub open spec fn truncation_note(remaining: nat) -> Seq<char> {
    "\n\n[truncated — "@ + decimal(remaining)
        + " chars omitted. Use your code to extract only the data you need, or increase max_length.]"@
}

/// Where a response longer than `max_len` characters is cut: at the last line
/// break among its first `max_len` characters, or after them when there is
/// none.
pub open spec fn cut_position(s: Seq<char>, max_len: nat) -> int {
    let j = last_newline_before(s, max_len as int);
    if j >= 0 {
        j
    } else {
        max_len as int
    }
}

/// A response cut to at most `max_len` characters (no limit when it is 0):
/// a response within the limit is kept whole; a longer one is cut (see
/// [`cut_position`]) and followed by a note of how many characters were
/// left out.
pub open spec fn truncated(s: Seq<char>, max_len: nat) -> Seq<char> {
    if max_len == 0 || s.len() <= max_len {
        s
    } else {
        let cut = cut_position(s, max_len);
        s.take(cut) + truncation_note((s.len() - cut) as nat)
    }
}

/// Cuts a response to `max_len` characters (see [`truncated`]).
pub fn truncate_response(text: String, max_len: usize) -> (r: String)
    ensures
        r@ == truncated(text@, max_len as nat),
{
    let s = chars_of(text.as_str());
    let n = s.len();
    if max_len == 0 || n <= max_len {
        return text;
    }
    // The last line break before the limit.
    let mut j: usize = max_len;
    while j > 0 && s[j - 1] != '\n'
        invariant
            j <= max_len < n,
            n == s@.len(),
            last_newline_before(s@, max_len as int) == last_newline_before(s@, j as int),
        decreases j,
    {
        j = j - 1;
    }
    let cut = if j > 0 {
        j - 1
    } else {
        max_len
    };
    let mut out = prefix_to(&s, cut);
    push_str(&mut out, "\n\n[truncated — ");
    let d = decimal_chars(n - cut);
    push_all(&mut out, &d);
    push_str(&mut out, " chars omitted. Use your code to extract only the data you need, or increase max_length.]");
    string_of(&out)
}

proof fn lemma_last_newline_below(s: Seq<char>, k: int)
    requires
        0 <= k <= s.len(),
    ensures
        -1 <= last_newline_before(s, k) < k,
        last_newline_before(s, k) >= 0 ==> s[last_newline_before(s, k)] == '\n',
    decreases k,
{
    if k > 0 && s[k - 1] != '\n' {
        lemma_last_newline_below(s, k - 1);
    }
}

/// A response of at most `max_len` characters (or with no limit) is kept
/// whole; a longer one keeps its first `cut` characters, `cut` at most
/// `max_len`, followed by the note of the `len - cut` characters left out.
pub proof fn law_truncation_bound(s: Seq<char>, max_len: nat)
    ensures
        max_len == 0 || s.len() <= max_len ==> truncated(s, max_len) == s,
        max_len > 0 && s.len() > max_len ==> exists|cut: int|
            0 <= cut <= max_len && #[trigger] truncated(s, max_len) == s.take(cut) + truncation_note(
                (s.len() - cut) as nat,
            ),
{
    if max_len > 0 && s.len() > max_len {
        lemma_last_newline_below(s, max_len as int);
        let cut = cut_position(s, max_len);
        assert(0 <= cut <= max_len);
        assert(truncated(s, max_len) == s.take(cut) + truncation_note((s.len() - cut) as nat));
    }
}

proof fn lemma_last_newline_exact(s: Seq<char>, k: int)
    requires
        0 <= k <= s.len(),
    ensures
        last_newline_before(s, k) >= 0 ==> {
            let c = last_newline_before(s, k);
            &&& 0 <= c < k
            &&& s[c] == '\n'
            &&& forall|j: int| c < j < k ==> s[j] != '\n'
        },
        last_newline_before(s, k) < 0 ==> forall|j: int| 0 <= j < k ==> s[j] != '\n',
    decreases k,
{
    if k > 0 {
        lemma_last_newline_exact(s, k - 1);
    }
}

/// A response longer than `max_len` (a limit that is not 0) keeps its first
/// `c` characters and a note of the `len - c` characters left out, where the
/// cut `c` is at the last line break among the first `max_len` characters:
/// `s[c]` is a line break and none follows it before `max_len`; when there
/// is no line break among them, the cut is at `max_len`.
pub proof fn law_truncation_cuts_at_last_break(s: Seq<char>, max_len: nat)
    requires
        max_len > 0,
        s.len() > max_len,
    ensures
        exists|c: int|
            0 <= c <= max_len && truncated(s, max_len) == #[trigger] s.take(c) + truncation_note(
                (s.len() - c) as nat,
            ) && (c < max_len ==> s[c] == '\n' && forall|k: int| c < k < max_len ==> s[k] != '\n') && (c
                == max_len ==> forall|k: int| 0 <= k < max_len ==> s[k] != '\n'),
{
    lemma_last_newline_exact(s, max_len as int);
    let c = cut_position(s, max_len);
    assert(truncated(s, max_len) == s.take(c) + truncation_note((s.len() - c) as nat));
    assert(c < max_len ==> s[c] == '\n' && forall|k: int| c < k < max_len ==> s[k] != '\n');
    assert(c == max_len ==> forall|k: int| 0 <= k < max_len ==> s[k] != '\n');
}

} // verus!
