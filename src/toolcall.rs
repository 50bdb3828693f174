//! Extraction of tool invocations from free-form model output.
//!
//! Four encodings are recognised and merged in this order: block `<invoke>`
//! elements and compact self-closing tags (read together, in document order),
//! embedded JSON objects, and `tool_call: ` line directives. Only allow-listed
//! tool names are kept and a call equal to an earlier one is dropped.
use vstd::prelude::*;
use crate::text::{str_eq, str_equal, skip_space, is_space, text_lines, lines_of, char_rows, chars_of, string_of, trim_chars, trimmed, parse_int, int_text_value, char_is_space, slice_chars, starts_with_chars, starts_with};
use crate::json::{JsonValue, json_same, json_eq, member, as_text, get_member, get_text, take_member, parse_json, json_parse_of};

verus! {

/// A structured request to run one allow-listed tool.
pub struct ToolCall {
    pub name: String,
    pub parameters: JsonValue,
}

impl ToolCall {
    /// The text of the string parameter `key`.
    pub fn param_text(&self, key: &str) -> (r: Option<String>)
        ensures
            r matches Some(s) ==> as_text(member(self.parameters, key@)) == Some(s@),
            r is None ==> as_text(member(self.parameters, key@)) is None,
    {
        get_text(&self.parameters, key)
    }
}

/// The tools that model output may invoke.
pub open spec fn allowed_tool(n: Seq<char>) -> bool {
    n == "read_file"@ || n == "write_file"@ || n == "list_dir"@ || n == "search_files"@ || n
        == "find_by_name"@ || n == "grep"@ || n == "search"@ || n == "search_codebase"@ || n
        == "index_codebase"@ || n == "todo_add"@ || n == "todo_list"@ || n == "todo_complete"@
}

/// Whether `n` is on the allow-list.
pub fn is_allowed_tool(n: &str) -> (r: bool)
    ensures
        r == allowed_tool(n@),
{
    str_equal(n, "read_file") || str_equal(n, "write_file") || str_equal(n, "list_dir")
        || str_equal(n, "search_files") || str_equal(n, "find_by_name") || str_equal(n, "grep")
        || str_equal(n, "search") || str_equal(n, "search_codebase") || str_equal(n, "index_codebase")
        || str_equal(n, "todo_add") || str_equal(n, "todo_list") || str_equal(n, "todo_complete")
}

/// Two calls are the same: same name and equal parameters.
pub open spec fn call_same(a: ToolCall, b: ToolCall) -> bool {
    a.name@ == b.name@ && json_same(a.parameters, b.parameters)
}

/// Every call of `calls` is allow-listed and no call repeats an earlier one.
pub open spec fn calls_ok(calls: Seq<ToolCall>) -> bool {
    &&& forall|i: int| 0 <= i < calls.len() ==> allowed_tool(#[trigger] calls[i].name@)
    &&& forall|i: int, j: int|
        0 <= i < j < calls.len() ==> !call_same(#[trigger] calls[i], #[trigger] calls[j])
}

/// Whether `calls` already holds a call equal to `c`.
pub fn has_call(calls: &Vec<ToolCall>, c: &ToolCall) -> (r: bool)
    ensures
        r == exists|i: int| 0 <= i < calls@.len() && call_same(calls@[i], *c),
{
    let mut i: usize = 0;
    while i < calls.len()
        invariant
            0 <= i <= calls@.len(),
            forall|t: int| 0 <= t < i ==> !call_same(calls@[t], *c),
        decreases calls.len() - i,
    {
        if str_eq(&calls[i].name, &c.name) && json_eq(&calls[i].parameters, &c.parameters) {
            return true;
        }
        i = i + 1;
    }
    false
}

/// Appends `c` unless its name is not allow-listed or an equal call is present.
pub fn add_call(calls: &mut Vec<ToolCall>, c: ToolCall)
    requires
        calls_ok(old(calls)@),
    ensures
        calls_ok(final(calls)@),
        (allowed_tool(c.name@) && !exists|i: int|
            0 <= i < old(calls)@.len() && call_same(old(calls)@[i], c)) ==> final(calls)@ == old(
            calls,
        )@.push(c),
        !(allowed_tool(c.name@) && !exists|i: int|
            0 <= i < old(calls)@.len() && call_same(old(calls)@[i], c)) ==> final(calls)@ == old(
            calls,
        )@,
{
    if is_allowed_tool(c.name.as_str()) && !has_call(calls, &c) {
        calls.push(c);
    }
}

/// The scalar that a parameter text stands for: the literals `true` and `false`,
/// an `i64`, a decimal number, or else the trimmed text itself.
pub open spec fn scalar_matches(v: JsonValue, s: Seq<char>) -> bool {
    let t = trimmed(s);
    if t == "true"@ {
        v == JsonValue::Bool(true)
    } else if t == "false"@ {
        v == JsonValue::Bool(false)
    } else if int_text_value(t) is Some {
        v == JsonValue::Int(int_text_value(t)->0 as i64)
    } else if decimal_text(t) {
        v is Num && v->Num_0@ == t
    } else {
        v is Str && v->Str_0@ == t
    }
}

/// First position at or after `i` that holds no decimal digit.
pub open spec fn run_end(s: Seq<char>, i: int) -> int
    decreases s.len() - i,
{
    if i < 0 || i >= s.len() || !('0' <= s[i] <= '9') {
        i
    } else {
        run_end(s, i + 1)
    }
}

/// Finite decimal notation: optional sign, digits with at most one point and at
/// least one digit, then an optional exponent `e`/`E` with optional sign and digits.
pub open spec fn decimal_text(s: Seq<char>) -> bool {
    let a: int = if s.len() > 0 && (s[0] == '+' || s[0] == '-') { 1 } else { 0 };
    let d1 = run_end(s, a);
    let point = d1 < s.len() && s[d1] == '.';
    let e = if point { run_end(s, d1 + 1) } else { d1 };
    let mantissa = if point { d1 > a || e > d1 + 1 } else { d1 > a };
    let exponent = e == s.len() || ((s[e] == 'e' || s[e] == 'E') && {
        let f: int = if e + 1 < s.len() && (s[e + 1] == '+' || s[e + 1] == '-') {
            e + 2
        } else {
            e + 1
        };
        f < s.len() && run_end(s, f) == s.len()
    });
    mantissa && exponent
}

/// End of the run of digits starting at `i`.
fn digits_end(s: &[char], i: usize) -> (r: usize)
    requires
        i <= s@.len(),
    ensures
        r == run_end(s@, i as int),
        i <= r <= s@.len(),
{
    let mut j = i;
    while j < s.len() && '0' <= s[j] && s[j] <= '9'
        invariant
            i <= j <= s@.len(),
            run_end(s@, j as int) == run_end(s@, i as int),
        decreases s.len() - j,
    {
        j = j + 1;
    }
    j
}

/// Whether `s` is in finite decimal notation.
pub fn is_decimal_text(s: &[char]) -> (r: bool)
    ensures
        r == decimal_text(s@),
{
    let n = s.len();
    let a: usize = if n > 0 && (s[0] == '+' || s[0] == '-') { 1 } else { 0 };
    let d1 = digits_end(s, a);
    let point = d1 < n && s[d1] == '.';
    let e = if point { digits_end(s, d1 + 1) } else { d1 };
    let mantissa = if point { d1 > a || e > d1 + 1 } else { d1 > a };
    let exponent = if e == n {
        true
    } else if s[e] == 'e' || s[e] == 'E' {
        let f: usize = if e + 1 < n && (s[e + 1] == '+' || s[e + 1] == '-') { e + 2 } else { e + 1 };
        f < n && digits_end(s, f) == n
    } else {
        false
    };
    mantissa && exponent
}

/// The scalar for a parameter text.
pub fn parse_scalar(s: &[char]) -> (r: JsonValue)
    ensures
        scalar_matches(r, s@),
{
    let t = trim_chars(s);
    let ts = string_of(t.as_slice());
    if str_equal(ts.as_str(), "true") {
        JsonValue::Bool(true)
    } else if str_equal(ts.as_str(), "false") {
        JsonValue::Bool(false)
    } else {
        match parse_int(t.as_slice()) {
            Some(i) => JsonValue::Int(i),
            None => {
                if is_decimal_text(t.as_slice()) {
                    JsonValue::Num(ts)
                } else {
                    JsonValue::Str(ts)
                }
            },
        }
    }
}

} // verus!

verus! {

/// A member found by name lies inside the list it was found in.
pub proof fn lemma_field_decreases(fields: Seq<(String, JsonValue)>, key: Seq<char>)
    requires
        crate::json::field_of(fields, key) is Some,
    ensures
        decreases_to!(fields => crate::json::field_of(fields, key)->0),
    decreases fields.len(),
{
    if fields[0].0@ == key {
        assert(decreases_to!(fields => fields[0]));
        assert(decreases_to!(fields[0] => fields[0].1));
    } else {
        lemma_field_decreases(fields.drop_first(), key);
        assert(decreases_to!(fields => fields.drop_first()));
    }
}

pub proof fn lemma_member_decreases(v: JsonValue, key: Seq<char>)
    requires
        member(v, key) is Some,
    ensures
        decreases_to!(v => member(v, key)->0),
{
    let fields = v->Object_0;
    lemma_field_decreases(fields@, key);
    assert(decreases_to!(v => fields));
    assert(decreases_to!(fields => fields@));
}

/// The call that one JSON shape names: a string member `name_key` that is on the
/// allow-list, together with the member `params_key`.
pub open spec fn shape_call(v: JsonValue, name_key: Seq<char>, params_key: Seq<char>) -> Option<
    (Seq<char>, JsonValue),
> {
    match (as_text(member(v, name_key)), member(v, params_key)) {
        (Some(n), Some(p)) => if allowed_tool(n) {
            Some((n, p))
        } else {
            None
        },
        _ => None,
    }
}

/// The call that a JSON document holds, as name and parameters: the shape
/// `{name, parameters}`, else `{tool, args}`, else the document under `tool_call`.
pub open spec fn json_call(v: JsonValue) -> Option<(Seq<char>, JsonValue)>
    decreases v via json_call_decreases
{
    if shape_call(v, "name"@, "parameters"@) is Some {
        shape_call(v, "name"@, "parameters"@)
    } else if shape_call(v, "tool"@, "args"@) is Some {
        shape_call(v, "tool"@, "args"@)
    } else if member(v, "tool_call"@) is Some {
        json_call(member(v, "tool_call"@)->0)
    } else {
        None
    }
}

#[via_fn]
proof fn json_call_decreases(v: JsonValue) {
    if member(v, "tool_call"@) is Some {
        lemma_member_decreases(v, "tool_call"@);
    }
}

/// `c` is the call described by `(name, params)`.
pub open spec fn call_is(c: ToolCall, d: (Seq<char>, JsonValue)) -> bool {
    c.name@ == d.0 && c.parameters == d.1
}

fn shape_of(v: JsonValue, name_key: &str, params_key: &str) -> (r: Result<ToolCall, JsonValue>)
    ensures
        r matches Ok(c) ==> shape_call(v, name_key@, params_key@) matches Some(d) && call_is(c, d),
        r matches Err(w) ==> shape_call(v, name_key@, params_key@) is None && w == v,
{
    let name = get_text(&v, name_key);
    let has_params = get_member(&v, params_key).is_some();
    match name {
        Some(n) => {
            if has_params && is_allowed_tool(n.as_str()) {
                let p = take_member(v, params_key);
                Ok(ToolCall { name: n, parameters: p.unwrap() })
            } else {
                Err(v)
            }
        },
        None => Err(v),
    }
}

/// The call that a JSON document holds, if any.
pub fn json_tool_call(v: JsonValue) -> (r: Option<ToolCall>)
    ensures
        r matches Some(c) ==> json_call(v) matches Some(d) && call_is(c, d),
        r is None ==> json_call(v) is None,
    decreases v,
{
    let v = match shape_of(v, "name", "parameters") {
        Ok(c) => return Some(c),
        Err(w) => w,
    };
    let v = match shape_of(v, "tool", "args") {
        Ok(c) => return Some(c),
        Err(w) => w,
    };
    let ghost v0 = v;
    match take_member(v, "tool_call") {
        Some(inner) => {
            proof {
                lemma_member_decreases(v0, "tool_call"@);
            }
            json_tool_call(inner)
        },
        None => None,
    }
}

} // verus!

verus! {

/// What `quick_xml::escape::unescape` makes of a text, `None` where it refuses it.
pub uninterp spec fn xml_unescape_of(s: Seq<char>) -> Option<Seq<char>>;

/// The text of a predefined XML entity (`lt`, `gt`, `amp`, `apos`, `quot`).
pub open spec fn entity_value(name: Seq<char>) -> Option<Seq<char>> {
    if name == "lt"@ {
        Some("<"@)
    } else if name == "gt"@ {
        Some(">"@)
    } else if name == "amp"@ {
        Some("&"@)
    } else if name == "apos"@ {
        Some("'"@)
    } else if name == "quot"@ {
        Some("\""@)
    } else {
        None
    }
}

/// First position at or after `i` holding `&` or `;`, or the length.
pub open spec fn amp_or_semi(s: Seq<char>, i: int) -> int
    decreases s.len() - i,
{
    if i < 0 || i >= s.len() || s[i] == '&' || s[i] == ';' {
        i
    } else {
        amp_or_semi(s, i + 1)
    }
}

/// `s` from `i` with each reference `&name;` to a predefined entity replaced by
/// its text; `None` where a `&` starts anything else.
pub open spec fn predefined_from(s: Seq<char>, i: int) -> Option<Seq<char>>
    decreases s.len() - i,
{
    let a = find_char(s, i, '&');
    let e = amp_or_semi(s, a + 1);
    if i < 0 || i > s.len() || a < i || a > s.len() {
        None
    } else if a == s.len() {
        Some(s.subrange(i, a))
    } else if e <= a || e >= s.len() || s[e] != ';' {
        None
    } else {
        match (entity_value(s.subrange(a + 1, e)), predefined_from(s, e + 1)) {
            (Some(v), Some(rest)) => Some(s.subrange(i, a) + v + rest),
            _ => None,
        }
    }
}

proof fn lemma_find_char_shift(p: Seq<char>, y: Seq<char>, i: int, c: char)
    requires
        0 <= i <= y.len(),
    ensures
        find_char(p + y, p.len() + i, c) == p.len() + find_char(y, i, c),
    decreases y.len() - i,
{
    if i < y.len() {
        assert((p + y)[p.len() + i] == y[i]);
        lemma_find_char_shift(p, y, i + 1, c);
    }
}

proof fn lemma_amp_or_semi_shift(p: Seq<char>, y: Seq<char>, i: int)
    requires
        0 <= i <= y.len(),
    ensures
        amp_or_semi(p + y, p.len() + i) == p.len() + amp_or_semi(y, i),
    decreases y.len() - i,
{
    if i < y.len() {
        assert((p + y)[p.len() + i] == y[i]);
        lemma_amp_or_semi_shift(p, y, i + 1);
    }
}

proof fn lemma_find_char_bounds(s: Seq<char>, i: int, c: char)
    requires
        0 <= i <= s.len(),
    ensures
        i <= find_char(s, i, c) <= s.len(),
    decreases s.len() - i,
{
    if i < s.len() && s[i] != c {
        lemma_find_char_bounds(s, i + 1, c);
    }
}

proof fn lemma_amp_or_semi_bounds(s: Seq<char>, i: int)
    requires
        0 <= i <= s.len(),
    ensures
        i <= amp_or_semi(s, i) <= s.len(),
    decreases s.len() - i,
{
    if i < s.len() && s[i] != '&' && s[i] != ';' {
        lemma_amp_or_semi_bounds(s, i + 1);
    }
}

proof fn lemma_predefined_shift(p: Seq<char>, y: Seq<char>, i: int)
    requires
        0 <= i <= y.len(),
    ensures
        predefined_from(p + y, p.len() + i) == predefined_from(y, i),
    decreases y.len() - i,
{
    let s = p + y;
    lemma_find_char_shift(p, y, i, '&');
    lemma_find_char_bounds(y, i, '&');
    let a = find_char(y, i, '&');
    if a < y.len() {
        lemma_amp_or_semi_shift(p, y, a + 1);
        lemma_amp_or_semi_bounds(y, a + 1);
        let e = amp_or_semi(y, a + 1);
        assert(s.subrange(p.len() + i, p.len() + a) =~= y.subrange(i, a));
        if e < y.len() {
            assert(s[p.len() + e] == y[e]);
            assert(s.subrange(p.len() + a + 1, p.len() + e) =~= y.subrange(a + 1, e));
            if y[e] == ';' {
                lemma_predefined_shift(p, y, e + 1);
            }
        }
    } else {
        assert(s.subrange(p.len() + i, p.len() + a) =~= y.subrange(i, a));
    }
}

proof fn lemma_find_char_skips(s: Seq<char>, i: int, j: int, c: char)
    requires
        0 <= i <= j < s.len(),
        s[j] == c,
        forall|k: int| i <= k < j ==> s[k] != c,
    ensures
        find_char(s, i, c) == j,
    decreases j - i,
{
    if i < j {
        lemma_find_char_skips(s, i + 1, j, c);
    }
}

proof fn lemma_amp_or_semi_skips(s: Seq<char>, i: int, j: int)
    requires
        0 <= i <= j < s.len(),
        s[j] == ';',
        forall|k: int| i <= k < j ==> s[k] != '&' && s[k] != ';',
    ensures
        amp_or_semi(s, i) == j,
    decreases j - i,
{
    if i < j {
        lemma_amp_or_semi_skips(s, i + 1, j);
    }
}

/// A reference to a predefined entity, after text without `&`, decodes to the
/// entity's character followed by the decoding of what comes after it: `&lt;`,
/// `&amp;` and `&gt;` become `<`, `&` and `>`.
pub proof fn lemma_entity_reference_decodes(x: Seq<char>, name: Seq<char>, y: Seq<char>)
    requires
        forall|k: int| 0 <= k < x.len() ==> x[k] != '&',
        forall|k: int| 0 <= k < name.len() ==> name[k] != '&' && name[k] != ';',
        entity_value(name) is Some,
    ensures
        predefined_from(x + seq!['&'] + name + seq![';'] + y, 0) == (match predefined_from(y, 0) {
            Some(r) => Some(x + entity_value(name)->0 + r),
            None => None,
        }),
{
    let p = x + seq!['&'] + name + seq![';'];
    let s = p + y;
    assert(x + seq!['&'] + name + seq![';'] + y =~= s);
    let a = x.len() as int;
    let e = a + 1 + name.len();
    assert(s[a] == '&');
    assert forall|k: int| 0 <= k < a implies s[k] != '&' by {
        assert(s[k] == x[k]);
    }
    lemma_find_char_skips(s, 0, a, '&');
    assert(s[e] == ';');
    assert forall|k: int| a + 1 <= k < e implies s[k] != '&' && s[k] != ';' by {
        assert(s[k] == name[k - a - 1]);
    }
    lemma_amp_or_semi_skips(s, a + 1, e);
    assert(s.subrange(a + 1, e) =~= name);
    assert(s.subrange(0, a) =~= x);
    assert(p.len() == e + 1);
    lemma_predefined_shift(p, y, 0);
}

/// Relies on `quick_xml::escape::unescape` (without the `escape-html` feature):
/// entity and character references are replaced; where every `&` starts a
/// reference to one of the five predefined entities, the result is that text
/// with each reference replaced by the entity's character.
#[verifier::external_body]
fn xml_unescape(s: &str) -> (r: Option<String>)
    ensures
        r matches Some(t) ==> xml_unescape_of(s@) == Some(t@),
        r is None ==> xml_unescape_of(s@) is None,
        predefined_from(s@, 0) is Some ==> r is Some && r->0@ == predefined_from(s@, 0)->0,
{
    quick_xml::escape::unescape(s).ok().map(|t| t.into_owned())
}

/// The text of an element's content: references decoded where they are
/// well-formed, the raw text otherwise.
pub fn element_text(raw: &[char]) -> (r: String)
    ensures
        xml_unescape_of(raw@) matches Some(t) ==> r@ == t,
        xml_unescape_of(raw@) is None ==> r@ == raw@,
        predefined_from(raw@, 0) matches Some(t) ==> r@ == t,
{
    let s = string_of(raw);
    match xml_unescape(s.as_str()) {
        Some(t) => t,
        None => s,
    }
}

/// One piece of tag-structured text.
pub enum XmlToken {
    /// A start tag; `empty` for a self-closing one.
    Open { name: Vec<char>, attrs: Vec<(Vec<char>, Vec<char>)>, empty: bool },
    Close { name: Vec<char> },
    /// Text between tags, trimmed and never empty.
    Text { raw: Vec<char> },
}

/// A token as character sequences.
pub ghost enum TokenView {
    Open { name: Seq<char>, attrs: Seq<(Seq<char>, Seq<char>)>, empty: bool },
    Close { name: Seq<char> },
    Text { raw: Seq<char> },
}

pub open spec fn attr_views(a: Seq<(Vec<char>, Vec<char>)>) -> Seq<(Seq<char>, Seq<char>)> {
    a.map_values(|p: (Vec<char>, Vec<char>)| (p.0@, p.1@))
}

pub open spec fn token_view(t: XmlToken) -> TokenView {
    match t {
        XmlToken::Open { name, attrs, empty } => TokenView::Open { name: name@, attrs: attr_views(attrs@), empty },
        XmlToken::Close { name } => TokenView::Close { name: name@ },
        XmlToken::Text { raw } => TokenView::Text { raw: raw@ },
    }
}

pub open spec fn token_views(ts: Seq<XmlToken>) -> Seq<TokenView> {
    ts.map_values(|t: XmlToken| token_view(t))
}

/// Where the tag whose body is scanned from `j` closes: the first `>` outside a
/// quoted attribute value; `quote` is the quote currently open.
pub open spec fn tag_close(s: Seq<char>, j: int, quote: Option<char>) -> Option<int>
    decreases s.len() - j,
{
    if j < 0 || j >= s.len() {
        None
    } else {
        let c = s[j];
        match quote {
            Some(q) => tag_close(s, j + 1, if c == q { None } else { quote }),
            None => if c == '>' {
                Some(j)
            } else if c == '<' {
                None
            } else if c == '"' || c == '\'' {
                tag_close(s, j + 1, Some(c))
            } else {
                tag_close(s, j + 1, None)
            },
        }
    }
}

proof fn lemma_tag_close(s: Seq<char>, j: int, quote: Option<char>)
    requires
        0 <= j,
    ensures
        tag_close(s, j, quote) matches Some(k) ==> j <= k < s.len() && s[k] == '>',
    decreases s.len() - j,
{
    if j < s.len() {
        let c = s[j];
        match quote {
            Some(q) => lemma_tag_close(s, j + 1, if c == q { None } else { quote }),
            None => if c == '"' || c == '\'' {
                lemma_tag_close(s, j + 1, Some(c));
            } else if c != '>' && c != '<' {
                lemma_tag_close(s, j + 1, None);
            },
        }
    }
}

/// Position of the `>` that ends the tag opened at `i`.
fn tag_end(s: &[char], i: usize) -> (r: Option<usize>)
    requires
        i < s@.len(),
    ensures
        r matches Some(j) ==> tag_close(s@, i + 1, None) == Some(j as int) && i < j < s@.len(),
        r is None ==> tag_close(s@, i + 1, None) is None,
{
    let n = s.len();
    let mut j = i + 1;
    let mut quote: Option<char> = None;
    while j < n
        invariant
            n == s@.len(),
            i < j <= n,
            tag_close(s@, i + 1, None) == tag_close(s@, j as int, quote),
        decreases n - j,
    {
        let c = s[j];
        match quote {
            Some(q) => {
                if c == q {
                    quote = None;
                }
            },
            None => {
                if c == '>' {
                    return Some(j);
                } else if c == '<' {
                    return None;
                } else if c == '"' || c == '\'' {
                    quote = Some(c);
                }
            },
        }
        j = j + 1;
    }
    None
}

fn skip_spaces(s: &[char], i: usize) -> (r: usize)
    requires
        i <= s@.len(),
    ensures
        r == skip_space(s@, i as int),
        i <= r <= s@.len(),
{
    let mut j = i;
    while j < s.len() && char_is_space(s[j])
        invariant
            i <= j <= s@.len(),
            skip_space(s@, j as int) == skip_space(s@, i as int),
        decreases s.len() - j,
    {
        j = j + 1;
    }
    j
}

/// First position at or after `i` holding `=` or white space, or the length.
pub open spec fn key_end(s: Seq<char>, i: int) -> int
    decreases s.len() - i,
{
    if i < 0 || i >= s.len() || s[i] == '=' || is_space(s[i]) {
        i
    } else {
        key_end(s, i + 1)
    }
}

/// First position at or after `i` holding `c`, or the length.
pub open spec fn find_char(s: Seq<char>, i: int, c: char) -> int
    decreases s.len() - i,
{
    if i < 0 || i >= s.len() || s[i] == c {
        i
    } else {
        find_char(s, i + 1, c)
    }
}

/// The `key="value"` (or single-quoted) attributes of a tag body from `i` on;
/// reading stops at the first malformed one.
pub open spec fn attrs_from(s: Seq<char>, i: int) -> Seq<(Seq<char>, Seq<char>)>
    decreases s.len() - i,
{
    let i1 = skip_space(s, i);
    let i2 = key_end(s, i1);
    let i3 = skip_space(s, i2);
    let i4 = skip_space(s, i3 + 1);
    let j = find_char(s, i4 + 1, s[i4]);
    if i < 0 || i1 < i || i1 >= s.len() || i2 < i1 || i3 < i2 || i3 >= s.len() || s[i3] != '='
        || i1 == i3 || i4 < i3 + 1 || i4 >= s.len() || (s[i4] != '"' && s[i4] != '\'') || j < i4 + 1
        || j >= s.len() {
        Seq::empty()
    } else {
        seq![(s.subrange(i1, i2), s.subrange(i4 + 1, j))] + attrs_from(s, j + 1)
    }
}

proof fn lemma_skip_space_ge(s: Seq<char>, i: int)
    requires
        0 <= i <= s.len(),
    ensures
        i <= skip_space(s, i) <= s.len(),
    decreases s.len() - i,
{
    if i < s.len() && is_space(s[i]) {
        lemma_skip_space_ge(s, i + 1);
    }
}

fn tag_attrs(s: &[char], i: usize) -> (r: Vec<(Vec<char>, Vec<char>)>)
    requires
        i <= s@.len(),
    ensures
        attr_views(r@) == attrs_from(s@, i as int),
{
    let n = s.len();
    let mut out: Vec<(Vec<char>, Vec<char>)> = Vec::new();
    let mut pos = i;
    assert(attr_views(out@) + attrs_from(s@, i as int) =~= attrs_from(s@, i as int));
    while pos < n
        invariant
            n == s@.len(),
            pos <= n,
            attr_views(out@) + attrs_from(s@, pos as int) == attrs_from(s@, i as int),
        decreases n - pos,
    {
        let ghost at = pos as int;
        let ghost before = out@;
        let i1 = skip_spaces(s, pos);
        if i1 >= n {
            assert(attrs_from(s@, at) =~= Seq::empty());
            assert(attr_views(out@) =~= attr_views(out@) + Seq::<(Seq<char>, Seq<char>)>::empty());
            return out;
        }
        let mut i2 = i1;
        while i2 < n && s[i2] != '=' && !char_is_space(s[i2])
            invariant
                i1 <= i2 <= n,
                n == s@.len(),
                key_end(s@, i2 as int) == key_end(s@, i1 as int),
            decreases n - i2,
        {
            i2 = i2 + 1;
        }
        let i3 = skip_spaces(s, i2);
        if i3 >= n || s[i3] != '=' || i1 == i3 {
            assert(attrs_from(s@, at) =~= Seq::empty());
            assert(attr_views(out@) =~= attr_views(out@) + Seq::<(Seq<char>, Seq<char>)>::empty());
            return out;
        }
        let i4 = skip_spaces(s, i3 + 1);
        if i4 >= n || (s[i4] != '"' && s[i4] != '\'') {
            assert(attrs_from(s@, at) =~= Seq::empty());
            assert(attr_views(out@) =~= attr_views(out@) + Seq::<(Seq<char>, Seq<char>)>::empty());
            return out;
        }
        let q = s[i4];
        let mut j = i4 + 1;
        while j < n && s[j] != q
            invariant
                i4 + 1 <= j <= n,
                n == s@.len(),
                find_char(s@, j as int, q) == find_char(s@, i4 + 1, q),
            decreases n - j,
        {
            j = j + 1;
        }
        if j >= n {
            assert(attrs_from(s@, at) =~= Seq::empty());
            assert(attr_views(out@) =~= attr_views(out@) + Seq::<(Seq<char>, Seq<char>)>::empty());
            return out;
        }
        out.push((slice_chars(s, i1, i2), slice_chars(s, i4 + 1, j)));
        proof {
            let pair = (s@.subrange(i1 as int, i2 as int), s@.subrange(i4 + 1, j as int));
            assert(attr_views(out@) =~= attr_views(before).push(pair));
            assert(attrs_from(s@, at) == seq![pair] + attrs_from(s@, j + 1));
            assert(attr_views(out@) + attrs_from(s@, j + 1) =~= attr_views(before) + attrs_from(s@, at));
        }
        pos = j + 1;
    }
    proof {
        assert(attrs_from(s@, pos as int) =~= Seq::empty());
        assert(attr_views(out@) =~= attr_views(out@) + Seq::<(Seq<char>, Seq<char>)>::empty());
    }
    out
}

/// First position before `end` holding white space or `/`, or `end`.
pub open spec fn name_end(s: Seq<char>, i: int, end: int) -> int
    decreases end - i,
{
    if i < 0 || i >= end || i >= s.len() || is_space(s[i]) || s[i] == '/' {
        i
    } else {
        name_end(s, i + 1, end)
    }
}

/// The token for the body of a tag, between `<` and `>`: an end tag, nothing
/// for comments, declarations and nameless tags, else a start tag.
pub open spec fn token_of(inner: Seq<char>) -> Option<TokenView> {
    let n = inner.len() as int;
    if n == 0 {
        None
    } else if inner[0] == '/' {
        Some(TokenView::Close { name: trimmed(inner.subrange(1, n)) })
    } else if inner[0] == '!' || inner[0] == '?' {
        None
    } else {
        let empty = inner[n - 1] == '/';
        let body_end = if empty { n - 1 } else { n };
        let e = name_end(inner, 0, body_end);
        if e <= 0 || e > body_end {
            None
        } else {
            Some(
                TokenView::Open {
                    name: inner.subrange(0, e),
                    attrs: attrs_from(inner.subrange(0, body_end), e),
                    empty,
                },
            )
        }
    }
}

fn tag_token(inner: &[char]) -> (r: Option<XmlToken>)
    ensures
        r matches Some(t) ==> token_of(inner@) == Some(token_view(t)),
        r is None ==> token_of(inner@) is None,
{
    let n = inner.len();
    if n == 0 {
        return None;
    }
    if inner[0] == '/' {
        let name = trim_chars(&slice_chars(inner, 1, n));
        return Some(XmlToken::Close { name });
    }
    if inner[0] == '!' || inner[0] == '?' {
        return None;
    }
    let empty = inner[n - 1] == '/';
    let body_end = if empty { n - 1 } else { n };
    let mut e: usize = 0;
    while e < body_end && !char_is_space(inner[e]) && inner[e] != '/'
        invariant
            e <= body_end <= n,
            n == inner@.len(),
            name_end(inner@, e as int, body_end as int) == name_end(inner@, 0, body_end as int),
        decreases body_end - e,
    {
        e = e + 1;
    }
    if e == 0 {
        return None;
    }
    let name = slice_chars(inner, 0, e);
    let body = slice_chars(inner, 0, body_end);
    let attrs = tag_attrs(&body, e);
    Some(XmlToken::Open { name, attrs, empty })
}

/// A character that may follow `<` to open a tag: a name start, `/`, `!` or `?`.
pub open spec fn tag_opener(c: char) -> bool {
    ('a' <= c <= 'z') || ('A' <= c <= 'Z') || c == '_' || c == ':' || c == '/' || c == '!' || c == '?'
        || c > '\u{7f}'
}

fn is_tag_opener(c: char) -> (r: bool)
    ensures
        r == tag_opener(c),
{
    ('a' <= c && c <= 'z') || ('A' <= c && c <= 'Z') || c == '_' || c == ':' || c == '/' || c == '!'
        || c == '?' || c > '\u{7f}'
}

/// Where the tag that starts at `i` closes, if a tag starts there: a `<`
/// followed by a tag opener, closed by a `>` before any other `<`.
pub open spec fn tag_at(s: Seq<char>, i: int) -> Option<int> {
    if 0 <= i && i + 1 < s.len() && s[i] == '<' && tag_opener(s[i + 1]) {
        tag_close(s, i + 1, None)
    } else {
        None
    }
}

/// The tokens of `s` from `i` on: tags, and the trimmed non-empty text
/// between them. A `<` that opens no tag, or whose tag never closes, is text.
pub open spec fn tokens_from(s: Seq<char>, i: int) -> Seq<TokenView>
    decreases s.len() - i,
{
    if i < 0 || i >= s.len() {
        Seq::empty()
    } else if tag_at(s, i) is Some && i < tag_at(s, i)->0 < s.len() {
        let j = tag_at(s, i)->0;
        let head = match token_of(s.subrange(i + 1, j)) {
            Some(t) => seq![t],
            None => Seq::empty(),
        };
        head + tokens_from(s, j + 1)
    } else {
        let k = find_char(s, i + 1, '<');
        let raw = trimmed(s.subrange(i, k));
        if k <= i || k > s.len() {
            Seq::empty()
        } else {
            let head = if raw.len() > 0 {
                seq![TokenView::Text { raw }]
            } else {
                Seq::empty()
            };
            head + tokens_from(s, k)
        }
    }
}

/// Splits text into tags and the trimmed, non-empty text between them.
pub fn xml_tokens(s: &[char]) -> (r: Vec<XmlToken>)
    ensures
        token_views(r@) == tokens_from(s@, 0),
{
    let n = s.len();
    let mut out: Vec<XmlToken> = Vec::new();
    let mut i: usize = 0;
    while i < n
        invariant
            n == s@.len(),
            i <= n,
            token_views(out@) + tokens_from(s@, i as int) == tokens_from(s@, 0),
        decreases n - i,
    {
        let ghost before = out@;
        let ghost at = i as int;
        let opens = s[i] == '<' && i + 1 < n && is_tag_opener(s[i + 1]);
        let close = if opens { tag_end(s, i) } else { None };
        assert(close matches Some(j) ==> tag_at(s@, at) == Some(j as int) && at < j < n);
        assert(close is None ==> !(tag_at(s@, at) is Some && at < tag_at(s@, at)->0 < n));
        match close {
            Some(j) => {
                let inner = slice_chars(s, i + 1, j);
                match tag_token(&inner) {
                    Some(t) => {
                        out.push(t);
                        proof {
                            assert(token_views(out@) =~= token_views(before).push(token_view(out@.last())));
                        }
                    },
                    None => {},
                }
                proof {
                    let head = match token_of(s@.subrange(at + 1, j as int)) {
                        Some(t) => seq![t],
                        None => Seq::<TokenView>::empty(),
                    };
                    assert(tokens_from(s@, at) == head + tokens_from(s@, j + 1));
                    assert(token_views(out@) =~= token_views(before) + head);
                }
                i = j + 1;
            },
            None => {
                let mut k = i + 1;
                while k < n && s[k] != '<'
                    invariant
                        i + 1 <= k <= n,
                        n == s@.len(),
                        find_char(s@, k as int, '<') == find_char(s@, i + 1, '<'),
                    decreases n - k,
                {
                    k = k + 1;
                }
                let raw = trim_chars(&slice_chars(s, i, k));
                if raw.len() > 0 {
                    out.push(XmlToken::Text { raw });
                    proof {
                        assert(token_views(out@) =~= token_views(before).push(token_view(out@.last())));
                    }
                }
                proof {
                    let traw = trimmed(s@.subrange(at, k as int));
                    let head = if traw.len() > 0 {
                        seq![TokenView::Text { raw: traw }]
                    } else {
                        Seq::<TokenView>::empty()
                    };
                    assert(tokens_from(s@, at) == head + tokens_from(s@, k as int));
                    assert(token_views(out@) =~= token_views(before) + head);
                }
                i = k;
            },
        }
    }
    proof {
        assert(tokens_from(s@, i as int) =~= Seq::empty());
        assert(token_views(out@) =~= token_views(out@) + Seq::<TokenView>::empty());
    }
    out
}

fn chars_equal(a: &[char], b: &str) -> (r: bool)
    ensures
        r == (a@ == b@),
{
    let s = string_of(a);
    str_equal(s.as_str(), b)
}

/// The value of the last attribute named `key`.
pub open spec fn last_attr_of(attrs: Seq<(Seq<char>, Seq<char>)>, key: Seq<char>) -> Option<Seq<char>>
    decreases attrs.len(),
{
    if attrs.len() == 0 {
        None
    } else if attrs.last().0 == key {
        Some(attrs.last().1)
    } else {
        last_attr_of(attrs.drop_last(), key)
    }
}

fn last_attr(attrs: &Vec<(Vec<char>, Vec<char>)>, key: &str) -> (r: Option<String>)
    ensures
        opt_text(r) == last_attr_of(attr_views(attrs@), key@),
{
    let ghost av = attr_views(attrs@);
    let mut found: Option<String> = None;
    let mut i: usize = 0;
    while i < attrs.len()
        invariant
            i <= attrs@.len(),
            av == attr_views(attrs@),
            opt_text(found) == last_attr_of(av.subrange(0, i as int), key@),
        decreases attrs.len() - i,
    {
        proof {
            assert(av.subrange(0, i + 1).drop_last() =~= av.subrange(0, i as int));
            assert(av.subrange(0, i + 1).last() == (attrs@[i as int].0@, attrs@[i as int].1@));
        }
        if chars_equal(&attrs[i].0, key) {
            found = Some(string_of(&attrs[i].1));
        }
        i = i + 1;
    }
    proof {
        assert(av.subrange(0, i as int) =~= av);
    }
    found
}

pub open spec fn opt_text(o: Option<String>) -> Option<Seq<char>> {
    match o {
        Some(s) => Some(s@),
        None => None,
    }
}

/// Position of the first pair named `k` at or after `i`.
pub open spec fn pair_index(pairs: Seq<(Seq<char>, Seq<char>)>, k: Seq<char>, i: int) -> Option<int>
    decreases pairs.len() - i,
{
    if i < 0 || i >= pairs.len() {
        None
    } else if pairs[i].0 == k {
        Some(i)
    } else {
        pair_index(pairs, k, i + 1)
    }
}

/// Position of the first member named `k` at or after `i`.
pub open spec fn member_index(fields: Seq<(String, JsonValue)>, k: Seq<char>, i: int) -> Option<int>
    decreases fields.len() - i,
{
    if i < 0 || i >= fields.len() {
        None
    } else if fields[i].0@ == k {
        Some(i)
    } else {
        member_index(fields, k, i + 1)
    }
}

/// `pairs` with `k` set to `v`: the first pair of that name is replaced, else one is appended.
pub open spec fn insert_pair(pairs: Seq<(Seq<char>, Seq<char>)>, k: Seq<char>, v: Seq<char>) -> Seq<
    (Seq<char>, Seq<char>),
> {
    match pair_index(pairs, k, 0) {
        Some(j) => pairs.update(j, (k, v)),
        None => pairs.push((k, v)),
    }
}

/// The parameter texts of a compact tag: its attributes, a later one of the
/// same name replacing the value of an earlier one.
pub open spec fn attr_pairs(attrs: Seq<(Seq<char>, Seq<char>)>) -> Seq<(Seq<char>, Seq<char>)>
    decreases attrs.len(),
{
    if attrs.len() == 0 {
        Seq::empty()
    } else {
        insert_pair(attr_pairs(attrs.drop_last()), attrs.last().0, attrs.last().1)
    }
}

/// Members named as the pairs, each value the scalar its text stands for.
pub open spec fn pairs_fit(fields: Seq<(String, JsonValue)>, pairs: Seq<(Seq<char>, Seq<char>)>) -> bool {
    &&& fields.len() == pairs.len()
    &&& forall|i: int|
        0 <= i < fields.len() ==> (#[trigger] fields[i]).0@ == pairs[i].0 && scalar_matches(
            fields[i].1,
            pairs[i].1,
        )
}

/// `c` is the call named `d.0` whose parameters are the texts `d.1` read as scalars.
pub open spec fn call_fits(c: ToolCall, d: (Seq<char>, Seq<(Seq<char>, Seq<char>)>)) -> bool {
    c.name@ == d.0 && c.parameters is Object && pairs_fit(c.parameters->Object_0@, d.1)
}

proof fn lemma_index_agrees(
    fields: Seq<(String, JsonValue)>,
    pairs: Seq<(Seq<char>, Seq<char>)>,
    k: Seq<char>,
    i: int,
)
    requires
        pairs_fit(fields, pairs),
        0 <= i <= fields.len(),
    ensures
        member_index(fields, k, i) == pair_index(pairs, k, i),
    decreases fields.len() - i,
{
    if i < fields.len() {
        assert(fields[i].0@ == pairs[i].0);
        lemma_index_agrees(fields, pairs, k, i + 1);
    }
}

proof fn lemma_index_bounds(pairs: Seq<(Seq<char>, Seq<char>)>, k: Seq<char>, i: int)
    requires
        0 <= i,
    ensures
        pair_index(pairs, k, i) matches Some(j) ==> i <= j < pairs.len() && pairs[j].0 == k,
    decreases pairs.len() - i,
{
    if i < pairs.len() && pairs[i].0 != k {
        lemma_index_bounds(pairs, k, i + 1);
    }
}

/// Sets member `key` of `fields` to `v`, replacing an earlier value of that name.
pub fn set_member(fields: &mut Vec<(String, JsonValue)>, key: String, v: JsonValue)
    ensures
        member_index(old(fields)@, key@, 0) matches Some(j) ==> final(fields)@ == old(fields)@.update(
            j,
            (key, v),
        ),
        member_index(old(fields)@, key@, 0) is None ==> final(fields)@ == old(fields)@.push((key, v)),
{
    let ghost orig = fields@;
    let mut i: usize = 0;
    while i < fields.len()
        invariant
            i <= fields@.len(),
            fields@ == orig,
            orig == old(fields)@,
            member_index(orig, key@, 0) == member_index(orig, key@, i as int),
        decreases fields.len() - i,
    {
        if str_eq(&fields[i].0, &key) {
            assert(orig[i as int].0@ == key@);
            assert(member_index(orig, key@, i as int) == Some(i as int));
            fields[i] = (key, v);
            return;
        }
        i = i + 1;
    }
    fields.push((key, v));
}

proof fn lemma_set_member_fits(
    before: Seq<(String, JsonValue)>,
    pairs: Seq<(Seq<char>, Seq<char>)>,
    key: String,
    v: JsonValue,
    text: Seq<char>,
    after: Seq<(String, JsonValue)>,
)
    requires
        pairs_fit(before, pairs),
        scalar_matches(v, text),
        member_index(before, key@, 0) matches Some(j) ==> after == before.update(j, (key, v)),
        member_index(before, key@, 0) is None ==> after == before.push((key, v)),
    ensures
        pairs_fit(after, insert_pair(pairs, key@, text)),
{
    lemma_index_agrees(before, pairs, key@, 0);
    lemma_index_bounds(pairs, key@, 0);
    let np = insert_pair(pairs, key@, text);
    assert forall|i: int| 0 <= i < after.len() implies (#[trigger] after[i]).0@ == np[i].0 && scalar_matches(
        after[i].1,
        np[i].1,
    ) by {
        if i < before.len() {
            assert(before[i].0@ == pairs[i].0);
        }
    }
}

/// The parameters of a compact tag: each attribute, its value read as a scalar.
fn attr_params(attrs: &Vec<(Vec<char>, Vec<char>)>) -> (r: JsonValue)
    ensures
        r is Object,
        pairs_fit(r->Object_0@, attr_pairs(attr_views(attrs@))),
{
    let ghost av = attr_views(attrs@);
    let mut fields: Vec<(String, JsonValue)> = Vec::new();
    let mut i: usize = 0;
    proof {
        assert(attr_pairs(av.subrange(0, 0)) =~= Seq::<(Seq<char>, Seq<char>)>::empty());
    }
    while i < attrs.len()
        invariant
            i <= attrs@.len(),
            av == attr_views(attrs@),
            pairs_fit(fields@, attr_pairs(av.subrange(0, i as int))),
        decreases attrs.len() - i,
    {
        let ghost before = fields@;
        let ghost prev = attr_pairs(av.subrange(0, i as int));
        proof {
            assert(av.subrange(0, i + 1).drop_last() =~= av.subrange(0, i as int));
            assert(av.subrange(0, i + 1).last() == (attrs@[i as int].0@, attrs@[i as int].1@));
        }
        let k = string_of(&attrs[i].0);
        let v = parse_scalar(&attrs[i].1);
        set_member(&mut fields, k, v);
        proof {
            lemma_set_member_fits(before, prev, k, v, attrs@[i as int].1@, fields@);
        }
        i = i + 1;
    }
    proof {
        assert(av.subrange(0, i as int) =~= av);
    }
    JsonValue::Object(fields)
}

/// Where the reading of tags stands: the `<invoke>` block being read, with the
/// parameter texts gathered so far, and the `<parameter>` being read.
pub ghost struct TagState {
    pub invoke: Option<(Seq<char>, Seq<(Seq<char>, Seq<char>)>)>,
    pub param: Option<Seq<char>>,
}

/// The text an element's content stands for: references decoded where they
/// are well-formed, the raw text otherwise.
pub open spec fn element_value(raw: Seq<char>) -> Seq<char> {
    match xml_unescape_of(raw) {
        Some(t) => t,
        None => raw,
    }
}

/// One token read: the new state, and the call it completes, if any.
pub open spec fn tag_step(st: TagState, t: TokenView) -> (TagState, Option<(Seq<char>, Seq<(Seq<char>, Seq<char>)>)>) {
    match t {
        TokenView::Open { name, attrs, empty } => if !empty && name == "invoke"@ {
            match last_attr_of(attrs, "name"@) {
                Some(n) => if allowed_tool(n) {
                    (TagState { invoke: Some((n, Seq::empty())), ..st }, None)
                } else {
                    (st, None)
                },
                None => (st, None),
            }
        } else if !empty && name == "parameter"@ && st.invoke is Some {
            match last_attr_of(attrs, "name"@) {
                Some(p) => (TagState { param: Some(p), ..st }, None),
                None => (st, None),
            }
        } else if allowed_tool(name) {
            (st, Some((name, attr_pairs(attrs))))
        } else {
            (st, None)
        },
        TokenView::Text { raw } => match (st.invoke, st.param) {
            (Some((n, ps)), Some(p)) => (
                TagState { invoke: Some((n, insert_pair(ps, p, element_value(raw)))), ..st },
                None,
            ),
            _ => (st, None),
        },
        TokenView::Close { name } => if name == "invoke"@ {
            (TagState { invoke: None, ..st }, st.invoke)
        } else if name == "parameter"@ {
            (TagState { param: None, ..st }, None)
        } else {
            (st, None)
        },
    }
}

/// The state after the tokens, and the calls they describe, in order.
pub open spec fn tag_run(ts: Seq<TokenView>) -> (TagState, Seq<(Seq<char>, Seq<(Seq<char>, Seq<char>)>)>)
    decreases ts.len(),
{
    if ts.len() == 0 {
        (TagState { invoke: None, param: None }, Seq::empty())
    } else {
        let (st, ds) = tag_run(ts.drop_last());
        let (st2, found) = tag_step(st, ts.last());
        (st2, match found {
            Some(d) => ds.push(d),
            None => ds,
        })
    }
}

/// `after` is `before` with the calls `descs` describes appended in order,
/// each one only when allow-listed and not equal to a call already present.
pub open spec fn extended_tags(
    before: Seq<ToolCall>,
    descs: Seq<(Seq<char>, Seq<(Seq<char>, Seq<char>)>)>,
    after: Seq<ToolCall>,
) -> bool
    decreases descs.len(),
{
    if descs.len() == 0 {
        after == before
    } else {
        let d = descs.last();
        (after.len() > before.len() && call_fits(after.last(), d) && allowed_tool(d.0) && !(exists|i: int|
            0 <= i < after.len() - 1 && call_same(after[i], after.last())) && extended_tags(
            before,
            descs.drop_last(),
            after.drop_last(),
        )) || ((!allowed_tool(d.0) || exists|c: ToolCall, i: int|
            call_fits(c, d) && 0 <= i < after.len() && #[trigger] call_same(after[i], c))
            && extended_tags(
            before,
            descs.drop_last(),
            after,
        ))
    }
}

proof fn lemma_tag_step_extends(
    before: Seq<ToolCall>,
    descs: Seq<(Seq<char>, Seq<(Seq<char>, Seq<char>)>)>,
    mid: Seq<ToolCall>,
    d: (Seq<char>, Seq<(Seq<char>, Seq<char>)>),
    c: ToolCall,
    after: Seq<ToolCall>,
)
    requires
        extended_tags(before, descs, mid),
        mid.len() >= before.len(),
        call_fits(c, d),
        (allowed_tool(c.name@) && !exists|i: int| 0 <= i < mid.len() && call_same(mid[i], c))
            ==> after == mid.push(c),
        !(allowed_tool(c.name@) && !exists|i: int| 0 <= i < mid.len() && call_same(mid[i], c))
            ==> after == mid,
    ensures
        extended_tags(before, descs.push(d), after),
{
    assert(descs.push(d).drop_last() =~= descs);
    if allowed_tool(c.name@) && !exists|i: int| 0 <= i < mid.len() && call_same(mid[i], c) {
        assert(after.drop_last() =~= mid);
        assert(after.last() == c);
    } else if allowed_tool(c.name@) {
        let i = choose|i: int| 0 <= i < mid.len() && call_same(mid[i], c);
        assert(call_fits(c, d) && 0 <= i < after.len() && call_same(after[i], c));
    }
}

/// Calls written as `<invoke name="..."><parameter name="...">value</parameter></invoke>`
/// blocks or as compact tags named after a tool, in document order.
pub fn tag_calls(tokens: &Vec<XmlToken>, calls: &mut Vec<ToolCall>)
    requires
        calls_ok(old(calls)@),
    ensures
        calls_ok(final(calls)@),
        extended_tags(old(calls)@, tag_run(token_views(tokens@)).1, final(calls)@),
        old(calls)@.len() <= final(calls)@.len(),
        final(calls)@.subrange(0, old(calls)@.len() as int) == old(calls)@,
{
    let ghost start = calls@;
    let ghost tv = token_views(tokens@);
    let mut invoke: Option<(String, Vec<(String, JsonValue)>)> = None;
    let mut param: Option<String> = None;
    let mut i: usize = 0;
    while i < tokens.len()
        invariant
            i <= tokens@.len(),
            tv == token_views(tokens@),
            calls_ok(calls@),
            start.len() <= calls@.len(),
            calls@.subrange(0, start.len() as int) == start,
            extended_tags(start, tag_run(tv.subrange(0, i as int)).1, calls@),
            opt_text(param) == tag_run(tv.subrange(0, i as int)).0.param,
            invoke is None <==> tag_run(tv.subrange(0, i as int)).0.invoke is None,
            invoke matches Some((t, fields)) ==> (tag_run(tv.subrange(0, i as int)).0.invoke matches Some(
                (n, ps),
            ) && t@ == n && pairs_fit(fields@, ps)),
        decreases tokens.len() - i,
    {
        let ghost mid = calls@;
        let ghost st = tag_run(tv.subrange(0, i as int)).0;
        proof {
            assert(tv.subrange(0, i + 1).drop_last() =~= tv.subrange(0, i as int));
            assert(tv.subrange(0, i + 1).last() == token_view(tokens@[i as int]));
        }
        match &tokens[i] {
            XmlToken::Open { name, attrs, empty } => {
                let tag = string_of(name);
                if !*empty && str_equal(tag.as_str(), "invoke") {
                    match last_attr(attrs, "name") {
                        Some(t) => {
                            if is_allowed_tool(t.as_str()) {
                                invoke = Some((t, Vec::new()));
                                proof {
                                    assert(pairs_fit(Seq::<(String, JsonValue)>::empty(), Seq::<(Seq<char>, Seq<char>)>::empty()));
                                }
                            }
                        },
                        None => {},
                    }
                } else if !*empty && str_equal(tag.as_str(), "parameter") && invoke.is_some() {
                    match last_attr(attrs, "name") {
                        Some(p) => {
                            param = Some(p);
                        },
                        None => {},
                    }
                } else if is_allowed_tool(tag.as_str()) {
                    let c = ToolCall { name: tag, parameters: attr_params(attrs) };
                    let ghost d = (name@, attr_pairs(attr_views(attrs@)));
                    add_call(calls, c);
                    proof {
                        lemma_tag_step_extends(start, tag_run(tv.subrange(0, i as int)).1, mid, d, c, calls@);
                    }
                }
            },
            XmlToken::Text { raw } => {
                if invoke.is_some() && param.is_some() {
                    let p = match &param {
                        Some(p) => p.clone(),
                        None => String::new(),
                    };
                    let (t, mut fields) = invoke.unwrap();
                    let ghost before = fields@;
                    let text = element_text(raw);
                    let v = parse_scalar(&chars_of(text.as_str()));
                    set_member(&mut fields, p, v);
                    proof {
                        let ps = (st.invoke->0).1;
                        lemma_set_member_fits(before, ps, p, v, element_value(raw@), fields@);
                    }
                    invoke = Some((t, fields));
                }
            },
            XmlToken::Close { name } => {
                if chars_equal(name, "invoke") {
                    match invoke {
                        Some((t, fields)) => {
                            let ghost d = st.invoke->0;
                            let c = ToolCall { name: t, parameters: JsonValue::Object(fields) };
                            add_call(calls, c);
                            proof {
                                lemma_tag_step_extends(start, tag_run(tv.subrange(0, i as int)).1, mid, d, c, calls@);
                            }
                        },
                        None => {},
                    }
                    invoke = None;
                } else if chars_equal(name, "parameter") {
                    param = None;
                }
            },
        }
        proof {
            assert(calls@.subrange(0, start.len() as int) =~= start);
        }
        i = i + 1;
    }
    proof {
        assert(tv.subrange(0, i as int) =~= tv);
    }
}

/// An earlier call has the name and parameters that `d` describes.
pub open spec fn dup_of(list: Seq<ToolCall>, d: (Seq<char>, JsonValue)) -> bool {
    exists|i: int| 0 <= i < list.len() && list[i].name@ == d.0 && json_same(list[i].parameters, d.1)
}

/// `after` is `before` with the calls `descs` describes appended in order,
/// each one only when allow-listed and not equal to a call already present.
pub open spec fn extended(
    before: Seq<ToolCall>,
    descs: Seq<(Seq<char>, JsonValue)>,
    after: Seq<ToolCall>,
) -> bool
    decreases descs.len(),
{
    if descs.len() == 0 {
        after == before
    } else {
        let d = descs.last();
        (after.len() > before.len() && call_is(after.last(), d) && allowed_tool(d.0) && !dup_of(
            after.drop_last(),
            d,
        ) && extended(before, descs.drop_last(), after.drop_last())) || (!(allowed_tool(d.0)
            && !dup_of(after, d)) && extended(before, descs.drop_last(), after))
    }
}

proof fn lemma_extended_step(
    before: Seq<ToolCall>,
    descs: Seq<(Seq<char>, JsonValue)>,
    mid: Seq<ToolCall>,
    d: (Seq<char>, JsonValue),
    c: ToolCall,
    after: Seq<ToolCall>,
)
    requires
        extended(before, descs, mid),
        mid.len() >= before.len(),
        call_is(c, d),
        (allowed_tool(c.name@) && !exists|i: int| 0 <= i < mid.len() && call_same(mid[i], c))
            ==> after == mid.push(c),
        !(allowed_tool(c.name@) && !exists|i: int| 0 <= i < mid.len() && call_same(mid[i], c))
            ==> after == mid,
    ensures
        extended(before, descs.push(d), after),
{
    assert(descs.push(d).drop_last() =~= descs);
    assert(dup_of(mid, d) == exists|i: int| 0 <= i < mid.len() && call_same(mid[i], c));
    if after.len() > mid.len() {
        assert(after.drop_last() =~= mid);
    }
}

proof fn lemma_extended_len(before: Seq<ToolCall>, descs: Seq<(Seq<char>, JsonValue)>, after: Seq<ToolCall>)
    requires
        extended(before, descs, after),
    ensures
        after.len() >= before.len(),
    decreases descs.len(),
{
    if descs.len() > 0 {
        if after.len() > before.len() && call_is(after.last(), descs.last()) && extended(before, descs.drop_last(), after.drop_last()) {
        } else {
            lemma_extended_len(before, descs.drop_last(), after);
        }
    }
}

/// Appending two runs of calls one after the other appends their concatenation.
pub proof fn lemma_extended_concat(
    a: Seq<ToolCall>,
    d1: Seq<(Seq<char>, JsonValue)>,
    b: Seq<ToolCall>,
    d2: Seq<(Seq<char>, JsonValue)>,
    c: Seq<ToolCall>,
)
    requires
        extended(a, d1, b),
        extended(b, d2, c),
    ensures
        extended(a, d1 + d2, c),
    decreases d2.len(),
{
    lemma_extended_len(a, d1, b);
    if d2.len() == 0 {
        assert(d1 + d2 =~= d1);
    } else {
        let d = d2.last();
        assert((d1 + d2).drop_last() =~= d1 + d2.drop_last());
        assert((d1 + d2).last() == d);
        if c.len() > b.len() && call_is(c.last(), d) && allowed_tool(d.0) && !dup_of(c.drop_last(), d)
            && extended(b, d2.drop_last(), c.drop_last()) {
            lemma_extended_concat(a, d1, b, d2.drop_last(), c.drop_last());
        } else {
            lemma_extended_concat(a, d1, b, d2.drop_last(), c);
        }
    }
}

/// The call described by the JSON object that opens at `a`: candidate closing
/// braces before `e` are tried from the last one backwards, and the first
/// candidate that parses and holds a call decides.
pub open spec fn json_call_at(s: Seq<char>, a: int, e: int) -> Option<(Seq<char>, JsonValue)>
    decreases e - a,
{
    if e <= a + 1 {
        None
    } else {
        let k = e - 1;
        let found = if s[k] == '}' {
            match json_parse_of(s.subrange(a, k + 1)) {
                Some(v) => json_call(v),
                None => None,
            }
        } else {
            None
        };
        if found is Some {
            found
        } else {
            json_call_at(s, a, k)
        }
    }
}

/// The calls that the JSON objects opening before position `n` describe, in
/// order of their opening brace.
pub open spec fn json_descs(s: Seq<char>, n: int) -> Seq<(Seq<char>, JsonValue)>
    decreases n,
{
    if n <= 0 || n > s.len() {
        Seq::empty()
    } else {
        let rest = json_descs(s, n - 1);
        if s[n - 1] == '{' && json_call_at(s, n - 1, s.len() as int) is Some {
            rest.push(json_call_at(s, n - 1, s.len() as int)->0)
        } else {
            rest
        }
    }
}

/// Calls held by JSON objects embedded in the text.
pub fn json_calls(s: &[char], calls: &mut Vec<ToolCall>)
    requires
        calls_ok(old(calls)@),
    ensures
        calls_ok(final(calls)@),
        extended(old(calls)@, json_descs(s@, s@.len() as int), final(calls)@),
        old(calls)@.len() <= final(calls)@.len(),
        final(calls)@.subrange(0, old(calls)@.len() as int) == old(calls)@,
{
    let ghost start = calls@;
    let n = s.len();
    let mut a: usize = 0;
    while a < n
        invariant
            n == s@.len(),
            a <= n,
            calls_ok(calls@),
            start.len() <= calls@.len(),
            calls@.subrange(0, start.len() as int) == start,
            extended(start, json_descs(s@, a as int), calls@),
        decreases n - a,
    {
        let ghost mid = calls@;
        if s[a] == '{' {
            let mut e: usize = n;
            let mut found: Option<ToolCall> = None;
            while e > a + 1 && found.is_none()
                invariant
                    n == s@.len(),
                    a < n,
                    e <= n,
                    found is None ==> json_call_at(s@, a as int, n as int) == json_call_at(s@, a as int, e as int),
                    found matches Some(c) ==> json_call_at(s@, a as int, n as int) matches Some(d) && call_is(c, d),
                decreases e,
            {
                let k = e - 1;
                if s[k] == '}' {
                    let candidate = string_of(&slice_chars(s, a, k + 1));
                    match parse_json(candidate.as_str()) {
                        Some(v) => {
                            found = json_tool_call(v);
                        },
                        None => {},
                    }
                }
                e = k;
            }
            match found {
                Some(c) => {
                    let ghost d = json_call_at(s@, a as int, n as int)->0;
                    add_call(calls, c);
                    proof {
                        lemma_extended_step(start, json_descs(s@, a as int), mid, d, c, calls@);
                        assert(json_descs(s@, a + 1) == json_descs(s@, a as int).push(d));
                        assert(calls@.subrange(0, start.len() as int) =~= start);
                    }
                },
                None => {
                    proof {
                        assert(json_descs(s@, a + 1) == json_descs(s@, a as int));
                    }
                },
            }
        } else {
            proof {
                assert(json_descs(s@, a + 1) == json_descs(s@, a as int));
            }
        }
        a = a + 1;
    }
}

/// The call a `tool_call: ` line describes.
pub open spec fn directive_desc(line: Seq<char>) -> Option<(Seq<char>, JsonValue)> {
    if starts_with(line, "tool_call: "@) {
        match json_parse_of(line.subrange("tool_call: "@.len() as int, line.len() as int)) {
            Some(v) => shape_call(v, "name"@, "parameters"@),
            None => None,
        }
    } else {
        None
    }
}

/// The calls that directive lines describe, in line order.
pub open spec fn directive_descs(lines: Seq<Seq<char>>) -> Seq<(Seq<char>, JsonValue)>
    decreases lines.len(),
{
    if lines.len() == 0 {
        Seq::empty()
    } else {
        let rest = directive_descs(lines.drop_last());
        match directive_desc(lines.last()) {
            Some(d) => rest.push(d),
            None => rest,
        }
    }
}

/// Calls written as `tool_call: {"name": ..., "parameters": ...}` lines.
pub fn directive_calls(s: &[char], calls: &mut Vec<ToolCall>)
    requires
        calls_ok(old(calls)@),
    ensures
        calls_ok(final(calls)@),
        extended(old(calls)@, directive_descs(lines_of(s@)), final(calls)@),
        old(calls)@.len() <= final(calls)@.len(),
        final(calls)@.subrange(0, old(calls)@.len() as int) == old(calls)@,
{
    let ghost start = calls@;
    let lines = text_lines(s);
    let ghost ls = char_rows(lines@);
    let prefix = chars_of("tool_call: ");
    let mut i: usize = 0;
    while i < lines.len()
        invariant
            i <= lines@.len(),
            ls == char_rows(lines@),
            ls == lines_of(s@),
            prefix@ == "tool_call: "@,
            calls_ok(calls@),
            start.len() <= calls@.len(),
            calls@.subrange(0, start.len() as int) == start,
            extended(start, directive_descs(ls.subrange(0, i as int)), calls@),
        decreases lines.len() - i,
    {
        let ghost mid = calls@;
        proof {
            assert(ls.subrange(0, i + 1).drop_last() =~= ls.subrange(0, i as int));
            assert(ls.subrange(0, i + 1).last() == lines@[i as int]@);
        }
        let line = &lines[i];
        let mut added = false;
        if starts_with_chars(line, &prefix) {
            let rest = string_of(&slice_chars(line, prefix.len(), line.len()));
            match parse_json(rest.as_str()) {
                Some(v) => {
                    match shape_of(v, "name", "parameters") {
                        Ok(c) => {
                            let ghost d = directive_desc(lines@[i as int]@)->0;
                            add_call(calls, c);
                            proof {
                                lemma_extended_step(start, directive_descs(ls.subrange(0, i as int)), mid, d, c, calls@);
                                assert(calls@.subrange(0, start.len() as int) =~= start);
                            }
                            added = true;
                        },
                        Err(_) => {},
                    }
                },
                None => {},
            }
        }
        i = i + 1;
    }
    proof {
        assert(ls.subrange(0, i as int) =~= ls);
    }
}

/// `calls` are the tool calls that model output `text` holds: the calls of
/// its tag forms in document order, then those of its embedded JSON objects,
/// then those of its `tool_call: ` lines; each allow-listed, none repeating an
/// earlier one.
pub open spec fn parsed(text: Seq<char>, calls: Seq<ToolCall>) -> bool {
    &&& calls_ok(calls)
    &&& exists|k: int|
        0 <= k <= calls.len() && extended_tags(
            Seq::empty(),
            tag_run(tokens_from(text, 0)).1,
            calls.subrange(0, k),
        ) && extended(
            calls.subrange(0, k),
            json_descs(text, text.len() as int) + directive_descs(lines_of(text)),
            calls,
        )
}

/// Text that describes no call in any encoding yields no call.
pub proof fn lemma_no_described_calls(text: Seq<char>, calls: Seq<ToolCall>)
    requires
        tag_run(tokens_from(text, 0)).1.len() == 0,
        json_descs(text, text.len() as int).len() == 0,
        directive_descs(lines_of(text)).len() == 0,
        parsed(text, calls),
    ensures
        calls.len() == 0,
{
    let k = choose|k: int|
        0 <= k <= calls.len() && extended_tags(
            Seq::empty(),
            tag_run(tokens_from(text, 0)).1,
            calls.subrange(0, k),
        ) && extended(
            calls.subrange(0, k),
            json_descs(text, text.len() as int) + directive_descs(lines_of(text)),
            calls,
        );
    assert(json_descs(text, text.len() as int) + directive_descs(lines_of(text)) =~= Seq::<(Seq<char>, JsonValue)>::empty());
}

/// Extracts the tool calls that model output holds, in the order: tag forms in
/// document order, embedded JSON objects, `tool_call: ` lines. Every call is
/// allow-listed and none repeats an earlier one.
pub fn parse_tool_calls(text: &str) -> (r: Vec<ToolCall>)
    ensures
        parsed(text@, r@),
{
    let s = chars_of(text);
    let mut calls: Vec<ToolCall> = Vec::new();
    assert(calls@ =~= Seq::<ToolCall>::empty());
    let tokens = xml_tokens(&s);
    tag_calls(&tokens, &mut calls);
    let ghost tagged = calls@;
    json_calls(&s, &mut calls);
    let ghost with_json = calls@;
    directive_calls(&s, &mut calls);
    proof {
        lemma_extended_concat(tagged, json_descs(s@, s@.len() as int), with_json, directive_descs(lines_of(s@)), calls@);
        lemma_extended_len(tagged, json_descs(s@, s@.len() as int), with_json);
        assert(calls@.subrange(0, tagged.len() as int) == tagged);
        assert(0 <= tagged.len() <= calls@.len());
    }
    calls
}

} // verus!
