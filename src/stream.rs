//! Framing of the byte streams that model backends send, and the text each
//! decoded message contributes: newline-delimited JSON, server-sent events and
//! a streamed JSON array cut into top-level values.
use vstd::prelude::*;
use crate::text::{str_equal, chars_of, string_of, trim_chars, trimmed, starts_with, starts_with_chars, slice_chars};
use crate::json::{JsonValue, member, as_text, get_member, parse_json, json_parse_of};

verus! {

/// The text that `String::from_utf8_lossy` makes of some bytes.
pub uninterp spec fn lossy_text(b: Seq<u8>) -> Seq<char>;

/// Relies on `String::from_utf8_lossy`: invalid sequences become U+FFFD.
#[verifier::external_body]
fn utf8_lossy(b: &[u8]) -> (r: String)
    ensures
        r@ == lossy_text(b@),
{
    String::from_utf8_lossy(b).into_owned()
}

/// First position at or after `i` holding a line feed, or the length.
pub open spec fn feed_from(b: Seq<u8>, i: int) -> int
    decreases b.len() - i,
{
    if i < 0 || i >= b.len() || b[i] == 10u8 {
        i
    } else {
        feed_from(b, i + 1)
    }
}

/// The line-feed-terminated lines of `b` from `i`, each without its line feed.
pub open spec fn lines_after(b: Seq<u8>, i: int) -> Seq<Seq<u8>>
    decreases b.len() - i,
{
    let k = feed_from(b, i);
    if i < 0 || i >= b.len() || k < i || k >= b.len() {
        Seq::empty()
    } else {
        seq![b.subrange(i, k)] + lines_after(b, k + 1)
    }
}

/// Where the unterminated tail of `b` from `i` starts.
pub open spec fn tail_start(b: Seq<u8>, i: int) -> int
    decreases b.len() - i,
{
    let k = feed_from(b, i);
    if i < 0 || i >= b.len() || k < i || k >= b.len() {
        i
    } else {
        tail_start(b, k + 1)
    }
}

pub open spec fn byte_rows(v: Seq<Vec<u8>>) -> Seq<Seq<u8>> {
    v.map_values(|x: Vec<u8>| x@)
}

proof fn lemma_feed_from(b: Seq<u8>, i: int)
    requires
        0 <= i <= b.len(),
    ensures
        i <= feed_from(b, i) <= b.len(),
    decreases b.len() - i,
{
    if i < b.len() && b[i] != 10u8 {
        lemma_feed_from(b, i + 1);
    }
}

/// Takes the complete lines out of `buffer`, without their line feeds; the
/// unterminated tail stays for the next chunk.
pub fn take_lines(buffer: &mut Vec<u8>) -> (r: Vec<Vec<u8>>)
    ensures
        byte_rows(r@) == lines_after(old(buffer)@, 0),
        final(buffer)@ == old(buffer)@.subrange(tail_start(old(buffer)@, 0), old(buffer)@.len() as int),
{
    let ghost b = buffer@;
    let n = buffer.len();
    let mut out: Vec<Vec<u8>> = Vec::new();
    let mut start: usize = 0;
    let mut i: usize = 0;
    while i < n
        invariant
            n == b.len(),
            buffer@ == b,
            start <= i <= n,
            feed_from(b, start as int) == feed_from(b, i as int),
            byte_rows(out@) + lines_after(b, start as int) == lines_after(b, 0),
            tail_start(b, start as int) == tail_start(b, 0),
        decreases n - i,
    {
        if buffer[i] == 10u8 {
            let mut line: Vec<u8> = Vec::new();
            let mut k = start;
            while k < i
                invariant
                    start <= k <= i,
                    i < n,
                    n == b.len(),
                    buffer@ == b,
                    line@ == b.subrange(start as int, k as int),
                decreases i - k,
            {
                line.push(buffer[k]);
                proof {
                    assert(line@ =~= b.subrange(start as int, k + 1));
                }
                k = k + 1;
            }
            let ghost rows = out@;
            out.push(line);
            proof {
                assert(byte_rows(out@) =~= byte_rows(rows).push(b.subrange(start as int, i as int)));
                assert(lines_after(b, start as int) == seq![b.subrange(start as int, i as int)] + lines_after(b, i + 1));
                assert(byte_rows(out@) + lines_after(b, i + 1) =~= byte_rows(rows) + lines_after(b, start as int));
            }
            start = i + 1;
        }
        i = i + 1;
    }
    proof {
        lemma_feed_from(b, start as int);
    }
    let mut rest: Vec<u8> = Vec::new();
    let mut k = start;
    while k < n
        invariant
            start <= k <= n,
            n == b.len(),
            buffer@ == b,
            rest@ == b.subrange(start as int, k as int),
        decreases n - k,
    {
        rest.push(buffer[k]);
        proof {
            assert(rest@ =~= b.subrange(start as int, k + 1));
        }
        k = k + 1;
    }
    proof {
        assert(byte_rows(out@) =~= byte_rows(out@) + lines_after(b, start as int));
    }
    *buffer = rest;
    out
}

/// The text of string member `key` of each item, joined; `None` where one
/// item has no such string.
pub open spec fn texts_of(items: Seq<JsonValue>, key: Seq<char>) -> Option<Seq<char>>
    decreases items.len(),
{
    if items.len() == 0 {
        Some(Seq::empty())
    } else {
        match (texts_of(items.drop_last(), key), as_text(member(items.last(), key))) {
            (Some(a), Some(b)) => Some(a + b),
            _ => None,
        }
    }
}

/// Text of one Gemini candidate: the parts of its content, which also names a role.
pub open spec fn candidate_text(c: JsonValue) -> Option<Seq<char>> {
    match member(c, "content"@) {
        Some(content) => match (as_text(member(content, "role"@)), member(content, "parts"@)) {
            (Some(_), Some(JsonValue::Array(ps))) => texts_of(ps@, "text"@),
            _ => None,
        },
        None => None,
    }
}

pub open spec fn candidates_text(cs: Seq<JsonValue>) -> Option<Seq<char>>
    decreases cs.len(),
{
    if cs.len() == 0 {
        Some(Seq::empty())
    } else {
        match (candidates_text(cs.drop_last()), candidate_text(cs.last())) {
            (Some(a), Some(b)) => Some(a + b),
            _ => None,
        }
    }
}

/// Text of a Gemini response chunk: all parts of all candidates.
pub open spec fn chunk_text(v: JsonValue) -> Option<Seq<char>> {
    match member(v, "candidates"@) {
        Some(JsonValue::Array(cs)) => candidates_text(cs@),
        _ => None,
    }
}

pub open spec fn chunks_text(vs: Seq<JsonValue>) -> Option<Seq<char>>
    decreases vs.len(),
{
    if vs.len() == 0 {
        Some(Seq::empty())
    } else {
        match (chunks_text(vs.drop_last()), chunk_text(vs.last())) {
            (Some(a), Some(b)) => Some(a + b),
            _ => None,
        }
    }
}

/// Text of one complete top-level Gemini value: a chunk, or an array of chunks.
pub open spec fn gemini_value_text(v: JsonValue) -> Seq<char> {
    match chunk_text(v) {
        Some(t) => t,
        None => match v {
            JsonValue::Array(xs) => match chunks_text(xs@) {
                Some(t) => t,
                None => Seq::empty(),
            },
            _ => Seq::empty(),
        },
    }
}

/// Joined string members `key` of a list of items.
fn join_texts(items: &Vec<JsonValue>, key: &str) -> (r: Option<String>)
    ensures
        r matches Some(t) ==> texts_of(items@, key@) == Some(t@),
        r is None ==> texts_of(items@, key@) is None,
{
    let mut out = String::new();
    let mut i: usize = 0;
    while i < items.len()
        invariant
            i <= items@.len(),
            texts_of(items@.subrange(0, i as int), key@) == Some(out@),
        decreases items.len() - i,
    {
        proof {
            assert(items@.subrange(0, i + 1).drop_last() =~= items@.subrange(0, i as int));
        }
        match get_member(&items[i], key) {
            Some(JsonValue::Str(t)) => {
                out = out.concat(t.as_str());
            },
            _ => {
                proof {
                    assert(texts_of(items@.subrange(0, i + 1), key@) is None);
                    lemma_texts_none_extends(items@, key@, i + 1);
                }
                return None;
            },
        }
        i = i + 1;
    }
    proof {
        assert(items@.subrange(0, i as int) =~= items@);
    }
    Some(out)
}

proof fn lemma_texts_none_extends(items: Seq<JsonValue>, key: Seq<char>, k: int)
    requires
        0 <= k <= items.len(),
        texts_of(items.subrange(0, k), key) is None,
    ensures
        texts_of(items, key) is None,
    decreases items.len() - k,
{
    if k < items.len() {
        assert(items.subrange(0, k + 1).drop_last() =~= items.subrange(0, k));
        lemma_texts_none_extends(items, key, k + 1);
    } else {
        assert(items.subrange(0, k) =~= items);
    }
}

fn candidate_text_of(c: &JsonValue) -> (r: Option<String>)
    ensures
        r matches Some(t) ==> candidate_text(*c) == Some(t@),
        r is None ==> candidate_text(*c) is None,
{
    match get_member(c, "content") {
        Some(content) => match (get_member(content, "role"), get_member(content, "parts")) {
            (Some(JsonValue::Str(_)), Some(JsonValue::Array(ps))) => join_texts(ps, "text"),
            _ => None,
        },
        None => None,
    }
}

/// The text of a Gemini response chunk.
pub fn chunk_text_of(v: &JsonValue) -> (r: Option<String>)
    ensures
        r matches Some(t) ==> chunk_text(*v) == Some(t@),
        r is None ==> chunk_text(*v) is None,
{
    match get_member(v, "candidates") {
        Some(JsonValue::Array(cs)) => {
            let ghost found = member(*v, "candidates"@);
            assert(found == Some(JsonValue::Array(*cs)));
            let mut out = String::new();
            let mut i: usize = 0;
            while i < cs.len()
                invariant
                    found == member(*v, "candidates"@),
                    found == Some(JsonValue::Array(*cs)),
                    i <= cs@.len(),
                    candidates_text(cs@.subrange(0, i as int)) == Some(out@),
                decreases cs.len() - i,
            {
                proof {
                    assert(cs@.subrange(0, i + 1).drop_last() =~= cs@.subrange(0, i as int));
                }
                match candidate_text_of(&cs[i]) {
                    Some(t) => {
                        out = out.concat(t.as_str());
                    },
                    None => {
                        proof {
                            assert(cs@.subrange(0, i + 1).last() == cs@[i as int]);
                            assert(candidates_text(cs@.subrange(0, i + 1)) is None);
                            lemma_candidates_none_extends(cs@, i + 1);
                            assert(candidates_text(cs@) is None);
                        }
                        return None;
                    },
                }
                i = i + 1;
            }
            proof {
                assert(cs@.subrange(0, i as int) =~= cs@);
            }
            Some(out)
        },
        _ => None,
    }
}

proof fn lemma_candidates_none_extends(cs: Seq<JsonValue>, k: int)
    requires
        0 <= k <= cs.len(),
        candidates_text(cs.subrange(0, k)) is None,
    ensures
        candidates_text(cs) is None,
    decreases cs.len() - k,
{
    if k < cs.len() {
        assert(cs.subrange(0, k + 1).drop_last() =~= cs.subrange(0, k));
        lemma_candidates_none_extends(cs, k + 1);
    } else {
        assert(cs.subrange(0, k) =~= cs);
    }
}

proof fn lemma_chunks_none_extends(vs: Seq<JsonValue>, k: int)
    requires
        0 <= k <= vs.len(),
        chunks_text(vs.subrange(0, k)) is None,
    ensures
        chunks_text(vs) is None,
    decreases vs.len() - k,
{
    if k < vs.len() {
        assert(vs.subrange(0, k + 1).drop_last() =~= vs.subrange(0, k));
        lemma_chunks_none_extends(vs, k + 1);
    } else {
        assert(vs.subrange(0, k) =~= vs);
    }
}

/// The text of one complete top-level value of a Gemini stream.
pub fn gemini_value_text_of(v: &JsonValue) -> (r: String)
    ensures
        r@ == gemini_value_text(*v),
{
    match chunk_text_of(v) {
        Some(t) => t,
        None => match v {
            JsonValue::Array(xs) => {
                let mut out = String::new();
                let mut i: usize = 0;
                while i < xs.len()
                    invariant
                        chunk_text(*v) is None,
                        *v == JsonValue::Array(*xs),
                        i <= xs@.len(),
                        chunks_text(xs@.subrange(0, i as int)) == Some(out@),
                    decreases xs.len() - i,
                {
                    proof {
                        assert(xs@.subrange(0, i + 1).drop_last() =~= xs@.subrange(0, i as int));
                    }
                    match chunk_text_of(&xs[i]) {
                        Some(t) => {
                            out = out.concat(t.as_str());
                        },
                        None => {
                            proof {
                                assert(xs@.subrange(0, i + 1).last() == xs@[i as int]);
                                assert(chunks_text(xs@.subrange(0, i + 1)) is None);
                                lemma_chunks_none_extends(xs@, i + 1);
                                assert(chunks_text(xs@) is None);
                                assert(chunk_text(*v) is None);
                                assert(gemini_value_text(*v) == Seq::<char>::empty());
                            }
                            return String::new();
                        },
                    }
                    i = i + 1;
                }
                proof {
                    assert(xs@.subrange(0, i as int) =~= xs@);
                }
                out
            },
            _ => String::new(),
        },
    }
}

/// The state of the scan that cuts a streamed JSON array into top-level values.
pub ghost struct ScanState {
    pub depth: int,
    pub in_string: bool,
    pub escaped: bool,
    pub last_pos: int,
    pub values: Seq<(int, int)>,
}

pub open spec fn scan_start() -> ScanState {
    ScanState { depth: 0, in_string: false, escaped: false, last_pos: 0, values: Seq::empty() }
}

/// One byte of the scan. A backslash escapes the next byte; quotes toggle the
/// string state; brackets outside strings change the depth, and a return to
/// depth zero completes a value that started where depth last left zero.
pub open spec fn scan_step(st: ScanState, c: u8, i: int) -> ScanState {
    if st.escaped {
        ScanState { escaped: false, ..st }
    } else if c == 92u8 {
        ScanState { escaped: true, ..st }
    } else if c == 34u8 {
        ScanState { in_string: !st.in_string, ..st }
    } else if (c == 123u8 || c == 91u8) && !st.in_string {
        ScanState {
            depth: st.depth + 1,
            last_pos: if st.depth == 0 {
                i
            } else {
                st.last_pos
            },
            ..st
        }
    } else if (c == 125u8 || c == 93u8) && !st.in_string && st.depth > 0 {
        if st.depth == 1 {
            ScanState { depth: 0, last_pos: i + 1, values: st.values.push((st.last_pos, i + 1)), ..st }
        } else {
            ScanState { depth: st.depth - 1, ..st }
        }
    } else {
        st
    }
}

/// The scan after the first `n` bytes of `b`.
pub open spec fn scan_upto(b: Seq<u8>, n: int) -> ScanState
    decreases n,
{
    if n <= 0 || n > b.len() {
        scan_start()
    } else {
        scan_step(scan_upto(b, n - 1), b[n - 1], n - 1)
    }
}

pub open spec fn pairs(v: Seq<(usize, usize)>) -> Seq<(int, int)> {
    v.map_values(|p: (usize, usize)| (p.0 as int, p.1 as int))
}

/// The complete top-level values of `b` as byte ranges, and where the
/// unconsumed part starts.
pub fn split_values(b: &[u8]) -> (r: (Vec<(usize, usize)>, usize))
    ensures
        pairs(r.0@) == scan_upto(b@, b@.len() as int).values,
        r.1 == scan_upto(b@, b@.len() as int).last_pos,
        r.1 <= b@.len(),
        forall|k: int| 0 <= k < r.0@.len() ==> (#[trigger] r.0@[k]).0 <= r.0@[k].1 <= b@.len(),
{
    let n = b.len();
    let mut depth: usize = 0;
    let mut in_string = false;
    let mut escaped = false;
    let mut last_pos: usize = 0;
    let mut values: Vec<(usize, usize)> = Vec::new();
    let mut i: usize = 0;
    assert(pairs(values@) =~= Seq::<(int, int)>::empty());
    while i < n
        invariant
            n == b@.len(),
            i <= n,
            depth <= i,
            last_pos <= i,
            forall|k: int| 0 <= k < values@.len() ==> (#[trigger] values@[k]).0 <= values@[k].1 <= i,
            scan_upto(b@, i as int) == (ScanState {
                depth: depth as int,
                in_string,
                escaped,
                last_pos: last_pos as int,
                values: pairs(values@),
            }),
        decreases n - i,
    {
        let c = b[i];
        let ghost before = values@;
        if escaped {
            escaped = false;
        } else if c == 92u8 {
            escaped = true;
        } else if c == 34u8 {
            in_string = !in_string;
        } else if (c == 123u8 || c == 91u8) && !in_string {
            if depth == 0 {
                last_pos = i;
            }
            depth = depth + 1;
        } else if (c == 125u8 || c == 93u8) && !in_string && depth > 0 {
            depth = depth - 1;
            if depth == 0 {
                values.push((last_pos, i + 1));
                last_pos = i + 1;
                proof {
                    assert(pairs(values@) =~= pairs(before).push((values@.last().0 as int, i + 1)));
                }
            }
        }
        i = i + 1;
    }
    (values, last_pos)
}

/// The bytes of `b` from `s` up to `e`.
fn bytes_between(b: &Vec<u8>, s: usize, e: usize) -> (r: Vec<u8>)
    requires
        s <= e <= b@.len(),
    ensures
        r@ == b@.subrange(s as int, e as int),
{
    let mut r: Vec<u8> = Vec::new();
    let mut k = s;
    while k < e
        invariant
            s <= k <= e <= b@.len(),
            r@ == b@.subrange(s as int, k as int),
        decreases e - k,
    {
        r.push(b[k]);
        proof {
            assert(r@ =~= b@.subrange(s as int, k + 1));
        }
        k = k + 1;
    }
    r
}

/// The text a complete top-level value contributes: what its chunks hold, or
/// nothing where it is no JSON or no chunk.
pub open spec fn value_text(b: Seq<u8>) -> Seq<char> {
    match json_parse_of(lossy_text(b)) {
        Some(v) => gemini_value_text(v),
        None => Seq::empty(),
    }
}

pub open spec fn values_text(b: Seq<u8>, vs: Seq<(int, int)>) -> Seq<char>
    decreases vs.len(),
{
    if vs.len() == 0 {
        Seq::empty()
    } else {
        values_text(b, vs.drop_last()) + value_text(b.subrange(vs.last().0, vs.last().1))
    }
}

/// Takes the complete top-level values out of a Gemini stream buffer and
/// returns their text; an incomplete value stays for the next chunk.
pub fn gemini_take(buffer: &mut Vec<u8>) -> (r: String)
    ensures
        r@ == values_text(old(buffer)@, scan_upto(old(buffer)@, old(buffer)@.len() as int).values),
        final(buffer)@ == old(buffer)@.subrange(
            scan_upto(old(buffer)@, old(buffer)@.len() as int).last_pos,
            old(buffer)@.len() as int,
        ),
{
    let ghost b = buffer@;
    let (vals, last) = split_values(buffer.as_slice());
    let mut out = String::new();
    let mut k: usize = 0;
    while k < vals.len()
        invariant
            buffer@ == b,
            k <= vals@.len(),
            forall|t: int| 0 <= t < vals@.len() ==> (#[trigger] vals@[t]).0 <= vals@[t].1 <= b.len(),
            out@ == values_text(b, pairs(vals@).subrange(0, k as int)),
        decreases vals.len() - k,
    {
        let (s, e) = vals[k];
        let piece = bytes_between(buffer, s, e);
        let text = utf8_lossy(piece.as_slice());
        match parse_json(text.as_str()) {
            Some(v) => {
                let t = gemini_value_text_of(&v);
                out = out.concat(t.as_str());
            },
            None => {},
        }
        proof {
            let ps = pairs(vals@);
            assert(ps.subrange(0, k + 1).drop_last() =~= ps.subrange(0, k as int));
            assert(ps.subrange(0, k + 1).last() == (s as int, e as int));
        }
        k = k + 1;
    }
    proof {
        assert(pairs(vals@).subrange(0, k as int) =~= pairs(vals@));
    }
    let n = buffer.len();
    let rest = bytes_between(buffer, last, n);
    *buffer = rest;
    out
}

/// The text an Ollama message contributes: the content of its `message`,
/// nothing for a missing or null one; `None` for no valid message.
pub open spec fn ollama_message_text(v: JsonValue) -> Option<Seq<char>> {
    match member(v, "done"@) {
        Some(JsonValue::Bool(_)) => match member(v, "message"@) {
            None => Some(Seq::empty()),
            Some(JsonValue::Null) => Some(Seq::empty()),
            Some(m) => as_text(member(m, "content"@)),
        },
        _ => None,
    }
}

/// The text one line of an Ollama stream contributes.
pub open spec fn ollama_line_text(l: Seq<u8>) -> Seq<char> {
    let t = trimmed(lossy_text(l));
    if t.len() == 0 {
        Seq::empty()
    } else {
        match json_parse_of(t) {
            Some(v) => match ollama_message_text(v) {
                Some(s) => s,
                None => Seq::empty(),
            },
            None => Seq::empty(),
        }
    }
}

/// The text of the first choice's delta of an OpenAI-style chunk.
pub open spec fn openai_delta_text(v: JsonValue) -> Seq<char> {
    match member(v, "choices"@) {
        Some(JsonValue::Array(xs)) => if xs@.len() > 0 {
            match member(xs@[0], "delta"@) {
                Some(d) => match member(d, "content"@) {
                    Some(JsonValue::Str(s)) => s@,
                    _ => Seq::empty(),
                },
                None => Seq::empty(),
            }
        } else {
            Seq::empty()
        },
        _ => Seq::empty(),
    }
}

/// The text one line of a server-sent-event stream contributes: a `data: `
/// line other than the `[DONE]` terminator holds a chunk.
pub open spec fn sse_line_text(l: Seq<u8>) -> Seq<char> {
    let t = trimmed(lossy_text(l));
    if starts_with(t, "data: "@) {
        let d = t.subrange("data: "@.len() as int, t.len() as int);
        if d == "[DONE]"@ {
            Seq::empty()
        } else {
            match json_parse_of(d) {
                Some(v) => openai_delta_text(v),
                None => Seq::empty(),
            }
        }
    } else {
        Seq::empty()
    }
}

pub open spec fn lines_text(ls: Seq<Seq<u8>>, f: spec_fn(Seq<u8>) -> Seq<char>) -> Seq<char>
    decreases ls.len(),
{
    if ls.len() == 0 {
        Seq::empty()
    } else {
        lines_text(ls.drop_last(), f) + f(ls.last())
    }
}

fn ollama_text_of(line: &Vec<u8>) -> (r: String)
    ensures
        r@ == ollama_line_text(line@),
{
    let raw = utf8_lossy(line.as_slice());
    let t = trim_chars(&chars_of(raw.as_str()));
    if t.len() == 0 {
        return String::new();
    }
    let ts = string_of(&t);
    match parse_json(ts.as_str()) {
        Some(v) => {
            match get_member(&v, "done") {
                Some(JsonValue::Bool(_)) => {},
                _ => return String::new(),
            }
            match get_member(&v, "message") {
                None => String::new(),
                Some(JsonValue::Null) => String::new(),
                Some(m) => match get_member(m, "content") {
                    Some(JsonValue::Str(c)) => c.clone(),
                    _ => String::new(),
                },
            }
        },
        None => String::new(),
    }
}

fn sse_text_of(line: &Vec<u8>) -> (r: String)
    ensures
        r@ == sse_line_text(line@),
{
    let raw = utf8_lossy(line.as_slice());
    let t = trim_chars(&chars_of(raw.as_str()));
    let prefix = chars_of("data: ");
    if !starts_with_chars(&t, &prefix) {
        return String::new();
    }
    let d = string_of(&slice_chars(&t, prefix.len(), t.len()));
    if str_equal(d.as_str(), "[DONE]") {
        return String::new();
    }
    match parse_json(d.as_str()) {
        Some(v) => match get_member(&v, "choices") {
            Some(JsonValue::Array(xs)) => {
                if xs.len() == 0 {
                    return String::new();
                }
                match get_member(&xs[0], "delta") {
                    Some(dl) => match get_member(dl, "content") {
                        Some(JsonValue::Str(c)) => c.clone(),
                        _ => String::new(),
                    },
                    None => String::new(),
                }
            },
            _ => String::new(),
        },
        None => String::new(),
    }
}

/// Takes the complete lines out of an Ollama stream buffer and returns the
/// text their messages hold.
pub fn ollama_take(buffer: &mut Vec<u8>) -> (r: String)
    ensures
        r@ == lines_text(lines_after(old(buffer)@, 0), |l: Seq<u8>| ollama_line_text(l)),
        final(buffer)@ == old(buffer)@.subrange(tail_start(old(buffer)@, 0), old(buffer)@.len() as int),
{
    let lines = take_lines(buffer);
    let ghost ls = byte_rows(lines@);
    let mut out = String::new();
    let mut k: usize = 0;
    while k < lines.len()
        invariant
            k <= lines@.len(),
            ls == byte_rows(lines@),
            out@ == lines_text(ls.subrange(0, k as int), |l: Seq<u8>| ollama_line_text(l)),
        decreases lines.len() - k,
    {
        let t = ollama_text_of(&lines[k]);
        out = out.concat(t.as_str());
        proof {
            assert(ls.subrange(0, k + 1).drop_last() =~= ls.subrange(0, k as int));
        }
        k = k + 1;
    }
    proof {
        assert(ls.subrange(0, k as int) =~= ls);
    }
    out
}

/// Takes the complete lines out of a server-sent-event buffer and returns the
/// text their chunks hold.
pub fn sse_take(buffer: &mut Vec<u8>) -> (r: String)
    ensures
        r@ == lines_text(lines_after(old(buffer)@, 0), |l: Seq<u8>| sse_line_text(l)),
        final(buffer)@ == old(buffer)@.subrange(tail_start(old(buffer)@, 0), old(buffer)@.len() as int),
{
    let lines = take_lines(buffer);
    let ghost ls = byte_rows(lines@);
    let mut out = String::new();
    let mut k: usize = 0;
    while k < lines.len()
        invariant
            k <= lines@.len(),
            ls == byte_rows(lines@),
            out@ == lines_text(ls.subrange(0, k as int), |l: Seq<u8>| sse_line_text(l)),
        decreases lines.len() - k,
    {
        let t = sse_text_of(&lines[k]);
        out = out.concat(t.as_str());
        proof {
            assert(ls.subrange(0, k + 1).drop_last() =~= ls.subrange(0, k as int));
        }
        k = k + 1;
    }
    proof {
        assert(ls.subrange(0, k as int) =~= ls);
    }
    out
}

} // verus!
