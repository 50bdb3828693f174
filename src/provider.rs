//! The message shapes that model backends exchange, and the conversions the
//! conversation needs between them.
use vstd::prelude::*;
use crate::text::{str_equal, chars_of, string_of, contains, contains_chars, trimmed, trim_chars, matches_at, occurs_at, concat_chars};
use crate::json::{JsonValue, member, as_text, get_member};
use crate::orchestrator::{ChatMessage, Provider};

verus! {

/// One piece of a Gemini message.
pub struct GeminiPart {
    pub text: String,
}

/// A Gemini message: a role (`user` or `model`) and its parts.
pub struct GeminiContent {
    pub role: String,
    pub parts: Vec<GeminiPart>,
}

/// One streamed Gemini response.
pub struct GeminiResponseChunk {
    pub candidates: Vec<Candidate>,
}

pub struct Candidate {
    pub content: GeminiContent,
    pub finish_reason: Option<String>,
}

/// One line of an Ollama chat stream.
pub struct OllamaChatResponseChunk {
    pub message: Option<OllamaMessage>,
    pub done: bool,
}

pub struct OllamaMessage {
    pub content: String,
}

/// The models an Ollama server offers.
pub struct OllamaModelList {
    pub models: Vec<OllamaModel>,
}

pub struct OllamaModel {
    pub name: String,
    pub size: u64,
    pub modified_at: String,
    pub digest: String,
}

/// One streamed OpenAI-style response.
pub struct ChatResponseChunk {
    pub choices: Vec<ChoiceChunk>,
}

pub struct ChoiceChunk {
    pub delta: Delta,
    pub finish_reason: Option<String>,
}

pub struct Delta {
    pub content: Option<String>,
}

/// A message of the plain OpenAI chat interface.
pub struct OpenAIMessage {
    pub role: String,
    pub content: String,
}

/// A message of the router's chat interface.
pub struct AgentRouterMessage {
    pub role: String,
    pub content: String,
    pub name: Option<String>,
}

/// A stop condition: one string or several.
pub enum StringOrArray {
    String(String),
    Array(Vec<String>),
}

/// Which tool the model must use: a mode name, or one named function.
pub enum AgentRouterToolChoice {
    String(String),
    Object { choice_type: String, function: AgentRouterFunctionName },
}

pub struct AgentRouterFunctionName {
    pub name: String,
}

pub struct AgentRouterResponseFormat {
    pub format_type: String,
}

pub struct AgentRouterChatResponse {
    pub id: String,
    pub object: String,
    pub created: u64,
    pub model: String,
    pub choices: Vec<AgentRouterChoice>,
    pub usage: AgentRouterUsage,
}

pub struct AgentRouterChoice {
    pub index: u32,
    pub message: AgentRouterMessage,
    pub finish_reason: Option<String>,
}

pub struct AgentRouterUsage {
    pub prompt_tokens: u32,
    pub completion_tokens: u32,
    pub total_tokens: u32,
}

pub struct AgentRouterStreamResponse {
    pub id: String,
    pub object: String,
    pub created: u64,
    pub model: String,
    pub choices: Vec<AgentRouterStreamChoice>,
}

pub struct AgentRouterStreamChoice {
    pub index: u32,
    pub delta: AgentRouterStreamDelta,
    pub finish_reason: Option<String>,
}

pub struct AgentRouterStreamDelta {
    pub role: Option<String>,
    pub content: Option<String>,
    pub tool_calls: Option<Vec<AgentRouterStreamToolCall>>,
}

pub struct AgentRouterStreamToolCall {
    pub index: u32,
    pub id: Option<String>,
    pub call_type: Option<String>,
    pub function: Option<AgentRouterStreamToolCallFunction>,
}

pub struct AgentRouterStreamToolCallFunction {
    pub name: Option<String>,
    pub arguments: Option<String>,
}

pub struct AgentRouterModel {
    pub id: String,
    pub object: String,
    pub created: u64,
    pub owned_by: String,
}

pub struct AgentRouterModelsResponse {
    pub object: String,
    pub data: Vec<AgentRouterModel>,
}

/// The Gemini role of a chat role: `user` stays, every other role is `model`.
pub open spec fn gemini_role(role: Seq<char>) -> Seq<char> {
    if role == "user"@ {
        "user"@
    } else {
        "model"@
    }
}

/// `g` carries message `m`: the mapped role and the content as its only part.
pub open spec fn gemini_carries(g: GeminiContent, m: ChatMessage) -> bool {
    g.role@ == gemini_role(m.role@) && g.parts@.len() == 1 && g.parts@[0].text == m.content
}

/// The Gemini contents for a history whose first message is the system
/// prompt, which Gemini takes apart and is left out here.
pub fn to_gemini_contents(messages: &Vec<ChatMessage>) -> (r: Vec<GeminiContent>)
    ensures
        messages@.len() == 0 ==> r@.len() == 0,
        messages@.len() > 0 ==> r@.len() == messages@.len() - 1 && forall|i: int|
            0 <= i < r@.len() ==> gemini_carries(#[trigger] r@[i], messages@[i + 1]),
{
    let mut out: Vec<GeminiContent> = Vec::new();
    let mut k: usize = 1;
    while k < messages.len()
        invariant
            1 <= k,
            k <= messages@.len() || messages@.len() == 0,
            messages@.len() > 0 ==> out@.len() == k - 1,
            messages@.len() == 0 ==> out@.len() == 0,
            forall|i: int| 0 <= i < out@.len() ==> gemini_carries(#[trigger] out@[i], messages@[i + 1]),
        decreases messages.len() - k,
    {
        let m = &messages[k];
        let role = if str_equal(m.role.as_str(), "user") {
            String::from_str("user")
        } else {
            String::from_str("model")
        };
        let mut parts: Vec<GeminiPart> = Vec::new();
        parts.push(GeminiPart { text: m.content.clone() });
        out.push(GeminiContent { role, parts });
        k = k + 1;
    }
    out
}

/// The reply text of a complete (not streamed) response body: the first
/// choice's message for OpenAI, the first part of the first candidate for
/// Gemini, the message for Ollama; empty where the body lacks it.
pub open spec fn complete_reply(p: Provider, body: JsonValue) -> Seq<char> {
    let found = match p {
        Provider::OpenAi => match member(body, "choices"@) {
            Some(JsonValue::Array(cs)) => if cs@.len() > 0 {
                match member(cs@[0], "message"@) {
                    Some(m) => as_text(member(m, "content"@)),
                    None => None,
                }
            } else {
                None
            },
            _ => None,
        },
        Provider::Gemini => match member(body, "candidates"@) {
            Some(JsonValue::Array(cs)) => if cs@.len() > 0 {
                match member(cs@[0], "content"@) {
                    Some(c) => match member(c, "parts"@) {
                        Some(JsonValue::Array(ps)) => if ps@.len() > 0 {
                            as_text(member(ps@[0], "text"@))
                        } else {
                            None
                        },
                        _ => None,
                    },
                    None => None,
                }
            } else {
                None
            },
            _ => None,
        },
        Provider::Ollama => match member(body, "message"@) {
            Some(m) => as_text(member(m, "content"@)),
            None => None,
        },
    };
    match found {
        Some(t) => t,
        None => Seq::empty(),
    }
}

fn text_at(v: Option<&JsonValue>, key: &str) -> (r: Option<String>)
    ensures
        v is None ==> r is None,
        v matches Some(x) ==> (r matches Some(t) ==> as_text(member(*x, key@)) == Some(t@)) && (
        r is None ==> as_text(member(*x, key@)) is None),
{
    match v {
        Some(x) => match get_member(x, key) {
            Some(JsonValue::Str(t)) => Some(t.clone()),
            _ => None,
        },
        None => None,
    }
}

fn first_of<'a>(v: Option<&'a JsonValue>) -> (r: Option<&'a JsonValue>)
    ensures
        r matches Some(x) ==> v matches Some(JsonValue::Array(xs)) && xs@.len() > 0 && *x == xs@[0],
        r is None ==> !(v matches Some(JsonValue::Array(xs)) && xs@.len() > 0),
{
    match v {
        Some(JsonValue::Array(xs)) => if xs.len() > 0 {
            Some(&xs[0])
        } else {
            None
        },
        _ => None,
    }
}

fn member_of<'a>(v: Option<&'a JsonValue>, key: &str) -> (r: Option<&'a JsonValue>)
    ensures
        v is None ==> r is None,
        v matches Some(x) ==> (r matches Some(y) ==> member(*x, key@) == Some(*y)) && (r is None
            ==> member(*x, key@) is None),
{
    match v {
        Some(x) => get_member(x, key),
        None => None,
    }
}

/// The reply text of a complete response body.
pub fn complete_reply_text(p: Provider, body: &JsonValue) -> (r: String)
    ensures
        r@ == complete_reply(p, *body),
{
    let found = match p {
        Provider::OpenAi => {
            let first = first_of(get_member(body, "choices"));
            text_at(member_of(first, "message"), "content")
        },
        Provider::Gemini => {
            let first = first_of(get_member(body, "candidates"));
            let part = first_of(member_of(member_of(first, "content"), "parts"));
            text_at(part, "text")
        },
        Provider::Ollama => text_at(get_member(body, "message"), "content"),
    };
    match found {
        Some(t) => t,
        None => String::new(),
    }
}

/// `s` from `i` on with every `from` replaced by `to`, scanning left to right
/// without overlaps, as `str::replace` does.
pub open spec fn replaced_from(s: Seq<char>, from: Seq<char>, to: Seq<char>, i: int) -> Seq<char>
    decreases s.len() - i,
{
    if i < 0 || i >= s.len() || from.len() == 0 {
        if 0 <= i <= s.len() {
            s.subrange(i, s.len() as int)
        } else {
            Seq::empty()
        }
    } else if occurs_at(s, from, i) {
        to + replaced_from(s, from, to, i + from.len())
    } else {
        seq![s[i]] + replaced_from(s, from, to, i + 1)
    }
}

/// Replaces every non-overlapping `from` (not empty) by `to`.
pub fn replace_all(s: &[char], from: &[char], to: &[char]) -> (r: Vec<char>)
    requires
        from@.len() > 0,
    ensures
        r@ == replaced_from(s@, from@, to@, 0),
{
    let mut out: Vec<char> = Vec::new();
    let mut i: usize = 0;
    let n = s.len();
    while i < n
        invariant
            n == s@.len(),
            i <= n,
            from@.len() > 0,
            out@ + replaced_from(s@, from@, to@, i as int) == replaced_from(s@, from@, to@, 0),
        decreases n - i,
    {
        let ghost before = out@;
        if matches_at(s, from, i) {
            out = concat_chars(&out, to);
            proof {
                assert(before + replaced_from(s@, from@, to@, i as int) =~= out@ + replaced_from(s@, from@, to@, i + from@.len()));
            }
            i = i + from.len();
        } else {
            out.push(s[i]);
            proof {
                assert(before + replaced_from(s@, from@, to@, i as int) =~= out@ + replaced_from(s@, from@, to@, i + 1));
            }
            i = i + 1;
        }
    }
    proof {
        assert(replaced_from(s@, from@, to@, i as int) =~= Seq::<char>::empty());
        assert(out@ + Seq::<char>::empty() =~= out@);
    }
    out
}

/// The address of an Ollama server: the configured one unless blank, else the
/// local default; `http://` added where no scheme is given, `localhost`
/// spelled `127.0.0.1`, one trailing `/` dropped.
pub open spec fn ollama_address(base: Option<Seq<char>>) -> Seq<char> {
    let a = match base {
        Some(b) => if trimmed(b).len() > 0 {
            b
        } else {
            "http://127.0.0.1:11434"@
        },
        None => "http://127.0.0.1:11434"@,
    };
    let b = if contains(a, "://"@) {
        a
    } else {
        "http://"@ + a
    };
    let c = replaced_from(b, "localhost"@, "127.0.0.1"@, 0);
    if c.len() > 0 && c.last() == '/' {
        c.drop_last()
    } else {
        c
    }
}

pub fn ollama_base_url(base: Option<String>) -> (r: String)
    ensures
        r@ == ollama_address(match base {
            Some(b) => Some(b@),
            None => None,
        }),
{
    let a: Vec<char> = match &base {
        Some(b) => {
            let bc = chars_of(b.as_str());
            if trim_chars(&bc).len() > 0 {
                bc
            } else {
                chars_of("http://127.0.0.1:11434")
            }
        },
        None => chars_of("http://127.0.0.1:11434"),
    };
    let b = if contains_chars(&a, &chars_of("://")) {
        a
    } else {
        concat_chars(&chars_of("http://"), &a)
    };
    let from = chars_of("localhost");
    proof {
        reveal_strlit("localhost");
    }
    let mut c = replace_all(&b, &from, &chars_of("127.0.0.1"));
    if c.len() > 0 && c[c.len() - 1] == '/' {
        c.pop();
    }
    string_of(&c)
}

} // verus!
