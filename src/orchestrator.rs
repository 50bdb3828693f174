//! The decisions of one conversation turn: which backend a model name selects,
//! what is appended to the history after each reply, and when the turn ends.
//! The caller performs the model requests and tool runs and reports back.
use vstd::prelude::*;
use crate::text::{str_equal, chars_of, string_of, contains, contains_chars, slice_chars};
use crate::json::{JsonValue, get_member, member, as_text};
use crate::toolcall::{ToolCall, parse_tool_calls, parsed};

verus! {

/// The heading that marks a turn's final answer.
pub open spec fn completion_marker() -> Seq<char> {
    "## FINAL ANSWER"@
}

/// Tool results longer than this many characters are cut in the history.
pub const HISTORY_LIMIT: usize = 100000;

/// Listings of found symbols show at most this many.
pub const SYMBOL_LISTING_LIMIT: usize = 15;

/// One message of a conversation.
pub struct ChatMessage {
    pub role: String,
    pub content: String,
}

/// A backend that streams model replies.
#[derive(PartialEq, Eq, Structural, Clone, Copy, Debug)]
pub enum Provider {
    OpenAi,
    Gemini,
    Ollama,
}

/// The backend a model name selects: names holding `gpt` go to the
/// OpenAI-compatible backend, names holding `gemini` to Gemini, others to Ollama.
pub open spec fn provider_for(model: Seq<char>) -> Provider {
    if contains(model, "gpt"@) {
        Provider::OpenAi
    } else if contains(model, "gemini"@) {
        Provider::Gemini
    } else {
        Provider::Ollama
    }
}

pub fn select_provider(model: &str) -> (r: Provider)
    ensures
        r == provider_for(model@),
{
    let m = chars_of(model);
    if contains_chars(&m, &chars_of("gpt")) {
        Provider::OpenAi
    } else if contains_chars(&m, &chars_of("gemini")) {
        Provider::Gemini
    } else {
        Provider::Ollama
    }
}

/// What the turn does after a model reply.
pub enum ReplyAction {
    /// Run these calls, then report their outcomes.
    RunTools(Vec<ToolCall>),
    /// Ask the model again; a nudge was appended to the history.
    Continue,
    /// The turn is over.
    Done,
}

/// The outcome of one tool run.
pub enum ToolOutcome {
    Success { name: String, result: String },
    Failure { name: String, error: String },
}

/// The state of one turn: the history sent to the model and the number of
/// model requests made so far.
pub struct Turn {
    pub messages: Vec<ChatMessage>,
    pub iteration: u64,
    pub max_iterations: u32,
}

/// After the request counter moved to `iteration`, the model is asked again.
pub open spec fn proceeds(iteration: int, max: int) -> bool {
    iteration <= max
}

/// After a reply with neither a tool call nor the completion marker at request
/// `iteration`, the turn goes on.
pub open spec fn quiet_continues(iteration: int, max: int) -> bool {
    iteration < max
}

/// The text appended when a reply neither calls a tool nor finishes.
pub open spec fn nudge_text() -> Seq<char> {
    "Your response did not include any tool calls or a ## FINAL ANSWER. If you are finished, please provide the ## FINAL ANSWER. If not, please use the appropriate tool to proceed."@
}

pub open spec fn is_message(m: ChatMessage, role: Seq<char>, content: Seq<char>) -> bool {
    m.role@ == role && m.content@ == content
}

fn message(role: &str, content: String) -> (r: ChatMessage)
    ensures
        r.role@ == role@,
        r.content == content,
{
    ChatMessage { role: String::from_str(role), content }
}

impl Turn {
    /// A turn whose history is the system prompt followed by `history`.
    pub fn start(system_prompt: String, history: Vec<ChatMessage>, max_iterations: u32) -> (r: Turn)
        ensures
            r.iteration == 0,
            r.max_iterations == max_iterations,
            r.messages@.len() == history@.len() + 1,
            is_message(r.messages@[0], "system"@, system_prompt@),
            r.messages@.subrange(1, r.messages@.len() as int) == history@,
    {
        let mut messages: Vec<ChatMessage> = Vec::new();
        messages.push(message("system", system_prompt));
        let mut rest = history;
        let mut tail: Vec<ChatMessage> = Vec::new();
        let ghost h = rest@;
        while rest.len() > 0
            invariant
                rest@ == h.subrange(0, rest@.len() as int),
                tail@.len() + rest@.len() == h.len(),
                forall|t: int| 0 <= t < tail@.len() ==> tail@[t] == h[h.len() - 1 - t],
            decreases rest@.len(),
        {
            let m = rest.pop().unwrap();
            tail.push(m);
        }
        while tail.len() > 0
            invariant
                messages@.len() >= 1,
                messages@.len() - 1 + tail@.len() == h.len(),
                forall|t: int| 0 <= t < tail@.len() ==> tail@[t] == h[h.len() - 1 - t],
                forall|t: int| 1 <= t < messages@.len() ==> messages@[t] == h[t - 1],
                is_message(messages@[0], "system"@, system_prompt@),
            decreases tail@.len(),
        {
            let m = tail.pop().unwrap();
            messages.push(m);
        }
        proof {
            assert(messages@.subrange(1, messages@.len() as int) =~= h);
        }
        Turn { messages, iteration: 0, max_iterations }
    }

    /// Counts a new model request; `false` once the cap is passed.
    pub fn begin_iteration(&mut self) -> (r: bool)
        ensures
            final(self).messages == old(self).messages,
            final(self).max_iterations == old(self).max_iterations,
            old(self).iteration <= old(self).max_iterations ==> final(self).iteration == old(
                self,
            ).iteration + 1 && r == proceeds(final(self).iteration as int, final(self).max_iterations as int),
            old(self).iteration > old(self).max_iterations ==> !r && final(self).iteration == old(
                self,
            ).iteration,
    {
        if self.iteration > self.max_iterations as u64 {
            return false;
        }
        self.iteration = self.iteration + 1;
        self.iteration <= self.max_iterations as u64
    }

    /// Records the model's reply and decides what follows: the calls it holds,
    /// else the end of the turn when it holds the completion marker or the cap
    /// is reached, else a nudge and another request.
    pub fn on_reply(&mut self, reply: String) -> (r: ReplyAction)
        ensures
            final(self).iteration == old(self).iteration,
            final(self).max_iterations == old(self).max_iterations,
            final(self).messages@.len() >= old(self).messages@.len() + 1,
            final(self).messages@.subrange(0, old(self).messages@.len() as int) == old(self).messages@,
            is_message(final(self).messages@[old(self).messages@.len() as int], "assistant"@, reply@),
            r matches ReplyAction::RunTools(calls) ==> calls@.len() > 0 && parsed(reply@, calls@)
                && final(self).messages@.len() == old(self).messages@.len() + 1,
            (r is Done || r is Continue) ==> parsed(reply@, Seq::empty()),
            r is Done ==> final(self).messages@.len() == old(self).messages@.len() + 1 && (contains(
                reply@,
                completion_marker(),
            ) || !quiet_continues(old(self).iteration as int, old(self).max_iterations as int)),
            r is Continue ==> !contains(reply@, completion_marker()) && quiet_continues(
                old(self).iteration as int,
                old(self).max_iterations as int,
            ) && final(self).messages@.len() == old(self).messages@.len() + 2 && is_message(
                final(self).messages@[old(self).messages@.len() + 1int],
                "user"@,
                nudge_text(),
            ),
    {
        let calls = parse_tool_calls(reply.as_str());
        let has_marker = contains_chars(&chars_of(reply.as_str()), &chars_of("## FINAL ANSWER"));
        let ghost start = self.messages@;
        self.messages.push(message("assistant", reply));
        if calls.len() > 0 {
            return ReplyAction::RunTools(calls);
        }
        assert(calls@ =~= Seq::<ToolCall>::empty());
        if has_marker {
            return ReplyAction::Done;
        }
        if self.iteration < self.max_iterations as u64 {
            self.messages.push(
                message(
                    "user",
                    String::from_str(
                        "Your response did not include any tool calls or a ## FINAL ANSWER. If you are finished, please provide the ## FINAL ANSWER. If not, please use the appropriate tool to proceed.",
                    ),
                ),
            );
            return ReplyAction::Continue;
        }
        ReplyAction::Done
    }
}

/// Requests a turn makes from request counter `it` when no reply calls a tool
/// or carries the completion marker.
pub open spec fn quiet_requests(it: int, max: int) -> int
    decreases max - it,
{
    if !proceeds(it + 1, max) {
        0
    } else if quiet_continues(it + 1, max) {
        1 + quiet_requests(it + 1, max)
    } else {
        1
    }
}

proof fn lemma_quiet_requests(it: int, max: int)
    requires
        0 <= it <= max,
    ensures
        quiet_requests(it, max) == max - it,
    decreases max - it,
{
    if it + 1 < max {
        lemma_quiet_requests(it + 1, max);
    }
}

/// A model that never calls a tool and never gives the completion marker is
/// asked exactly `max_iterations` times before the turn stops.
pub proof fn lemma_quiet_model_stops_at_cap(max_iterations: u32)
    ensures
        quiet_requests(0, max_iterations as int) == max_iterations as int,
{
    lemma_quiet_requests(0, max_iterations as int);
}

pub open spec fn digit_char(d: int) -> char {
    if d == 0 { '0' } else if d == 1 { '1' } else if d == 2 { '2' } else if d == 3 { '3' } else if d
        == 4 { '4' } else if d == 5 { '5' } else if d == 6 { '6' } else if d == 7 { '7' } else if d
        == 8 { '8' } else { '9' }
}

/// Decimal notation of a natural number.
pub open spec fn decimal(n: nat) -> Seq<char>
    decreases n,
{
    if n < 10 {
        seq![digit_char(n as int)]
    } else {
        decimal(n / 10) + seq![digit_char((n % 10) as int)]
    }
}

fn digit_of(d: u64) -> (r: char)
    requires
        d < 10,
    ensures
        r == digit_char(d as int),
{
    if d == 0 { '0' } else if d == 1 { '1' } else if d == 2 { '2' } else if d == 3 { '3' } else if d
        == 4 { '4' } else if d == 5 { '5' } else if d == 6 { '6' } else if d == 7 { '7' } else if d
        == 8 { '8' } else { '9' }
}

/// The decimal notation of `n`.
pub fn decimal_text(n: u64) -> (r: String)
    ensures
        r@ == decimal(n as nat),
    decreases n,
{
    if n < 10 {
        let d = [digit_of(n)];
        string_of(&d)
    } else {
        let head = decimal_text(n / 10);
        let d = [digit_of(n % 10)];
        let tail = string_of(&d);
        head.concat(tail.as_str())
    }
}

/// A tool result as it enters the history: cut after `HISTORY_LIMIT`
/// characters, with a note of the full length.
pub open spec fn clipped(r: Seq<char>) -> Seq<char> {
    if r.len() > HISTORY_LIMIT {
        r.subrange(0, HISTORY_LIMIT as int) + "... (truncated, total length: "@ + decimal(r.len()) + ")"@
    } else {
        r
    }
}

pub fn clip_result(r: &String) -> (out: String)
    ensures
        out@ == clipped(r@),
{
    let cs = chars_of(r.as_str());
    if cs.len() > HISTORY_LIMIT {
        let head = string_of(&slice_chars(&cs, 0, HISTORY_LIMIT));
        let head = head.concat("... (truncated, total length: ");
        let n = decimal_text(cs.len() as u64);
        let head = head.concat(n.as_str());
        head.concat(")")
    } else {
        r.clone()
    }
}

/// Texts joined with a separator.
pub open spec fn joined(items: Seq<Seq<char>>, sep: Seq<char>) -> Seq<char>
    decreases items.len(),
{
    if items.len() == 0 {
        Seq::empty()
    } else if items.len() == 1 {
        items[0]
    } else {
        joined(items.drop_last(), sep) + sep + items.last()
    }
}

/// The `path` texts of a list of found files.
pub open spec fn file_paths(xs: Seq<JsonValue>) -> Seq<Seq<char>>
    decreases xs.len(),
{
    if xs.len() == 0 {
        Seq::empty()
    } else {
        let rest = file_paths(xs.drop_last());
        match as_text(member(xs.last(), "path"@)) {
            Some(p) => rest.push(p),
            None => rest,
        }
    }
}

pub open spec fn text_or_unknown(v: Option<Seq<char>>) -> Seq<char> {
    match v {
        Some(t) => t,
        None => "?"@,
    }
}

pub open spec fn line_number(x: JsonValue) -> nat {
    match member(x, "start_line"@) {
        Some(JsonValue::Int(i)) => if i >= 0 {
            i as nat
        } else {
            0
        },
        _ => 0,
    }
}

/// One found symbol as listed: `name (kind) in path (line n)`.
pub open spec fn symbol_line(x: JsonValue) -> Seq<char> {
    text_or_unknown(as_text(member(x, "name"@))) + " ("@ + text_or_unknown(as_text(member(x, "kind"@)))
        + ") in "@ + text_or_unknown(as_text(member(x, "file_path"@))) + " (line "@ + decimal(
        line_number(x),
    ) + ")"@
}

pub open spec fn symbol_lines(xs: Seq<JsonValue>) -> Seq<Seq<char>>
    decreases xs.len(),
{
    if xs.len() == 0 {
        Seq::empty()
    } else {
        symbol_lines(xs.drop_last()).push(symbol_line(xs.last()))
    }
}

/// How a successful tool result is shown to the model: file and symbol search
/// results as listings, anything else (or what is no JSON list) as it came.
pub open spec fn shown_result(name: Seq<char>, result: Seq<char>) -> Seq<char> {
    let h = clipped(result);
    if name == "search_files"@ || name == "find_by_name"@ {
        match crate::json::json_parse_of(h) {
            Some(JsonValue::Array(xs)) => if xs@.len() == 0 {
                "No files found matching the pattern."@
            } else {
                "Found files:\n"@ + joined(file_paths(xs@), "\n"@)
            },
            _ => h,
        }
    } else if name == "search_codebase"@ {
        match crate::json::json_parse_of(h) {
            Some(JsonValue::Array(xs)) => if xs@.len() == 0 {
                "No symbols found matching the query."@
            } else {
                let shown = if xs@.len() > SYMBOL_LISTING_LIMIT {
                    xs@.subrange(0, SYMBOL_LISTING_LIMIT as int)
                } else {
                    xs@
                };
                "Found symbols:\n"@ + joined(symbol_lines(shown), "\n"@)
            },
            _ => h,
        }
    } else {
        h
    }
}

/// The history entry for one tool outcome.
pub open spec fn outcome_entry(o: ToolOutcome) -> Seq<char> {
    match o {
        ToolOutcome::Success { name, result } => "["@ + name@ + "] result:\n"@ + shown_result(name@, result@),
        ToolOutcome::Failure { name, error } => "Tool '"@ + name@ + "' error: "@ + error@,
    }
}

pub open spec fn outcome_entries(os: Seq<ToolOutcome>) -> Seq<Seq<char>>
    decreases os.len(),
{
    if os.len() == 0 {
        Seq::empty()
    } else {
        outcome_entries(os.drop_last()).push(outcome_entry(os.last()))
    }
}

/// The message that reports tool outcomes to the model.
pub open spec fn results_message(os: Seq<ToolOutcome>) -> Seq<char> {
    "Tool execution results:\n"@ + joined(outcome_entries(os), "\n\n"@)
        + "\n\nPlease analyze these results and take the next step."@
}

/// Appends `items` to `out`, separated by `sep`.
fn join_into(items: &Vec<String>, sep: &str) -> (r: String)
    ensures
        r@ == joined(items@.map_values(|s: String| s@), sep@),
{
    let ghost v = items@.map_values(|s: String| s@);
    if items.len() == 0 {
        return String::new();
    }
    let mut out = items[0].clone();
    let mut k: usize = 1;
    proof {
        assert(v.subrange(0, 1) =~= seq![v[0]]);
    }
    while k < items.len()
        invariant
            1 <= k <= items@.len(),
            v == items@.map_values(|s: String| s@),
            out@ == joined(v.subrange(0, k as int), sep@),
        decreases items.len() - k,
    {
        out = out.concat(sep);
        out = out.concat(items[k].as_str());
        proof {
            assert(v.subrange(0, k + 1).drop_last() =~= v.subrange(0, k as int));
        }
        k = k + 1;
    }
    proof {
        assert(v.subrange(0, k as int) =~= v);
    }
    out
}

fn text_member_or_unknown(x: &JsonValue, key: &str) -> (r: String)
    ensures
        r@ == text_or_unknown(as_text(member(*x, key@))),
{
    match get_member(x, key) {
        Some(JsonValue::Str(t)) => t.clone(),
        _ => String::from_str("?"),
    }
}

fn symbol_line_of(x: &JsonValue) -> (r: String)
    ensures
        r@ == symbol_line(*x),
{
    let line: u64 = match get_member(x, "start_line") {
        Some(JsonValue::Int(i)) => if *i >= 0 {
            *i as u64
        } else {
            0
        },
        _ => 0,
    };
    let s = text_member_or_unknown(x, "name");
    let s = s.concat(" (");
    let s = s.concat(text_member_or_unknown(x, "kind").as_str());
    let s = s.concat(") in ");
    let s = s.concat(text_member_or_unknown(x, "file_path").as_str());
    let s = s.concat(" (line ");
    let s = s.concat(decimal_text(line).as_str());
    s.concat(")")
}

/// How a successful tool result is shown to the model.
pub fn show_result(name: &String, result: &String) -> (r: String)
    ensures
        r@ == shown_result(name@, result@),
{
    let h = clip_result(result);
    let n = name.as_str();
    let files = str_equal(n, "search_files") || str_equal(n, "find_by_name");
    let symbols = str_equal(n, "search_codebase");
    if !files && !symbols {
        return h;
    }
    let parsed = crate::json::parse_json(h.as_str());
    let xs = match &parsed {
        Some(JsonValue::Array(xs)) => xs,
        _ => return h,
    };
    if xs.len() == 0 {
        return if files {
            String::from_str("No files found matching the pattern.")
        } else {
            String::from_str("No symbols found matching the query.")
        };
    }
    let mut lines: Vec<String> = Vec::new();
    if files {
        let mut k: usize = 0;
        while k < xs.len()
            invariant
                k <= xs@.len(),
                lines@.map_values(|s: String| s@) == file_paths(xs@.subrange(0, k as int)),
            decreases xs.len() - k,
        {
            let ghost before = lines@;
            proof {
                assert(xs@.subrange(0, k + 1).drop_last() =~= xs@.subrange(0, k as int));
            }
            match get_member(&xs[k], "path") {
                Some(JsonValue::Str(p)) => {
                    lines.push(p.clone());
                    proof {
                        assert(lines@.map_values(|s: String| s@) =~= before.map_values(|s: String| s@).push(p@));
                    }
                },
                _ => {},
            }
            k = k + 1;
        }
        proof {
            assert(xs@.subrange(0, k as int) =~= xs@);
        }
        String::from_str("Found files:\n").concat(join_into(&lines, "\n").as_str())
    } else {
        let shown = if xs.len() > SYMBOL_LISTING_LIMIT { SYMBOL_LISTING_LIMIT } else { xs.len() };
        let ghost sub = xs@.subrange(0, shown as int);
        let mut k: usize = 0;
        while k < shown
            invariant
                k <= shown <= xs@.len(),
                sub == xs@.subrange(0, shown as int),
                lines@.map_values(|s: String| s@) == symbol_lines(sub.subrange(0, k as int)),
            decreases shown - k,
        {
            let ghost before = lines@;
            proof {
                assert(sub.subrange(0, k + 1).drop_last() =~= sub.subrange(0, k as int));
            }
            lines.push(symbol_line_of(&xs[k]));
            proof {
                assert(lines@.map_values(|s: String| s@) =~= before.map_values(|s: String| s@).push(
                    symbol_line(xs@[k as int]),
                ));
            }
            k = k + 1;
        }
        proof {
            assert(sub.subrange(0, k as int) =~= sub);
            if xs@.len() <= SYMBOL_LISTING_LIMIT {
                assert(sub =~= xs@);
            }
        }
        String::from_str("Found symbols:\n").concat(join_into(&lines, "\n").as_str())
    }
}

fn outcome_entry_of(o: &ToolOutcome) -> (r: String)
    ensures
        r@ == outcome_entry(*o),
{
    match o {
        ToolOutcome::Success { name, result } => {
            let s = String::from_str("[").concat(name.as_str());
            let s = s.concat("] result:\n");
            s.concat(show_result(name, result).as_str())
        },
        ToolOutcome::Failure { name, error } => {
            let s = String::from_str("Tool '").concat(name.as_str());
            let s = s.concat("' error: ");
            s.concat(error.as_str())
        },
    }
}

impl Turn {
    /// Reports the outcomes of the calls of the last reply to the model; no
    /// outcome, no message.
    pub fn on_tool_results(&mut self, outcomes: &Vec<ToolOutcome>)
        ensures
            final(self).iteration == old(self).iteration,
            final(self).max_iterations == old(self).max_iterations,
            outcomes@.len() == 0 ==> final(self).messages@ == old(self).messages@,
            outcomes@.len() > 0 ==> final(self).messages@.len() == old(self).messages@.len() + 1
                && final(self).messages@.subrange(0, old(self).messages@.len() as int) == old(
                self,
            ).messages@ && is_message(
                final(self).messages@.last(),
                "user"@,
                results_message(outcomes@),
            ),
    {
        if outcomes.len() == 0 {
            return;
        }
        let mut entries: Vec<String> = Vec::new();
        let mut k: usize = 0;
        while k < outcomes.len()
            invariant
                k <= outcomes@.len(),
                entries@.map_values(|s: String| s@) == outcome_entries(outcomes@.subrange(0, k as int)),
            decreases outcomes.len() - k,
        {
            let ghost before = entries@;
            proof {
                assert(outcomes@.subrange(0, k + 1).drop_last() =~= outcomes@.subrange(0, k as int));
            }
            entries.push(outcome_entry_of(&outcomes[k]));
            proof {
                assert(entries@.map_values(|s: String| s@) =~= before.map_values(|s: String| s@).push(
                    outcome_entry(outcomes@[k as int]),
                ));
            }
            k = k + 1;
        }
        proof {
            assert(outcomes@.subrange(0, k as int) =~= outcomes@);
        }
        let body = String::from_str("Tool execution results:\n").concat(join_into(&entries, "\n\n").as_str());
        let body = body.concat("\n\nPlease analyze these results and take the next step.");
        let ghost start = self.messages@;
        self.messages.push(message("user", body));
        proof {
            assert(self.messages@.subrange(0, start.len() as int) =~= start);
        }
    }
}

} // verus!
