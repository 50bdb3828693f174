//! Dispatch of tool calls: which effect a call asks for, with which resolved
//! paths and parameters, and the text that reports the outcome.
use vstd::prelude::*;
use crate::text::{str_equal, chars_of, string_of, text_lines, lines_of, char_rows};
use crate::json::{JsonValue, member, as_text, get_member, get_text};
use crate::toolcall::ToolCall;

verus! {

/// Why a tool call failed.
pub enum ToolError {
    /// A required parameter is absent or not a string; holds its name.
    MissingParameter(String),
    /// The thing the call refers to does not exist; holds the message.
    NotFound(String),
    /// A file-system operation failed; holds its message.
    Io(String),
    NoWorkspace,
    /// Holds the tool name.
    UnknownTool(String),
}

impl ToolError {
    /// The text reported for the failure.
    pub fn message(&self) -> (r: String)
        ensures
            r@ == error_text(*self),
    {
        match self {
            ToolError::MissingParameter(p) => {
                let s = String::from_str("Missing ");
                let s = s.concat(p.as_str());
                s.concat(" parameter")
            },
            ToolError::NotFound(m) => m.clone(),
            ToolError::Io(m) => m.clone(),
            ToolError::NoWorkspace => String::from_str("No workspace open"),
            ToolError::UnknownTool(n) => String::from_str("Unknown tool: ").concat(n.as_str()),
        }
    }
}

pub open spec fn error_text(e: ToolError) -> Seq<char> {
    match e {
        ToolError::MissingParameter(p) => "Missing "@ + p@ + " parameter"@,
        ToolError::NotFound(m) => m@,
        ToolError::Io(m) => m@,
        ToolError::NoWorkspace => "No workspace open"@,
        ToolError::UnknownTool(n) => "Unknown tool: "@ + n@,
    }
}

/// The effect a tool call asks for, with paths already resolved.
pub enum ToolRequest {
    SearchCodebase { query: String },
    IndexCodebase { workspace: String },
    ReadFile { path: String, start_line: Option<u64>, end_line: Option<u64> },
    FindFiles { workspace: String, pattern: String },
    Grep {
        path: String,
        query: String,
        case_sensitive: bool,
        whole_word: bool,
        regex: bool,
        include_pattern: String,
        exclude_pattern: String,
    },
    ListDir { path: String },
    WriteFile { path: String, content: String },
    TodoAdd { todo_file: String, content: String },
    TodoList { todo_file: String },
    TodoComplete { todo_file: String, id: String },
}

/// Whether `Path::is_absolute` holds of a path.
pub uninterp spec fn is_absolute_path(p: Seq<char>) -> bool;

/// The text of `Path::new(base).join(p)`.
pub uninterp spec fn joined_path(base: Seq<char>, p: Seq<char>) -> Seq<char>;

/// Relies on `std::path::Path::is_absolute`.
#[verifier::external_body]
fn path_is_absolute(p: &str) -> (r: bool)
    ensures
        r == is_absolute_path(p@),
{
    std::path::Path::new(p).is_absolute()
}

/// Relies on `std::path::Path::join`, read back with `to_string_lossy`.
#[verifier::external_body]
fn path_join(base: &str, p: &str) -> (r: String)
    ensures
        r@ == joined_path(base@, p@),
{
    std::path::Path::new(base).join(p).to_string_lossy().into_owned()
}

/// A path parameter as the file system sees it: absolute paths stay, relative
/// ones are joined to the workspace root when there is one.
pub open spec fn resolved(ws: Option<Seq<char>>, p: Seq<char>) -> Seq<char> {
    if is_absolute_path(p) {
        p
    } else {
        match ws {
            Some(w) => joined_path(w, p),
            None => p,
        }
    }
}

/// The task-list document of a workspace.
pub open spec fn todo_file_of(w: Seq<char>) -> Seq<char> {
    joined_path(joined_path(w, ".cognitive"@), "todos.json"@)
}

pub fn resolve_path(ws: &Option<String>, p: &str) -> (r: String)
    ensures
        r@ == resolved(opt_text(*ws), p@),
{
    if path_is_absolute(p) {
        String::from_str(p)
    } else {
        match ws {
            Some(w) => path_join(w.as_str(), p),
            None => String::from_str(p),
        }
    }
}

pub fn todo_file(w: &String) -> (r: String)
    ensures
        r@ == todo_file_of(w@),
{
    let dir = path_join(w.as_str(), ".cognitive");
    path_join(dir.as_str(), "todos.json")
}

pub open spec fn opt_text(o: Option<String>) -> Option<Seq<char>> {
    match o {
        Some(s) => Some(s@),
        None => None,
    }
}

/// The text of the string parameter `key` of a call.
pub open spec fn param(c: ToolCall, key: Seq<char>) -> Option<Seq<char>> {
    as_text(member(c.parameters, key))
}

/// A parameter read as a non-negative integer.
pub open spec fn uint_param(c: ToolCall, key: Seq<char>) -> Option<u64> {
    match member(c.parameters, key) {
        Some(JsonValue::Int(i)) => if i >= 0 {
            Some(i as u64)
        } else {
            None
        },
        _ => None,
    }
}

/// A parameter read as a boolean, `false` where it is absent or no boolean.
pub open spec fn flag_param(c: ToolCall, key: Seq<char>) -> bool {
    match member(c.parameters, key) {
        Some(JsonValue::Bool(b)) => b,
        _ => false,
    }
}

fn uint_of(c: &ToolCall, key: &str) -> (r: Option<u64>)
    ensures
        r == uint_param(*c, key@),
{
    match get_member(&c.parameters, key) {
        Some(JsonValue::Int(i)) => if *i >= 0 {
            Some(*i as u64)
        } else {
            None
        },
        _ => None,
    }
}

fn flag_of(c: &ToolCall, key: &str) -> (r: bool)
    ensures
        r == flag_param(*c, key@),
{
    match get_member(&c.parameters, key) {
        Some(JsonValue::Bool(b)) => *b,
        _ => false,
    }
}

fn text_or(c: &ToolCall, key: &str, default: &str) -> (r: String)
    ensures
        r@ == (match param(*c, key@) {
            Some(t) => t,
            None => default@,
        }),
{
    match get_text(&c.parameters, key) {
        Some(t) => t,
        None => String::from_str(default),
    }
}

fn require(c: &ToolCall, key: &str) -> (r: Result<String, ToolError>)
    ensures
        r matches Ok(t) ==> param(*c, key@) == Some(t@),
        r matches Err(e) ==> param(*c, key@) is None && e is MissingParameter
            && e->MissingParameter_0@ == key@,
{
    match get_text(&c.parameters, key) {
        Some(t) => Ok(t),
        None => Err(ToolError::MissingParameter(String::from_str(key))),
    }
}

fn workspace_of(ws: &Option<String>) -> (r: Result<String, ToolError>)
    ensures
        r matches Ok(w) ==> *ws == Some(w),
        r matches Err(e) ==> ws is None && e is NoWorkspace,
{
    match ws {
        Some(w) => Ok(w.clone()),
        None => Err(ToolError::NoWorkspace),
    }
}

/// A required parameter is missing: the error names it.
pub open spec fn missing(r: Result<ToolRequest, ToolError>, key: Seq<char>) -> bool {
    r matches Err(e) && e is MissingParameter && e->MissingParameter_0@ == key
}

pub open spec fn no_workspace(r: Result<ToolRequest, ToolError>) -> bool {
    r matches Err(e) && e is NoWorkspace
}

/// What dispatching `c` with workspace root `ws` gives. Parameters are checked
/// in the order listed; the first failure decides.
pub open spec fn planned(c: ToolCall, ws: Option<Seq<char>>, r: Result<ToolRequest, ToolError>) -> bool {
    let n = c.name@;
    if n == "search_codebase"@ {
        match param(c, "query"@) {
            None => missing(r, "query"@),
            Some(q) => r matches Ok(ToolRequest::SearchCodebase { query }) && query@ == q,
        }
    } else if n == "index_codebase"@ {
        match ws {
            None => no_workspace(r),
            Some(w) => r matches Ok(ToolRequest::IndexCodebase { workspace }) && workspace@ == w,
        }
    } else if n == "read_file"@ {
        match param(c, "path"@) {
            None => missing(r, "path"@),
            Some(p) => r matches Ok(ToolRequest::ReadFile { path, start_line, end_line }) && path@
                == resolved(ws, p) && start_line == uint_param(c, "start_line"@) && end_line
                == uint_param(c, "end_line"@),
        }
    } else if n == "search_files"@ || n == "find_by_name"@ {
        match (param(c, "pattern"@), ws) {
            (None, _) => missing(r, "pattern"@),
            (Some(_), None) => no_workspace(r),
            (Some(p), Some(w)) => r matches Ok(ToolRequest::FindFiles { workspace, pattern })
                && workspace@ == w && pattern@ == p,
        }
    } else if n == "grep"@ || n == "search"@ {
        match param(c, "query"@) {
            None => missing(r, "query"@),
            Some(q) => r matches Ok(
                ToolRequest::Grep {
                    path,
                    query,
                    case_sensitive,
                    whole_word,
                    regex,
                    include_pattern,
                    exclude_pattern,
                },
            ) && query@ == q && path@ == resolved(
                ws,
                match param(c, "path"@) {
                    Some(p) => p,
                    None => "."@,
                },
            ) && case_sensitive == flag_param(c, "caseSensitive"@) && whole_word == flag_param(
                c,
                "wholeWord"@,
            ) && regex == flag_param(c, "regex"@) && include_pattern@ == (match param(
                c,
                "includePattern"@,
            ) {
                Some(t) => t,
                None => ""@,
            }) && exclude_pattern@ == (match param(c, "excludePattern"@) {
                Some(t) => t,
                None => ""@,
            }),
        }
    } else if n == "list_dir"@ {
        match param(c, "path"@) {
            None => missing(r, "path"@),
            Some(p) => r matches Ok(ToolRequest::ListDir { path }) && path@ == resolved(ws, p),
        }
    } else if n == "write_file"@ {
        match (param(c, "path"@), param(c, "content"@)) {
            (None, _) => missing(r, "path"@),
            (Some(_), None) => missing(r, "content"@),
            (Some(p), Some(t)) => r matches Ok(ToolRequest::WriteFile { path, content }) && path@
                == resolved(ws, p) && content@ == t,
        }
    } else if n == "todo_add"@ {
        match (param(c, "content"@), ws) {
            (None, _) => missing(r, "content"@),
            (Some(_), None) => no_workspace(r),
            (Some(t), Some(w)) => r matches Ok(ToolRequest::TodoAdd { todo_file, content })
                && todo_file@ == todo_file_of(w) && content@ == t,
        }
    } else if n == "todo_list"@ {
        match ws {
            None => no_workspace(r),
            Some(w) => r matches Ok(ToolRequest::TodoList { todo_file }) && todo_file@ == todo_file_of(
                w,
            ),
        }
    } else if n == "todo_complete"@ {
        match (param(c, "id"@), ws) {
            (None, _) => missing(r, "id"@),
            (Some(_), None) => no_workspace(r),
            (Some(i), Some(w)) => r matches Ok(ToolRequest::TodoComplete { todo_file, id })
                && todo_file@ == todo_file_of(w) && id@ == i,
        }
    } else {
        r matches Err(e) && e is UnknownTool && e->UnknownTool_0@ == n
    }
}

/// Decides what a tool call asks for, or why it cannot run.
pub fn plan_tool(c: &ToolCall, ws: &Option<String>) -> (r: Result<ToolRequest, ToolError>)
    ensures
        planned(*c, opt_text(*ws), r),
{
    let n = c.name.as_str();
    if str_equal(n, "search_codebase") {
        let query = require(c, "query")?;
        Ok(ToolRequest::SearchCodebase { query })
    } else if str_equal(n, "index_codebase") {
        let workspace = workspace_of(ws)?;
        Ok(ToolRequest::IndexCodebase { workspace })
    } else if str_equal(n, "read_file") {
        let p = require(c, "path")?;
        Ok(
            ToolRequest::ReadFile {
                path: resolve_path(ws, p.as_str()),
                start_line: uint_of(c, "start_line"),
                end_line: uint_of(c, "end_line"),
            },
        )
    } else if str_equal(n, "search_files") || str_equal(n, "find_by_name") {
        let pattern = require(c, "pattern")?;
        let workspace = workspace_of(ws)?;
        Ok(ToolRequest::FindFiles { workspace, pattern })
    } else if str_equal(n, "grep") || str_equal(n, "search") {
        let query = require(c, "query")?;
        let p = text_or(c, "path", ".");
        Ok(
            ToolRequest::Grep {
                path: resolve_path(ws, p.as_str()),
                query,
                case_sensitive: flag_of(c, "caseSensitive"),
                whole_word: flag_of(c, "wholeWord"),
                regex: flag_of(c, "regex"),
                include_pattern: text_or(c, "includePattern", ""),
                exclude_pattern: text_or(c, "excludePattern", ""),
            },
        )
    } else if str_equal(n, "list_dir") {
        let p = require(c, "path")?;
        Ok(ToolRequest::ListDir { path: resolve_path(ws, p.as_str()) })
    } else if str_equal(n, "write_file") {
        let p = require(c, "path")?;
        let content = require(c, "content")?;
        Ok(ToolRequest::WriteFile { path: resolve_path(ws, p.as_str()), content })
    } else if str_equal(n, "todo_add") {
        let content = require(c, "content")?;
        let w = workspace_of(ws)?;
        Ok(ToolRequest::TodoAdd { todo_file: todo_file(&w), content })
    } else if str_equal(n, "todo_list") {
        let w = workspace_of(ws)?;
        Ok(ToolRequest::TodoList { todo_file: todo_file(&w) })
    } else if str_equal(n, "todo_complete") {
        let id = require(c, "id")?;
        let w = workspace_of(ws)?;
        Ok(ToolRequest::TodoComplete { todo_file: todo_file(&w), id })
    } else {
        Err(ToolError::UnknownTool(c.name.clone()))
    }
}

/// The 0-based, end-exclusive range of lines that 1-based inclusive bounds
/// select in a text of `total` lines; the end is clamped to the text.
pub open spec fn line_bounds(total: int, start: Option<u64>, end: Option<u64>) -> (int, int) {
    let s: int = match start {
        Some(v) => if v >= 1 {
            v - 1
        } else {
            0
        },
        None => 0,
    };
    let e: int = match end {
        Some(v) => if v < total {
            v as int
        } else {
            total
        },
        None => total,
    };
    (s, e)
}

/// Lines joined with `\n`.
pub open spec fn join_lines(ls: Seq<Seq<char>>) -> Seq<char>
    decreases ls.len(),
{
    if ls.len() == 0 {
        Seq::empty()
    } else if ls.len() == 1 {
        ls[0]
    } else {
        join_lines(ls.drop_last()) + seq!['\n'] + ls.last()
    }
}

/// The selected lines of a file's content, `None` for an empty or
/// out-of-bounds range.
pub open spec fn line_range(content: Seq<char>, start: Option<u64>, end: Option<u64>) -> Option<Seq<char>> {
    let ls = lines_of(content);
    let (s, e) = line_bounds(ls.len() as int, start, end);
    if s > ls.len() || s >= e {
        None
    } else {
        Some(join_lines(ls.subrange(s, e)))
    }
}

/// The text `read_file` returns for a range that selects no line.
pub fn empty_range_text() -> (r: String)
    ensures
        r@ == "(Empty range or out of bounds)"@,
{
    String::from_str("(Empty range or out of bounds)")
}

/// The lines `start_line..=end_line` (1-based) of a file's content, or the
/// empty-range text.
pub fn read_range(content: &str, start_line: Option<u64>, end_line: Option<u64>) -> (r: String)
    ensures
        line_range(content@, start_line, end_line) matches Some(t) ==> r@ == t,
        line_range(content@, start_line, end_line) is None ==> r@ == "(Empty range or out of bounds)"@,
{
    let cs = chars_of(content);
    let lines = text_lines(&cs);
    let ghost ls = char_rows(lines@);
    let total = lines.len();
    let (s, over): (usize, bool) = match start_line {
        Some(v) => if v >= 1 {
            if v - 1 <= total as u64 {
                ((v - 1) as usize, false)
            } else {
                (total, true)
            }
        } else {
            (0, false)
        },
        None => (0, false),
    };
    let e: usize = match end_line {
        Some(v) => if v < total as u64 {
            v as usize
        } else {
            total
        },
        None => total,
    };
    proof {
        let (s2, e2) = line_bounds(ls.len() as int, start_line, end_line);
        assert(e == e2);
        assert(s2 > ls.len() ==> over);
        assert(s2 <= ls.len() ==> s == s2 && !over);
    }
    if over || s >= e {
        return empty_range_text();
    }
    let mut out = string_of(&lines[s]);
    let mut k = s + 1;
    proof {
        assert(ls.subrange(s as int, k as int) =~= seq![ls[s as int]]);
    }
    while k < e
        invariant
            s < k <= e <= total,
            total == lines@.len(),
            ls == char_rows(lines@),
            out@ == join_lines(ls.subrange(s as int, k as int)),
        decreases e - k,
    {
        let ghost before = ls.subrange(s as int, k as int);
        proof {
            reveal_strlit("\n");
        }
        out = out.concat("\n");
        let line = string_of(&lines[k]);
        out = out.concat(line.as_str());
        proof {
            let next = ls.subrange(s as int, k + 1);
            assert(next.drop_last() =~= before);
            assert(out@ =~= join_lines(before) + seq!['\n'] + ls[k as int]);
        }
        k = k + 1;
    }
    out
}

/// Reading with an end line before the start line gives the empty range, never a failure.
pub proof fn lemma_end_before_start(content: Seq<char>, start: u64, end: u64)
    requires
        1 <= start,
        end < start,
    ensures
        line_range(content, Some(start), Some(end)) is None,
{
}

/// One entry of a workspace's task list.
pub struct TodoItem {
    pub id: String,
    pub content: String,
    pub status: String,
    pub created_at: String,
}

/// Appends a pending task; `id` and `created_at` come from the caller.
pub fn todo_add(todos: &mut Vec<TodoItem>, id: String, content: String, created_at: String) -> (r: String)
    ensures
        final(todos)@.len() == old(todos)@.len() + 1,
        final(todos)@.subrange(0, old(todos)@.len() as int) == old(todos)@,
        final(todos)@.last().id == id,
        final(todos)@.last().content == content,
        final(todos)@.last().status@ == "pending"@,
        final(todos)@.last().created_at == created_at,
        r@ == "Added todo: "@ + content@,
{
    let r = String::from_str("Added todo: ").concat(content.as_str());
    todos.push(TodoItem { id, content, status: String::from_str("pending"), created_at });
    proof {
        assert(final(todos)@.subrange(0, old(todos)@.len() as int) =~= old(todos)@);
    }
    r
}

/// Marks every task with the given id completed; fails when none has it.
pub fn todo_complete(todos: &mut Vec<TodoItem>, id: &str) -> (r: Result<String, ToolError>)
    ensures
        final(todos)@.len() == old(todos)@.len(),
        forall|k: int| 0 <= k < old(todos)@.len() ==> if (#[trigger] old(todos)@[k]).id@ == id@ {
            final(todos)@[k].status@ == "completed"@ && final(todos)@[k].id == old(todos)@[k].id
                && final(todos)@[k].content == old(todos)@[k].content && final(todos)@[k].created_at
                == old(todos)@[k].created_at
        } else {
            final(todos)@[k] == old(todos)@[k]
        },
        r is Ok <==> exists|k: int| 0 <= k < old(todos)@.len() && (#[trigger] old(todos)@[k]).id@ == id@,
        r matches Ok(m) ==> m@ == "Completed todo: "@ + id@,
        r matches Err(e) ==> e is NotFound && e->NotFound_0@ == "Todo not found: "@ + id@,
{
    let ghost orig = todos@;
    let mut found = false;
    let mut k: usize = 0;
    while k < todos.len()
        invariant
            k <= todos@.len(),
            todos@.len() == orig.len(),
            found <==> exists|t: int| 0 <= t < k && (#[trigger] orig[t]).id@ == id@,
            forall|t: int| k <= t < orig.len() ==> todos@[t] == orig[t],
            forall|t: int| 0 <= t < k ==> if (#[trigger] orig[t]).id@ == id@ {
                todos@[t].status@ == "completed"@ && todos@[t].id == orig[t].id && todos@[t].content
                    == orig[t].content && todos@[t].created_at == orig[t].created_at
            } else {
                todos@[t] == orig[t]
            },
        decreases todos.len() - k,
    {
        let ghost prev_found = found;
        assert(todos@[k as int] == orig[k as int]);
        if str_equal(todos[k].id.as_str(), id) {
            assert(orig[k as int].id@ == id@);
            let item = TodoItem {
                id: todos[k].id.clone(),
                content: todos[k].content.clone(),
                status: String::from_str("completed"),
                created_at: todos[k].created_at.clone(),
            };
            todos.set(k, item);
            found = true;
        } else {
            assert(orig[k as int].id@ != id@);
        }
        proof {
            assert(found <==> exists|t: int| 0 <= t < k + 1 && (#[trigger] orig[t]).id@ == id@) by {
                if found && !prev_found {
                    assert(orig[k as int].id@ == id@);
                }
                if exists|t: int| 0 <= t < k + 1 && (#[trigger] orig[t]).id@ == id@ {
                    let t = choose|t: int| 0 <= t < k + 1 && (#[trigger] orig[t]).id@ == id@;
                    if t < k {
                        assert(prev_found);
                    }
                }
            }
        }
        k = k + 1;
    }
    if found {
        Ok(String::from_str("Completed todo: ").concat(id))
    } else {
        Err(ToolError::NotFound(String::from_str("Todo not found: ").concat(id)))
    }
}

/// The outcome of a write: its success text, or the failure as an I/O error.
pub fn write_result(outcome: Result<(), String>) -> (r: Result<String, ToolError>)
    ensures
        outcome is Ok ==> (r matches Ok(t) && t@ == "File written successfully"@),
        outcome matches Err(m) ==> r == Err::<String, ToolError>(ToolError::Io(m)),
{
    match outcome {
        Ok(()) => Ok(String::from_str("File written successfully")),
        Err(m) => Err(ToolError::Io(m)),
    }
}

/// The outcome of an indexing pass: its success text, or the failure as an I/O error.
pub fn index_result(outcome: Result<(), String>) -> (r: Result<String, ToolError>)
    ensures
        outcome is Ok ==> (r matches Ok(t) && t@ == "Codebase indexed successfully"@),
        outcome matches Err(m) ==> r == Err::<String, ToolError>(ToolError::Io(m)),
{
    match outcome {
        Ok(()) => Ok(String::from_str("Codebase indexed successfully")),
        Err(m) => Err(ToolError::Io(m)),
    }
}

/// The task list as `todo_list` reports it: the document, or an empty list
/// where the workspace has none.
pub fn todo_list_result(document: Option<String>) -> (r: String)
    ensures
        document matches Some(d) ==> r == d,
        document is None ==> r@ == "[]"@,
{
    match document {
        Some(d) => d,
        None => String::from_str("[]"),
    }
}

/// The failure of `todo_complete` in a workspace without a task list.
pub fn missing_todos() -> (r: ToolError)
    ensures
        r is NotFound && r->NotFound_0@ == "No todos found"@,
{
    ToolError::NotFound(String::from_str("No todos found"))
}

} // verus!
