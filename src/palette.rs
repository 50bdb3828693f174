//! Commands of the command palette and the fuzzy matcher that ranks them.
use vstd::prelude::*;
use crate::text::{chars_of, lowercase, lower_of, is_lower_char, is_upper_char, char_is_lowercase, char_is_uppercase};

verus! {

#[derive(PartialEq, Eq, Structural, Clone, Copy, Debug, Hash)]
pub enum CommandCategory {
    File,
    Edit,
    Selection,
    View,
    Go,
    Run,
    Terminal,
    Git,
    Ai,
    Settings,
    Help,
    Custom,
}

pub open spec fn category_label(c: CommandCategory) -> Seq<char> {
    match c {
        CommandCategory::File => "File"@,
        CommandCategory::Edit => "Edit"@,
        CommandCategory::Selection => "Selection"@,
        CommandCategory::View => "View"@,
        CommandCategory::Go => "Go"@,
        CommandCategory::Run => "Run"@,
        CommandCategory::Terminal => "Terminal"@,
        CommandCategory::Git => "Git"@,
        CommandCategory::Ai => "AI"@,
        CommandCategory::Settings => "Settings"@,
        CommandCategory::Help => "Help"@,
        CommandCategory::Custom => "Custom"@,
    }
}

impl CommandCategory {
    /// The name shown for the category.
    pub fn label(&self) -> (r: &'static str)
        ensures
            r@ == category_label(*self),
    {
        match self {
            CommandCategory::File => "File",
            CommandCategory::Edit => "Edit",
            CommandCategory::Selection => "Selection",
            CommandCategory::View => "View",
            CommandCategory::Go => "Go",
            CommandCategory::Run => "Run",
            CommandCategory::Terminal => "Terminal",
            CommandCategory::Git => "Git",
            CommandCategory::Ai => "AI",
            CommandCategory::Settings => "Settings",
            CommandCategory::Help => "Help",
            CommandCategory::Custom => "Custom",
        }
    }
}

#[derive(PartialEq, Eq, Structural, Clone, Copy, Debug)]
pub enum CommandSource {
    Builtin,
    Plugin,
    User,
}

/// A command that the palette offers.
pub struct Command {
    pub id: String,
    pub label: String,
    pub description: Option<String>,
    pub category: CommandCategory,
    pub source: CommandSource,
    pub when: Option<String>,
    pub icon: Option<String>,
    pub enabled: bool,
}

/// A command is enabled unless it says otherwise.
pub fn default_true() -> (r: bool)
    ensures
        r,
{
    true
}

pub struct CommandWithKeybinding {
    pub command: Command,
    pub keybinding: Option<String>,
}

pub struct CommandSearchResult {
    pub command: CommandWithKeybinding,
    pub score: i32,
    pub matched_indices: Vec<usize>,
}

pub struct SearchOptions {
    pub category: Option<CommandCategory>,
    pub source: Option<CommandSource>,
    pub limit: Option<usize>,
    pub include_disabled: bool,
    pub context: Option<String>,
}

/// Longest pattern and text, in characters, that the matcher scores.
pub const MATCH_LENGTH_LIMIT: usize = 100000000;

/// A fuzzy match: its score and the matched character positions.
pub struct FuzzyMatch {
    pub score: i32,
    pub matched_indices: Vec<usize>,
}

pub open spec fn separator(c: char) -> bool {
    c == ' ' || c == '.' || c == '_' || c == '-' || c == '/' || c == ':' || c == '\\'
}

/// Characters that separate words.
pub fn is_separator(c: char) -> (r: bool)
    ensures
        r == separator(c),
{
    c == ' ' || c == '.' || c == '_' || c == '-' || c == '/' || c == ':' || c == '\\'
}

/// The bonus for matching at `pos` of `text`: 10, plus 15 for the first pattern
/// character at the start, plus 20 at the start or after a separator (else 15
/// at a lower-to-upper case change), plus 5 on an upper-case character.
pub open spec fn match_bonus(pos: int, text: Seq<char>, is_first: bool) -> int {
    let first: int = if is_first && pos == 0 {
        15
    } else {
        0
    };
    let boundary: int = if pos > 0 {
        if pos - 1 < text.len() && separator(text[pos - 1]) {
            20
        } else if pos < text.len() && is_lower_char(text[pos - 1]) && is_upper_char(text[pos]) {
            15
        } else {
            0
        }
    } else {
        20
    };
    let upper: int = if 0 <= pos < text.len() && is_upper_char(text[pos]) {
        5
    } else {
        0
    };
    10 + first + boundary + upper
}

pub fn calculate_match_bonus(pos: usize, text: &[char], is_first: bool) -> (r: i64)
    ensures
        r == match_bonus(pos as int, text@, is_first),
        10 <= r <= 50,
{
    let mut bonus: i64 = 10;
    if is_first && pos == 0 {
        bonus = bonus + 15;
    }
    if pos > 0 {
        if pos - 1 < text.len() && is_separator(text[pos - 1]) {
            bonus = bonus + 20;
        } else if pos < text.len() && char_is_lowercase(text[pos - 1]) && char_is_uppercase(text[pos]) {
            bonus = bonus + 15;
        }
    } else {
        bonus = bonus + 20;
    }
    if pos < text.len() && char_is_uppercase(text[pos]) {
        bonus = bonus + 5;
    }
    bonus
}

/// The better of skipping a text character and matching it; a match must be
/// strictly better to win.
pub open spec fn pick(skip: Option<int>, diag: Option<int>) -> Option<int> {
    match (skip, diag) {
        (_, None) => skip,
        (None, Some(d)) => Some(d),
        (Some(s), Some(d)) => if d > s {
            Some(d)
        } else {
            Some(s)
        },
    }
}

/// The matching option at cell `(i, j)` when the last text character matches.
pub open spec fn diag_of(p: Seq<char>, t: Seq<char>, orig: Seq<char>, i: int, j: int) -> Option<int>
    decreases i + j, 0int,
{
    if i <= 0 || j <= 0 || i > p.len() || j > t.len() || p[i - 1] != t[j - 1] {
        None
    } else {
        match best(p, t, orig, i - 1, j - 1) {
            Some(v) => Some(v + match_bonus(j - 1, orig, i == 1)),
            None => None,
        }
    }
}

/// The skipping option at cell `(i, j)`.
pub open spec fn skip_of(p: Seq<char>, t: Seq<char>, orig: Seq<char>, i: int, j: int) -> Option<int>
    decreases i + j, 0int,
{
    if i >= 0 && j > i && j >= 1 {
        best(p, t, orig, i, j - 1)
    } else {
        None
    }
}

/// The best total bonus of matching the first `i` pattern characters, in
/// order, to characters among the first `j` of the text; `None` if impossible.
pub open spec fn best(p: Seq<char>, t: Seq<char>, orig: Seq<char>, i: int, j: int) -> Option<int>
    decreases i + j, 1int,
{
    if i <= 0 {
        Some(0)
    } else if j < i || j <= 0 {
        None
    } else {
        pick(skip_of(p, t, orig, i, j), diag_of(p, t, orig, i, j))
    }
}

/// The text positions of the best match, recovered from the last cell back.
pub open spec fn trace(p: Seq<char>, t: Seq<char>, orig: Seq<char>, i: int, j: int) -> Seq<int>
    decreases j,
{
    if i <= 0 || j <= 0 {
        Seq::empty()
    } else {
        let s = skip_of(p, t, orig, i, j);
        let d = diag_of(p, t, orig, i, j);
        if d is Some && (s is None || d->0 > s->0) {
            trace(p, t, orig, i - 1, j - 1).push(j - 1)
        } else {
            trace(p, t, orig, i, j - 1)
        }
    }
}

/// Pattern characters matched by a greedy left-to-right scan of `t[..k]`.
pub open spec fn greedy(p: Seq<char>, t: Seq<char>, k: int) -> int
    decreases k,
{
    if k <= 0 {
        0
    } else {
        let c = greedy(p, t, k - 1);
        if c < p.len() && t[k - 1] == p[c] {
            c + 1
        } else {
            c
        }
    }
}

pub open spec fn clamp_i32(v: int) -> int {
    if v > i32::MAX {
        i32::MAX as int
    } else {
        v
    }
}

pub open spec fn usize_seq(v: Seq<usize>) -> Seq<int> {
    v.map_values(|x: usize| x as int)
}

/// The best match of `pattern` (lower case) in `text_lower`; bonuses read the
/// original text's case.
pub fn find_best_match(pattern: &[char], text_lower: &[char], text_original: &[char]) -> (r: Option<(i32, Vec<usize>)>)
    requires
        pattern@.len() <= MATCH_LENGTH_LIMIT,
        text_lower@.len() <= MATCH_LENGTH_LIMIT,
    ensures
        r matches Some(x) ==> best(pattern@, text_lower@, text_original@, pattern@.len() as int, text_lower@.len() as int) matches Some(v)
            && x.0 == clamp_i32(v) && usize_seq(x.1@) == trace(pattern@, text_lower@, text_original@, pattern@.len() as int, text_lower@.len() as int),
        r is None ==> best(pattern@, text_lower@, text_original@, pattern@.len() as int, text_lower@.len() as int) is None,
{
    let n = pattern.len();
    let m = text_lower.len();
    let ghost p = pattern@;
    let ghost t = text_lower@;
    let ghost o = text_original@;
    if n == 0 {
        let none: Vec<usize> = Vec::new();
        proof {
            assert(trace(p, t, o, 0, m as int) =~= Seq::<int>::empty());
            assert(usize_seq(none@) =~= Seq::<int>::empty());
        }
        return Some((0, none));
    }
    if n > m {
        return None;
    }
    let mut rows: Vec<Vec<Option<i64>>> = Vec::new();
    let mut first: Vec<Option<i64>> = Vec::new();
    first.push(Some(0));
    let mut j: usize = 0;
    while j < m
        invariant
            j <= m,
            m == t.len(),
            first@.len() == j + 1,
            forall|k: int| 0 <= k <= j ==> first@[k] == Some(0i64),
        decreases m - j,
    {
        first.push(Some(0));
        j = j + 1;
    }
    rows.push(first);
    let mut i: usize = 1;
    while i <= n
        invariant
            1 <= i <= n + 1,
            p == pattern@,
            t == text_lower@,
            o == text_original@,
            n == p.len(),
            m == t.len(),
            n <= m,
            m <= MATCH_LENGTH_LIMIT,
            rows@.len() == i,
            forall|a: int| 0 <= a < i ==> (#[trigger] rows@[a])@.len() == m + 1,
            forall|a: int, b: int| 0 <= a < i && 0 <= b <= m ==> ((#[trigger] rows@[a]@[b]) is Some ==> 0 <= rows@[a]@[b]->0 <= 50 * a),
            forall|a: int, b: int|
                0 <= a < i && 0 <= b <= m ==> opt_int(#[trigger] rows@[a]@[b]) == best(p, t, o, a, b),
        decreases n + 1 - i,
    {
        let prev = &rows[i - 1];
        let mut row: Vec<Option<i64>> = Vec::new();
        let mut j: usize = 0;
        while j <= m
            invariant
                1 <= i <= n,
                p == pattern@,
                t == text_lower@,
                o == text_original@,
                n == p.len(),
                m == t.len(),
                n <= m,
                m <= MATCH_LENGTH_LIMIT,
                j <= m + 1,
                row@.len() == j,
                prev@.len() == m + 1,
                *prev == rows@[i - 1],
                forall|b: int| 0 <= b <= m ==> ((#[trigger] prev@[b]) is Some ==> 0 <= prev@[b]->0 <= 50 * (i - 1)),
                forall|b: int| 0 <= b <= m ==> opt_int(#[trigger] prev@[b]) == best(p, t, o, i - 1, b),
                forall|b: int| 0 <= b < j ==> ((#[trigger] row@[b]) is Some ==> 0 <= row@[b]->0 <= 50 * i),
                forall|b: int| 0 <= b < j ==> opt_int(#[trigger] row@[b]) == best(p, t, o, i as int, b),
            decreases m + 1 - j,
        {
            if j < i {
                row.push(None);
            } else {
                let skip: Option<i64> = if j > i { row[j - 1] } else { None };
                let diag: Option<i64> = if pattern[i - 1] == text_lower[j - 1] {
                    match prev[j - 1] {
                        Some(v) => {
                            let b = calculate_match_bonus(j - 1, text_original, i == 1);
                            Some(v + b)
                        },
                        None => None,
                    }
                } else {
                    None
                };
                let val = match (skip, diag) {
                    (_, None) => skip,
                    (None, Some(d)) => Some(d),
                    (Some(s), Some(d)) => if d > s {
                        Some(d)
                    } else {
                        Some(s)
                    },
                };
                proof {
                    assert(opt_int(skip) == skip_of(p, t, o, i as int, j as int));
                    assert(opt_int(diag) == diag_of(p, t, o, i as int, j as int));
                }
                row.push(val);
            }
            j = j + 1;
        }
        rows.push(row);
        i = i + 1;
    }
    let last = rows[n][m];
    let total = match last {
        Some(v) => v,
        None => {
            return None;
        },
    };
    let score: i32 = if total > i32::MAX as i64 { i32::MAX } else { total as i32 };
    let mut rev: Vec<usize> = Vec::new();
    let mut i: usize = n;
    let mut j: usize = m;
    while i > 0 && j > 0
        invariant
            i <= n,
            j <= m,
            p == pattern@,
            t == text_lower@,
            o == text_original@,
            n == p.len(),
            m == t.len(),
            rows@.len() == n + 1,
            m <= MATCH_LENGTH_LIMIT,
            forall|a: int| 0 <= a <= n ==> (#[trigger] rows@[a])@.len() == m + 1,
            forall|a: int, b: int| 0 <= a <= n && 0 <= b <= m ==> ((#[trigger] rows@[a]@[b]) is Some ==> 0 <= rows@[a]@[b]->0 <= 50 * a),
            forall|a: int, b: int|
                0 <= a <= n && 0 <= b <= m ==> opt_int(#[trigger] rows@[a]@[b]) == best(p, t, o, a, b),
            trace(p, t, o, n as int, m as int) == trace(p, t, o, i as int, j as int) + rev_ints(rev@),
        decreases j,
    {
        let skip: Option<i64> = if j > i { rows[i][j - 1] } else { None };
        let diag: Option<i64> = if pattern[i - 1] == text_lower[j - 1] {
            match rows[i - 1][j - 1] {
                Some(v) => {
                    assert(0 <= v <= 50 * (i - 1));
                    Some(v + calculate_match_bonus(j - 1, text_original, i == 1))
                },
                None => None,
            }
        } else {
            None
        };
        proof {
            assert(opt_int(skip) == skip_of(p, t, o, i as int, j as int));
            assert(opt_int(diag) == diag_of(p, t, o, i as int, j as int));
        }
        let take = match (skip, diag) {
            (None, Some(_)) => true,
            (Some(s), Some(d)) => d > s,
            _ => false,
        };
        if take {
            let ghost before = rev@;
            rev.push(j - 1);
            proof {
                assert(rev@.drop_last() =~= before);
                assert(rev@.last() == (j - 1) as usize);
                assert(rev_ints(rev@) =~= seq![(j - 1) as int] + rev_ints(before));
            }
            i = i - 1;
        }
        j = j - 1;
    }
    proof {
        assert(trace(p, t, o, i as int, j as int) =~= Seq::<int>::empty());
    }
    let mut out: Vec<usize> = Vec::new();
    let mut k: usize = rev.len();
    proof {
        lemma_rev_ints(rev@);
    }
    while k > 0
        invariant
            k <= rev@.len(),
            rev_ints(rev@).len() == rev@.len(),
            forall|q: int| 0 <= q < rev@.len() ==> #[trigger] rev_ints(rev@)[q] == rev@[rev@.len() - 1 - q] as int,
            usize_seq(out@) == rev_ints(rev@).subrange(0, rev@.len() - k),
        decreases k,
    {
        let ghost before = out@;
        out.push(rev[k - 1]);
        proof {
            assert(usize_seq(out@) =~= usize_seq(before).push(rev@[k - 1] as int));
            assert(rev_ints(rev@)[rev@.len() - k] == rev@[k - 1] as int);
            assert(usize_seq(out@) =~= rev_ints(rev@).subrange(0, rev@.len() - k + 1));
        }
        k = k - 1;
    }
    proof {
        assert(rev_ints(rev@).subrange(0, rev@.len() as int) =~= rev_ints(rev@));
    }
    Some((score, out))
}

pub open spec fn opt_int(o: Option<i64>) -> Option<int> {
    match o {
        Some(v) => Some(v as int),
        None => None,
    }
}

/// The positions of `v` in reverse order.
pub open spec fn rev_ints(v: Seq<usize>) -> Seq<int>
    decreases v.len(),
{
    if v.len() == 0 {
        Seq::empty()
    } else {
        seq![v.last() as int] + rev_ints(v.drop_last())
    }
}

proof fn lemma_rev_ints(v: Seq<usize>)
    ensures
        rev_ints(v).len() == v.len(),
        forall|k: int| 0 <= k < v.len() ==> #[trigger] rev_ints(v)[k] == v[v.len() - 1 - k] as int,
    decreases v.len(),
{
    if v.len() > 0 {
        lemma_rev_ints(v.drop_last());
    }
}

/// Score and positions of the match of `pattern` in `text`, both compared in
/// lower case: `None` unless the pattern's characters occur in order. An empty
/// pattern matches with score 0 and no positions.
pub open spec fn fuzzy_spec(pattern: Seq<char>, text: Seq<char>) -> Option<(int, Seq<int>)> {
    if pattern.len() == 0 {
        Some((0, Seq::empty()))
    } else {
        let p = lower_of(pattern);
        let t = lower_of(text);
        if greedy(p, t, t.len() as int) != p.len() || p.len() > MATCH_LENGTH_LIMIT || t.len()
            > MATCH_LENGTH_LIMIT {
            None
        } else {
            match best(p, t, text, p.len() as int, t.len() as int) {
                Some(v) => Some((clamp_i32(v), trace(p, t, text, p.len() as int, t.len() as int))),
                None => None,
            }
        }
    }
}

pub open spec fn match_view(m: FuzzyMatch) -> (int, Seq<int>) {
    (m.score as int, usize_seq(m.matched_indices@))
}

pub open spec fn opt_match(m: Option<FuzzyMatch>) -> Option<(int, Seq<int>)> {
    match m {
        Some(x) => Some(match_view(x)),
        None => None,
    }
}

/// Pattern characters found, in order, by one pass over `t`.
fn greedy_count(p: &[char], t: &[char]) -> (r: usize)
    ensures
        r == greedy(p@, t@, t@.len() as int),
        r <= p@.len(),
{
    let mut pi: usize = 0;
    let mut k: usize = 0;
    while k < t.len()
        invariant
            k <= t@.len(),
            pi <= p@.len(),
            pi == greedy(p@, t@, k as int),
        decreases t.len() - k,
    {
        if pi < p.len() && t[k] == p[pi] {
            pi = pi + 1;
        }
        k = k + 1;
    }
    pi
}

/// Matches `pattern` against `text` ignoring case; characters at word starts,
/// after separators and at case changes score higher.
pub fn fuzzy_match(pattern: &str, text: &str) -> (r: Option<FuzzyMatch>)
    ensures
        opt_match(r) == fuzzy_spec(pattern@, text@),
{
    if pattern.unicode_len() == 0 {
        let none: Vec<usize> = Vec::new();
        proof {
            assert(usize_seq(none@) =~= Seq::<int>::empty());
        }
        return Some(FuzzyMatch { score: 0, matched_indices: none });
    }
    let pattern_lower = chars_of(lowercase(pattern).as_str());
    let text_lower = chars_of(lowercase(text).as_str());
    let text_chars = chars_of(text);
    if greedy_count(&pattern_lower, &text_lower) != pattern_lower.len() {
        return None;
    }
    if pattern_lower.len() > MATCH_LENGTH_LIMIT || text_lower.len() > MATCH_LENGTH_LIMIT {
        return None;
    }
    match find_best_match(&pattern_lower, &text_lower, &text_chars) {
        Some((score, indices)) => Some(FuzzyMatch { score, matched_indices: indices }),
        None => None,
    }
}

/// `s` raised by `k`, at most `i32::MAX`.
pub open spec fn raised(s: int, k: int) -> int {
    if s + k > i32::MAX {
        i32::MAX as int
    } else {
        s + k
    }
}

/// The match of a command: on its label (+100), else on `category: label`
/// (+50), else on its description (+25, no positions).
pub open spec fn multi_spec(
    pattern: Seq<char>,
    label: Seq<char>,
    description: Option<Seq<char>>,
    category: Seq<char>,
) -> Option<(int, Seq<int>)> {
    match fuzzy_spec(pattern, label) {
        Some(m) => Some((raised(m.0, 100), m.1)),
        None => match fuzzy_spec(pattern, category + ": "@ + label) {
            Some(m) => Some((raised(m.0, 50), m.1)),
            None => match description {
                Some(d) => match fuzzy_spec(pattern, d) {
                    Some(m) => Some((raised(m.0, 25), Seq::empty())),
                    None => None,
                },
                None => None,
            },
        },
    }
}

pub open spec fn opt_str(o: Option<&str>) -> Option<Seq<char>> {
    match o {
        Some(s) => Some(s@),
        None => None,
    }
}

fn raise(s: i32, k: i32) -> (r: i32)
    requires
        0 <= k,
    ensures
        r == raised(s as int, k as int),
{
    if s > i32::MAX - k {
        i32::MAX
    } else {
        s + k
    }
}

/// Matches a command by its label, its category and label, or its description.
pub fn fuzzy_match_multi(pattern: &str, label: &str, description: Option<&str>, category: &str) -> (r:
    Option<FuzzyMatch>)
    ensures
        opt_match(r) == multi_spec(pattern@, label@, opt_str(description), category@),
{
    match fuzzy_match(pattern, label) {
        Some(m) => {
            return Some(FuzzyMatch { score: raise(m.score, 100), matched_indices: m.matched_indices });
        },
        None => {},
    }
    let category_label = String::from_str(category).concat(": ").concat(label);
    match fuzzy_match(pattern, category_label.as_str()) {
        Some(m) => {
            return Some(FuzzyMatch { score: raise(m.score, 50), matched_indices: m.matched_indices });
        },
        None => {},
    }
    match description {
        Some(d) => match fuzzy_match(pattern, d) {
            Some(m) => {
                let none: Vec<usize> = Vec::new();
                proof {
                    assert(usize_seq(none@) =~= Seq::<int>::empty());
                }
                Some(FuzzyMatch { score: raise(m.score, 25), matched_indices: none })
            },
            None => None,
        },
        None => None,
    }
}

} // verus!
