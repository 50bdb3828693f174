//! Ranked symbol search over the index.
use vstd::prelude::*;
use crate::text::{str_eq, str_equal, chars_of, lowercase, lower_of, contains, contains_chars, starts_with, starts_with_chars, trimmed, trim_chars, slice_chars, string_of};
use crate::index::{IndexData, IndexedSymbol, SymbolView, views};

verus! {

/// Most results a search returns.
pub const MAX_RESULTS: usize = 50;

/// What `SkimMatcherV2::default().fuzzy_match(choice, pattern)` scores.
pub uninterp spec fn skim_score(choice: Seq<char>, pattern: Seq<char>) -> Option<i64>;

/// What `Path::file_name` gives for a path, as text; empty where it gives none.
pub uninterp spec fn file_name_of(path: Seq<char>) -> Seq<char>;

/// Relies on `fuzzy_matcher::skim::SkimMatcherV2::fuzzy_match` with the default
/// matcher: the score depends on the two texts alone; an empty pattern scores 0.
#[verifier::external_body]
fn fuzzy_score(choice: &str, pattern: &str) -> (r: Option<i64>)
    ensures
        r == skim_score(choice@, pattern@),
        pattern@.len() == 0 ==> r == Some(0i64),
{
    let matcher = fuzzy_matcher::skim::SkimMatcherV2::default();
    <fuzzy_matcher::skim::SkimMatcherV2 as fuzzy_matcher::FuzzyMatcher>::fuzzy_match(&matcher, choice, pattern)
}

/// Relies on `std::path::Path::file_name`: the last component of the path.
#[verifier::external_body]
fn file_name(path: &str) -> (r: String)
    ensures
        r@ == file_name_of(path@),
{
    std::path::Path::new(path).file_name().and_then(|f| f.to_str()).unwrap_or("").to_string()
}

/// A ` in ` clause (either case) starts at `p`.
pub open spec fn in_clause_at(q: Seq<char>, p: int) -> bool {
    0 <= p && p + 4 <= q.len() && q[p] == ' ' && (q[p + 1] == 'i' || q[p + 1] == 'I') && (q[p + 2]
        == 'n' || q[p + 2] == 'N') && q[p + 3] == ' '
}

/// The last start of a ` in ` clause before `end`.
pub open spec fn last_clause_before(q: Seq<char>, end: int) -> Option<int>
    decreases end,
{
    if end <= 0 {
        None
    } else if in_clause_at(q, end - 1) {
        Some(end - 1)
    } else {
        last_clause_before(q, end - 1)
    }
}

/// A query split into the text to match and an optional lower-cased path filter:
/// `"login in store"` matches `login` in files whose path holds `store`.
pub open spec fn query_parts(q: Seq<char>) -> (Seq<char>, Option<Seq<char>>) {
    match last_clause_before(q, q.len() as int) {
        Some(p) => (trimmed(q.subrange(0, p)), Some(lower_of(trimmed(q.subrange(p + 4, q.len() as int))))),
        None => (q, None),
    }
}

pub open spec fn kind_boost(kind: Seq<char>) -> int {
    if kind == "Class"@ || kind == "Interface"@ || kind == "Struct"@ {
        150
    } else if kind == "Function"@ || kind == "Method"@ {
        100
    } else {
        0
    }
}

/// How the name (or, failing that, the detail or path) of a symbol matches.
/// Queries under three characters match by exact name or prefix only.
pub open spec fn match_score(s: SymbolView, q: Seq<char>, ql: Seq<char>) -> Option<int> {
    if q.len() < 3 {
        if s.name == q {
            Some(1000)
        } else if starts_with(s.name, q) {
            Some(500)
        } else {
            None
        }
    } else {
        let ns: int = match skim_score(s.name, q) {
            Some(v) => v as int,
            None => 0,
        };
        if ns > 0 {
            if s.name == q {
                Some(1000)
            } else if lower_of(s.name) == ql {
                Some(800)
            } else if starts_with(s.name, q) {
                Some(500)
            } else {
                Some(ns)
            }
        } else if s.detail is Some && contains(lower_of(s.detail->0), ql) {
            Some(50)
        } else if contains(lower_of(s.file_path), ql) {
            Some(30)
        } else {
            None
        }
    }
}

/// The total score of a symbol for a query, `None` where it does not qualify.
pub open spec fn symbol_score(s: SymbolView, q: Seq<char>, filter: Option<Seq<char>>) -> Option<int> {
    let ql = lower_of(q);
    let base: Option<int> = match filter {
        Some(f) => if contains(lower_of(s.file_path), f) {
            Some(100)
        } else {
            None
        },
        None => Some(0),
    };
    match (base, match_score(s, q, ql)) {
        (Some(a), Some(b)) => {
            let parent: int = if s.parent_name is Some && contains(lower_of(s.parent_name->0), ql) {
                50
            } else {
                0
            };
            let file: int = if contains(lower_of(file_name_of(s.file_path)), ql) {
                100
            } else {
                0
            };
            Some(a + b + kind_boost(s.kind) + parent + file)
        },
        _ => None,
    }
}

/// The qualifying symbols of `syms` with their scores, in list order.
pub open spec fn scored(syms: Seq<SymbolView>, q: Seq<char>, filter: Option<Seq<char>>) -> Seq<
    (int, SymbolView),
>
    decreases syms.len(),
{
    if syms.len() == 0 {
        Seq::empty()
    } else {
        let rest = scored(syms.drop_last(), q, filter);
        match symbol_score(syms.last(), q, filter) {
            Some(v) => rest.push((v, syms.last())),
            None => rest,
        }
    }
}

/// Position before the first entry of `s` that scores below `v`.
pub open spec fn insert_pos(s: Seq<(int, SymbolView)>, v: int) -> int
    decreases s.len(),
{
    if s.len() == 0 {
        0
    } else if s.last().0 >= v {
        s.len() as int
    } else {
        insert_pos(s.drop_last(), v)
    }
}

/// `s` sorted by score, highest first; equal scores keep their order.
pub open spec fn by_score(s: Seq<(int, SymbolView)>) -> Seq<(int, SymbolView)>
    decreases s.len(),
{
    if s.len() == 0 {
        Seq::empty()
    } else {
        let sorted = by_score(s.drop_last());
        sorted.insert(insert_pos(sorted, s.last().0), s.last())
    }
}

pub open spec fn same_key(a: SymbolView, b: SymbolView) -> bool {
    a.name == b.name && a.kind == b.kind && a.file_path == b.file_path
}

/// The first symbol of each (name, kind, path), in order, at most `MAX_RESULTS`.
pub open spec fn distinct_top(s: Seq<(int, SymbolView)>) -> Seq<SymbolView>
    decreases s.len(),
{
    if s.len() == 0 {
        Seq::empty()
    } else {
        let kept = distinct_top(s.drop_last());
        if kept.len() >= MAX_RESULTS || exists|k: int| 0 <= k < kept.len() && same_key(#[trigger] kept[k], s.last().1) {
            kept
        } else {
            kept.push(s.last().1)
        }
    }
}

/// The result of a search of `syms` for `query`.
pub open spec fn search_spec(syms: Seq<SymbolView>, query: Seq<char>) -> Seq<SymbolView> {
    let (q, filter) = query_parts(query);
    distinct_top(by_score(scored(syms, q, filter)))
}

pub open spec fn score_views(s: Seq<(i128, IndexedSymbol)>) -> Seq<(int, SymbolView)> {
    s.map_values(|e: (i128, IndexedSymbol)| (e.0 as int, e.1@))
}

/// Start of the last ` in ` clause of the query.
fn last_clause(q: &[char]) -> (r: Option<usize>)
    ensures
        r matches Some(p) ==> last_clause_before(q@, q@.len() as int) == Some(p as int) && in_clause_at(q@, p as int),
        r is None ==> last_clause_before(q@, q@.len() as int) is None,
{
    let mut end = q.len();
    while end > 0
        invariant
            end <= q@.len(),
            last_clause_before(q@, q@.len() as int) == last_clause_before(q@, end as int),
        decreases end,
    {
        let p = end - 1;
        if q.len() - p >= 4 && q[p] == ' ' && (q[p + 1] == 'i' || q[p + 1] == 'I') && (q[p + 2] == 'n'
            || q[p + 2] == 'N') && q[p + 3] == ' ' {
            return Some(p);
        }
        end = p;
    }
    None
}

fn boost_of_kind(kind: &str) -> (r: i128)
    ensures
        r == kind_boost(kind@),
{
    if str_equal(kind, "Class") || str_equal(kind, "Interface") || str_equal(kind, "Struct") {
        150
    } else if str_equal(kind, "Function") || str_equal(kind, "Method") {
        100
    } else {
        0
    }
}

fn lower_contains(hay: &str, needle_lower: &Vec<char>) -> (r: bool)
    ensures
        r == contains(lower_of(hay@), needle_lower@),
{
    let h = lowercase(hay);
    let hc = chars_of(h.as_str());
    contains_chars(&hc, needle_lower)
}

/// The score of `sym` for the query text `q` (lower-cased: `ql`) and path filter.
pub fn score_symbol(sym: &IndexedSymbol, q: &String, ql: &Vec<char>, filter: &Option<Vec<char>>) -> (r:
    Option<i128>)
    requires
        ql@ == lower_of(q@),
    ensures
        r matches Some(v) ==> symbol_score(sym@, q@, opt_chars(*filter)) == Some(v as int),
        r is None ==> symbol_score(sym@, q@, opt_chars(*filter)) is None,
{
    let base: i128 = match filter {
        Some(f) => {
            if lower_contains(sym.file_path.as_str(), f) {
                100
            } else {
                return None;
            }
        },
        None => 0,
    };
    let qc = chars_of(q.as_str());
    let name = chars_of(sym.name.as_str());
    let m: i128 = if qc.len() < 3 {
        if str_eq(&sym.name, q) {
            1000
        } else if starts_with_chars(&name, &qc) {
            500
        } else {
            return None;
        }
    } else {
        let ns: i128 = match fuzzy_score(sym.name.as_str(), q.as_str()) {
            Some(v) => v as i128,
            None => 0,
        };
        if ns > 0 {
            if str_eq(&sym.name, q) {
                1000
            } else if str_eq(&lowercase(sym.name.as_str()), &string_of(ql.as_slice())) {
                800
            } else if starts_with_chars(&name, &qc) {
                500
            } else {
                ns
            }
        } else {
            let in_detail = match &sym.detail {
                Some(d) => lower_contains(d.as_str(), ql),
                None => false,
            };
            if in_detail {
                50
            } else if lower_contains(sym.file_path.as_str(), ql) {
                30
            } else {
                return None;
            }
        }
    };
    let parent: i128 = match &sym.parent_name {
        Some(p) => if lower_contains(p.as_str(), ql) {
            50
        } else {
            0
        },
        None => 0,
    };
    let file: i128 = if lower_contains(file_name(sym.file_path.as_str()).as_str(), ql) {
        100
    } else {
        0
    };
    Some(base + m + boost_of_kind(sym.kind.as_str()) + parent + file)
}

pub open spec fn opt_chars(o: Option<Vec<char>>) -> Option<Seq<char>> {
    match o {
        Some(v) => Some(v@),
        None => None,
    }
}

/// Where a result of score `v` goes: after every entry that scores at least `v`.
fn insert_position(sorted: &Vec<(i128, IndexedSymbol)>, v: i128) -> (r: usize)
    ensures
        r == insert_pos(score_views(sorted@), v as int),
        r <= sorted@.len(),
{
    let ghost sv = score_views(sorted@);
    let mut p = sorted.len();
    proof {
        assert(sv.subrange(0, p as int) =~= sv);
    }
    while p > 0 && sorted[p - 1].0 < v
        invariant
            p <= sorted@.len(),
            sv == score_views(sorted@),
            insert_pos(sv, v as int) == insert_pos(sv.subrange(0, p as int), v as int),
        decreases p,
    {
        proof {
            assert(sv.subrange(0, p as int).drop_last() =~= sv.subrange(0, p - 1));
        }
        p = p - 1;
    }
    p
}

/// Whether `out` already holds a symbol with the name, kind and path of `s`.
fn has_key(out: &Vec<IndexedSymbol>, s: &IndexedSymbol) -> (r: bool)
    ensures
        r == exists|k: int| 0 <= k < out@.len() && same_key(#[trigger] views(out@)[k], s@),
{
    let mut k: usize = 0;
    while k < out.len()
        invariant
            k <= out@.len(),
            forall|t: int| 0 <= t < k ==> !same_key(#[trigger] views(out@)[t], s@),
        decreases out.len() - k,
    {
        if str_eq(&out[k].name, &s.name) && str_eq(&out[k].kind, &s.kind) && str_eq(
            &out[k].file_path,
            &s.file_path,
        ) {
            assert(same_key(views(out@)[k as int], s@));
            return true;
        }
        k = k + 1;
    }
    false
}

/// The text to match and the lower-cased path filter of a query.
pub fn split_query(query: &str) -> (r: (String, Option<Vec<char>>))
    ensures
        (r.0@, opt_chars(r.1)) == query_parts(query@),
{
    let qc = chars_of(query);
    match last_clause(&qc) {
        Some(p) => {
            let a = trim_chars(&slice_chars(&qc, 0, p));
            let b = trim_chars(&slice_chars(&qc, p + 4, qc.len()));
            let bl = lowercase(string_of(&b).as_str());
            (string_of(&a), Some(chars_of(bl.as_str())))
        },
        None => (String::from_str(query), None),
    }
}

impl IndexData {
    /// Up to `MAX_RESULTS` symbols for a free-text query, best first, one per
    /// (name, kind, path). A trailing ` in <fragment>` keeps only files whose
    /// path holds the fragment.
    pub fn search(&self, query: &str) -> (r: Vec<IndexedSymbol>)
        ensures
            views(r@) == search_spec(views(self.flat_symbols@), query@),
            r@.len() <= MAX_RESULTS,
    {
        let (q, filter) = split_query(query);
        let ql = chars_of(lowercase(q.as_str()).as_str());
        let flat = &self.flat_symbols;
        let ghost fv = views(flat@);
        let ghost f = opt_chars(filter);
        let mut sorted: Vec<(i128, IndexedSymbol)> = Vec::new();
        let mut i: usize = 0;
        while i < flat.len()
            invariant
                i <= flat@.len(),
                fv == views(flat@),
                f == opt_chars(filter),
                ql@ == lower_of(q@),
                score_views(sorted@) == by_score(scored(fv.subrange(0, i as int), q@, f)),
            decreases flat.len() - i,
        {
            let ghost before = score_views(sorted@);
            proof {
                assert(fv.subrange(0, i + 1).drop_last() =~= fv.subrange(0, i as int));
                assert(fv.subrange(0, i + 1).last() == flat@[i as int]@);
            }
            match score_symbol(&flat[i], &q, &ql, &filter) {
                Some(v) => {
                    let pos = insert_position(&sorted, v);
                    sorted.insert(pos, (v, flat[i].copy()));
                    proof {
                        assert(score_views(sorted@) =~= before.insert(pos as int, (v as int, flat@[i as int]@)));
                        let prev = scored(fv.subrange(0, i as int), q@, f);
                        let x = (v as int, flat@[i as int]@);
                        assert(scored(fv.subrange(0, i + 1), q@, f) == prev.push(x));
                        assert(prev.push(x).drop_last() =~= prev);
                    }
                },
                None => {},
            }
            i = i + 1;
        }
        proof {
            assert(fv.subrange(0, i as int) =~= fv);
        }
        let ghost sv = score_views(sorted@);
        let mut out: Vec<IndexedSymbol> = Vec::new();
        let mut k: usize = 0;
        while k < sorted.len()
            invariant
                k <= sorted@.len(),
                sv == score_views(sorted@),
                views(out@) == distinct_top(sv.subrange(0, k as int)),
                out@.len() <= MAX_RESULTS,
            decreases sorted.len() - k,
        {
            proof {
                assert(sv.subrange(0, k + 1).drop_last() =~= sv.subrange(0, k as int));
                assert(sv.subrange(0, k + 1).last().1 == sorted@[k as int].1@);
            }
            if out.len() < MAX_RESULTS && !has_key(&out, &sorted[k].1) {
                let ghost before = out@;
                out.push(sorted[k].1.copy());
                proof {
                    assert(views(out@) =~= views(before).push(sorted@[k as int].1@));
                }
            }
            k = k + 1;
        }
        proof {
            assert(sv.subrange(0, k as int) =~= sv);
        }
        out
    }
}

proof fn lemma_no_clause_in_short(q: Seq<char>, end: int)
    requires
        q.len() < 4,
        end <= q.len(),
    ensures
        last_clause_before(q, end) is None,
    decreases end,
{
    if end > 0 {
        lemma_no_clause_in_short(q, end - 1);
    }
}

/// A query shorter than three characters qualifies a symbol exactly when the
/// symbol's name starts with it: there is no fuzzy matching for such queries.
pub proof fn lemma_short_query_prefix_only(s: SymbolView, query: Seq<char>)
    requires
        query.len() < 3,
    ensures
        query_parts(query) == (query, None::<Seq<char>>),
        symbol_score(s, query, None) is Some <==> starts_with(s.name, query),
{
    lemma_no_clause_in_short(query, query.len() as int);
    if s.name == query {
        assert(s.name.subrange(0, query.len() as int) =~= s.name);
    }
}

proof fn lemma_scored_members(syms: Seq<SymbolView>, q: Seq<char>, filter: Option<Seq<char>>)
    ensures
        forall|k: int|
            0 <= k < scored(syms, q, filter).len() ==> symbol_score(
                (#[trigger] scored(syms, q, filter)[k]).1,
                q,
                filter,
            ) is Some,
    decreases syms.len(),
{
    if syms.len() > 0 {
        lemma_scored_members(syms.drop_last(), q, filter);
    }
}

proof fn lemma_insert_pos(s: Seq<(int, SymbolView)>, v: int)
    ensures
        0 <= insert_pos(s, v) <= s.len(),
    decreases s.len(),
{
    if s.len() > 0 && s.last().0 < v {
        lemma_insert_pos(s.drop_last(), v);
    }
}

proof fn lemma_by_score_members(s: Seq<(int, SymbolView)>)
    ensures
        by_score(s).len() == s.len(),
        forall|k: int| 0 <= k < by_score(s).len() ==> exists|m: int| 0 <= m < s.len() && #[trigger] by_score(s)[k] == s[m],
    decreases s.len(),
{
    if s.len() > 0 {
        let rest = s.drop_last();
        lemma_by_score_members(rest);
        let sorted = by_score(rest);
        let p = insert_pos(sorted, s.last().0);
        lemma_insert_pos(sorted, s.last().0);
        assert forall|k: int| 0 <= k < by_score(s).len() implies exists|m: int| 0 <= m < s.len() && #[trigger] by_score(s)[k] == s[m] by {
            if k < p {
                assert(by_score(s)[k] == sorted[k]);
                let m = choose|m: int| 0 <= m < rest.len() && sorted[k] == rest[m];
                assert(s[m] == rest[m]);
            } else if k == p {
                assert(by_score(s)[k] == s[s.len() - 1]);
            } else {
                assert(by_score(s)[k] == sorted[k - 1]);
                let m = choose|m: int| 0 <= m < rest.len() && sorted[k - 1] == rest[m];
                assert(s[m] == rest[m]);
            }
        }
    }
}

proof fn lemma_distinct_top_members(s: Seq<(int, SymbolView)>)
    ensures
        forall|k: int| 0 <= k < distinct_top(s).len() ==> exists|m: int| 0 <= m < s.len() && #[trigger] distinct_top(s)[k] == s[m].1,
    decreases s.len(),
{
    if s.len() > 0 {
        let rest = s.drop_last();
        lemma_distinct_top_members(rest);
        let kept = distinct_top(rest);
        assert forall|k: int| 0 <= k < distinct_top(s).len() implies exists|m: int| 0 <= m < s.len() && #[trigger] distinct_top(s)[k] == s[m].1 by {
            if k < kept.len() {
                assert(distinct_top(s)[k] == kept[k]);
                let m = choose|m: int| 0 <= m < rest.len() && kept[k] == rest[m].1;
                assert(s[m] == rest[m]);
            } else {
                assert(distinct_top(s)[k] == s[s.len() - 1].1);
            }
        }
    }
}

/// Every result of a search for a query shorter than three characters has a
/// name that starts with the query: `ab` never finds `xaby`.
pub proof fn lemma_short_query_results(syms: Seq<SymbolView>, query: Seq<char>)
    requires
        query.len() < 3,
    ensures
        forall|k: int|
            0 <= k < search_spec(syms, query).len() ==> starts_with(
                (#[trigger] search_spec(syms, query)[k]).name,
                query,
            ),
{
    lemma_no_clause_in_short(query, query.len() as int);
    assert(query_parts(query) == (query, None::<Seq<char>>));
    let sc = scored(syms, query, None);
    let bs = by_score(sc);
    lemma_scored_members(syms, query, None);
    lemma_by_score_members(sc);
    lemma_distinct_top_members(bs);
    assert forall|k: int| 0 <= k < search_spec(syms, query).len() implies starts_with(
        (#[trigger] search_spec(syms, query)[k]).name,
        query,
    ) by {
        let m = choose|m: int| 0 <= m < bs.len() && distinct_top(bs)[k] == bs[m].1;
        let m2 = choose|m2: int| 0 <= m2 < sc.len() && bs[m] == sc[m2];
        assert(symbol_score(sc[m2].1, query, None) is Some);
        lemma_short_query_prefix_only(sc[m2].1, query);
    }
}

proof fn lemma_scored_covers(syms: Seq<SymbolView>, q: Seq<char>, filter: Option<Seq<char>>)
    ensures
        forall|m: int|
            0 <= m < syms.len() && symbol_score(#[trigger] syms[m], q, filter) is Some ==> exists|k: int|
                0 <= k < scored(syms, q, filter).len() && scored(syms, q, filter)[k].1 == syms[m],
    decreases syms.len(),
{
    if syms.len() > 0 {
        let rest = syms.drop_last();
        lemma_scored_covers(rest, q, filter);
        let sr = scored(rest, q, filter);
        assert forall|m: int|
            0 <= m < syms.len() && symbol_score(#[trigger] syms[m], q, filter) is Some implies exists|k: int|
                0 <= k < scored(syms, q, filter).len() && scored(syms, q, filter)[k].1 == syms[m] by {
            if m < rest.len() {
                assert(syms[m] == rest[m]);
                let k = choose|k: int| 0 <= k < sr.len() && sr[k].1 == rest[m];
                assert(scored(syms, q, filter)[k] == sr[k]);
            } else {
                assert(scored(syms, q, filter)[sr.len() as int].1 == syms[m]);
            }
        }
    }
}

proof fn lemma_by_score_covers(s: Seq<(int, SymbolView)>)
    ensures
        by_score(s).len() == s.len(),
        forall|m: int| 0 <= m < s.len() ==> exists|k: int| 0 <= k < by_score(s).len() && by_score(s)[k] == #[trigger] s[m],
    decreases s.len(),
{
    lemma_by_score_members(s);
    if s.len() > 0 {
        let rest = s.drop_last();
        lemma_by_score_covers(rest);
        let sorted = by_score(rest);
        let p = insert_pos(sorted, s.last().0);
        lemma_insert_pos(sorted, s.last().0);
        assert forall|m: int| 0 <= m < s.len() implies exists|k: int| 0 <= k < by_score(s).len() && by_score(s)[k] == #[trigger] s[m] by {
            if m < rest.len() {
                assert(s[m] == rest[m]);
                let k = choose|k: int| 0 <= k < sorted.len() && sorted[k] == rest[m];
                if k < p {
                    assert(by_score(s)[k] == sorted[k]);
                } else {
                    assert(by_score(s)[k + 1] == sorted[k]);
                }
            } else {
                assert(by_score(s)[p] == s[m]);
            }
        }
    }
}

proof fn lemma_distinct_top_covers(s: Seq<(int, SymbolView)>)
    ensures
        distinct_top(s.drop_last()).len() <= distinct_top(s).len() || s.len() == 0,
        distinct_top(s).len() < MAX_RESULTS ==> forall|m: int|
            0 <= m < s.len() ==> exists|k: int|
                0 <= k < distinct_top(s).len() && same_key(distinct_top(s)[k], (#[trigger] s[m]).1),
    decreases s.len(),
{
    if s.len() > 0 {
        let rest = s.drop_last();
        lemma_distinct_top_covers(rest);
        let kept = distinct_top(rest);
        if distinct_top(s).len() < MAX_RESULTS {
            assert forall|m: int| 0 <= m < s.len() implies exists|k: int|
                0 <= k < distinct_top(s).len() && same_key(distinct_top(s)[k], (#[trigger] s[m]).1) by {
                if m < rest.len() {
                    assert(s[m] == rest[m]);
                    let k = choose|k: int| 0 <= k < kept.len() && same_key(kept[k], rest[m].1);
                    assert(distinct_top(s)[k] == kept[k]);
                } else if exists|k: int| 0 <= k < kept.len() && same_key(#[trigger] kept[k], s.last().1) {
                    let k = choose|k: int| 0 <= k < kept.len() && same_key(#[trigger] kept[k], s.last().1);
                    assert(distinct_top(s)[k] == kept[k]);
                } else {
                    assert(distinct_top(s)[kept.len() as int] == s.last().1);
                }
            }
        }
    }
}

/// A search whose results do not fill `MAX_RESULTS` shows every qualifying
/// symbol, or one with its name, kind and path: with fewer than fifty matches,
/// `ab` finds `abc`.
pub proof fn lemma_qualifying_symbols_found(syms: Seq<SymbolView>, query: Seq<char>, i: int)
    requires
        0 <= i < syms.len(),
        symbol_score(syms[i], query_parts(query).0, query_parts(query).1) is Some,
        search_spec(syms, query).len() < MAX_RESULTS,
    ensures
        exists|k: int| 0 <= k < search_spec(syms, query).len() && same_key(search_spec(syms, query)[k], syms[i]),
{
    let q = query_parts(query).0;
    let f = query_parts(query).1;
    let sc = scored(syms, q, f);
    let bs = by_score(sc);
    lemma_scored_covers(syms, q, f);
    let k1 = choose|k: int| 0 <= k < sc.len() && sc[k].1 == syms[i];
    lemma_by_score_covers(sc);
    let k2 = choose|k: int| 0 <= k < bs.len() && bs[k] == sc[k1];
    lemma_distinct_top_covers(bs);
    assert(search_spec(syms, query) == distinct_top(bs));
    let k3 = choose|k: int| 0 <= k < distinct_top(bs).len() && same_key(distinct_top(bs)[k], bs[k2].1);
}

} // verus!
