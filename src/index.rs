//! The symbol index: per-file symbol lists kept fresh by a staleness
//! fingerprint, and the flattened list that search walks.
use vstd::prelude::*;
use crate::text::{str_eq, str_equal, lowercase, lower_of};

verus! {

/// A symbol as the outline extractor reports it, with its nested symbols.
pub struct OutlineSymbol {
    pub name: String,
    pub kind: String,
    pub detail: Option<String>,
    pub start_line: u32,
    pub end_line: u32,
    pub children: Option<Vec<OutlineSymbol>>,
}

/// A symbol of the index. `parent_name` names the enclosing symbol, for display only.
#[derive(Clone, Debug)]
pub struct IndexedSymbol {
    pub name: String,
    pub parent_name: Option<String>,
    pub kind: String,
    pub detail: Option<String>,
    pub file_path: String,
    pub start_line: u32,
    pub end_line: u32,
}

/// The staleness fingerprint of a file.
#[derive(PartialEq, Eq, Structural, Clone, Copy, Debug)]
pub struct FileMetadata {
    pub last_modified: u64,
    pub size: u64,
}

/// A file found by a workspace walk, with its current fingerprint.
#[derive(Clone, Debug)]
pub struct ScannedFile {
    pub path: String,
    pub metadata: FileMetadata,
}

/// What the index holds for one file.
pub struct FileEntry {
    pub path: String,
    pub metadata: FileMetadata,
    pub symbols: Vec<IndexedSymbol>,
    pub outline: Vec<OutlineSymbol>,
}

/// The whole index, in the order of the last walk.
pub struct IndexData {
    pub files: Vec<FileEntry>,
    pub flat_symbols: Vec<IndexedSymbol>,
}

pub ghost struct SymbolView {
    pub name: Seq<char>,
    pub parent_name: Option<Seq<char>>,
    pub kind: Seq<char>,
    pub detail: Option<Seq<char>>,
    pub file_path: Seq<char>,
    pub start_line: u32,
    pub end_line: u32,
}

pub open spec fn opt_view(o: Option<String>) -> Option<Seq<char>> {
    match o {
        Some(s) => Some(s@),
        None => None,
    }
}

impl View for IndexedSymbol {
    type V = SymbolView;

    open spec fn view(&self) -> SymbolView {
        SymbolView {
            name: self.name@,
            parent_name: opt_view(self.parent_name),
            kind: self.kind@,
            detail: opt_view(self.detail),
            file_path: self.file_path@,
            start_line: self.start_line,
            end_line: self.end_line,
        }
    }
}

/// The symbols of an outline in pre-order: each symbol, then its nested
/// symbols with its name as parent, then the symbols after it.
pub open spec fn flatten_spec(
    syms: Seq<OutlineSymbol>,
    path: Seq<char>,
    parent: Option<Seq<char>>,
) -> Seq<SymbolView>
    decreases syms,
{
    if syms.len() == 0 {
        Seq::empty()
    } else {
        let s = syms[0];
        let head = SymbolView {
            name: s.name@,
            parent_name: parent,
            kind: s.kind@,
            detail: opt_view(s.detail),
            file_path: path,
            start_line: s.start_line,
            end_line: s.end_line,
        };
        let nested = match s.children {
            Some(c) => flatten_spec(c@, path, Some(s.name@)),
            None => Seq::empty(),
        };
        seq![head] + nested + flatten_spec(syms.drop_first(), path, parent)
    }
}

pub open spec fn views(s: Seq<IndexedSymbol>) -> Seq<SymbolView> {
    s.map_values(|x: IndexedSymbol| x@)
}

fn clone_opt(o: &Option<String>) -> (r: Option<String>)
    ensures
        r == *o,
{
    match o {
        Some(s) => Some(s.clone()),
        None => None,
    }
}

impl IndexedSymbol {
    /// A copy of the symbol.
    pub fn copy(&self) -> (r: IndexedSymbol)
        ensures
            r == *self,
    {
        IndexedSymbol {
            name: self.name.clone(),
            parent_name: clone_opt(&self.parent_name),
            kind: self.kind.clone(),
            detail: clone_opt(&self.detail),
            file_path: self.file_path.clone(),
            start_line: self.start_line,
            end_line: self.end_line,
        }
    }
}

/// Appends the flattened symbols of `syms` for the file `path` to `out`.
pub fn flatten_symbols(
    syms: &Vec<OutlineSymbol>,
    path: &String,
    parent: &Option<String>,
    out: &mut Vec<IndexedSymbol>,
)
    ensures
        views(final(out)@) == views(old(out)@) + flatten_spec(syms@, path@, opt_view(*parent)),
    decreases syms@,
{
    let n = syms.len();
    let mut i: usize = 0;
    proof {
        assert(syms@.subrange(0, n as int) =~= syms@);
        assert(views(out@) =~= views(old(out)@) + Seq::empty());
    }
    while i < n
        invariant
            n == syms@.len(),
            i <= n,
            views(out@) + flatten_spec(syms@.subrange(i as int, n as int), path@, opt_view(*parent))
                == views(old(out)@) + flatten_spec(syms@, path@, opt_view(*parent)),
        decreases n - i,
    {
        let ghost rest = syms@.subrange(i as int, n as int);
        let ghost before = out@;
        proof {
            assert(rest[0] == syms@[i as int]);
            assert(rest.drop_first() =~= syms@.subrange(i + 1, n as int));
        }
        let s = &syms[i];
        out.push(
            IndexedSymbol {
                name: s.name.clone(),
                parent_name: clone_opt(parent),
                kind: s.kind.clone(),
                detail: clone_opt(&s.detail),
                file_path: path.clone(),
                start_line: s.start_line,
                end_line: s.end_line,
            },
        );
        let ghost mid = out@;
        proof {
            assert(views(mid) =~= views(before).push(mid.last()@));
        }
        match &s.children {
            Some(c) => {
                proof {
                    assert(decreases_to!(syms@ => syms@[i as int]));
                    assert(decreases_to!(syms@[i as int] => syms@[i as int].children));
                    assert(decreases_to!(syms@[i as int].children => syms@[i as int].children->0));
                    assert(decreases_to!(*c => c@));
                }
                flatten_symbols(c, path, &Some(s.name.clone()), out);
            },
            None => {},
        }
        proof {
            let sv = syms@[i as int];
            let nested = match sv.children {
                Some(c) => flatten_spec(c@, path@, Some(sv.name@)),
                None => Seq::<SymbolView>::empty(),
            };
            assert(views(out@) =~= views(before) + seq![mid.last()@] + nested);
            assert(flatten_spec(rest, path@, opt_view(*parent)) =~= seq![mid.last()@] + nested
                + flatten_spec(rest.drop_first(), path@, opt_view(*parent)));
        }
        i = i + 1;
    }
}

/// Position of the first entry for `path` at or after `j`.
pub open spec fn find_from(files: Seq<FileEntry>, path: Seq<char>, j: int) -> Option<int>
    decreases files.len() - j,
{
    if j < 0 || j >= files.len() {
        None
    } else if files[j].path@ == path {
        Some(j)
    } else {
        find_from(files, path, j + 1)
    }
}

/// Position of the entry for `path`.
pub open spec fn find_entry(files: Seq<FileEntry>, path: Seq<char>) -> Option<int> {
    find_from(files, path, 0)
}

/// A scanned file must be read again: it is new, or its fingerprint changed.
pub open spec fn is_stale(files: Seq<FileEntry>, f: ScannedFile) -> bool {
    match find_entry(files, f.path@) {
        Some(j) => files[j].metadata != f.metadata,
        None => true,
    }
}

/// The symbol lists of all files, one after the other.
pub open spec fn concat_symbols(files: Seq<FileEntry>) -> Seq<IndexedSymbol>
    decreases files.len(),
{
    if files.len() == 0 {
        Seq::empty()
    } else {
        concat_symbols(files.drop_last()) + files.last().symbols@
    }
}

/// No two files share a path.
pub open spec fn distinct_paths(paths: Seq<Seq<char>>) -> bool {
    forall|a: int, b: int| 0 <= a < b < paths.len() ==> paths[a] != paths[b]
}

pub open spec fn entry_paths(files: Seq<FileEntry>) -> Seq<Seq<char>> {
    files.map_values(|e: FileEntry| e.path@)
}

pub open spec fn scan_paths(scans: Seq<(ScannedFile, Option<Vec<OutlineSymbol>>)>) -> Seq<Seq<char>> {
    scans.map_values(|x: (ScannedFile, Option<Vec<OutlineSymbol>>)| x.0.path@)
}

proof fn lemma_find_from(files: Seq<FileEntry>, path: Seq<char>, j: int)
    requires
        0 <= j <= files.len(),
    ensures
        find_from(files, path, j) matches Some(k) ==> j <= k < files.len() && files[k].path@ == path
            && forall|t: int| j <= t < k ==> files[t].path@ != path,
        find_from(files, path, j) is None ==> forall|t: int| j <= t < files.len() ==> files[t].path@ != path,
    decreases files.len() - j,
{
    if j < files.len() && files[j].path@ != path {
        lemma_find_from(files, path, j + 1);
    }
}

/// Moves the items of `v` into `Some` slots, in order.
pub fn into_slots<T>(v: Vec<T>) -> (r: Vec<Option<T>>)
    ensures
        r@.len() == v@.len(),
        forall|t: int| 0 <= t < v@.len() ==> r@[t] == Some(v@[t]),
{
    let ghost orig = v@;
    let n = v.len();
    let mut v = v;
    let mut rev: Vec<T> = Vec::new();
    while v.len() > 0
        invariant
            n == orig.len(),
            v@ == orig.subrange(0, v@.len() as int),
            rev@.len() + v@.len() == n,
            forall|t: int| 0 <= t < rev@.len() ==> rev@[t] == orig[n - 1 - t],
        decreases v@.len(),
    {
        let x = v.pop().unwrap();
        rev.push(x);
    }
    let mut out: Vec<Option<T>> = Vec::new();
    while rev.len() > 0
        invariant
            n == orig.len(),
            out@.len() + rev@.len() == n,
            forall|t: int| 0 <= t < rev@.len() ==> rev@[t] == orig[n - 1 - t],
            forall|t: int| 0 <= t < out@.len() ==> out@[t] == Some(orig[t]),
        decreases rev@.len(),
    {
        let x = rev.pop().unwrap();
        out.push(Some(x));
    }
    out
}

impl IndexData {
    /// An empty index.
    pub fn new() -> (r: IndexData)
        ensures
            r.files@.len() == 0,
            r.flat_symbols@.len() == 0,
            r.wf(),
    {
        IndexData { files: Vec::new(), flat_symbols: Vec::new() }
    }

    /// Paths are distinct and the flat list is the concatenation of the per-file lists.
    pub open spec fn wf(&self) -> bool {
        distinct_paths(entry_paths(self.files@)) && self.flat_symbols@ == concat_symbols(self.files@)
    }

    /// Position of the entry for `path`.
    pub fn find(&self, path: &String) -> (r: Option<usize>)
        ensures
            r matches Some(j) ==> find_entry(self.files@, path@) == Some(j as int) && j < self.files@.len(),
            r is None ==> find_entry(self.files@, path@) is None,
    {
        let mut j: usize = 0;
        while j < self.files.len()
            invariant
                j <= self.files@.len(),
                find_from(self.files@, path@, 0) == find_from(self.files@, path@, j as int),
            decreases self.files.len() - j,
        {
            if str_eq(&self.files[j].path, path) {
                return Some(j);
            }
            j = j + 1;
        }
        None
    }

    /// Whether the file must be read again.
    pub fn needs_reindex(&self, f: &ScannedFile) -> (r: bool)
        ensures
            r == is_stale(self.files@, *f),
    {
        match self.find(&f.path) {
            Some(j) => self.files[j].metadata != f.metadata,
            None => true,
        }
    }

    /// For each scanned file, whether it must be read again.
    pub fn stale_files(&self, scanned: &Vec<ScannedFile>) -> (r: Vec<bool>)
        ensures
            r@.len() == scanned@.len(),
            forall|i: int| 0 <= i < scanned@.len() ==> r@[i] == is_stale(self.files@, #[trigger] scanned@[i]),
    {
        let mut r: Vec<bool> = Vec::new();
        let mut i: usize = 0;
        while i < scanned.len()
            invariant
                i <= scanned@.len(),
                r@.len() == i,
                forall|t: int| 0 <= t < i ==> r@[t] == is_stale(self.files@, #[trigger] scanned@[t]),
            decreases scanned.len() - i,
        {
            r.push(self.needs_reindex(&scanned[i]));
            i = i + 1;
        }
        r
    }
}

/// The concatenation of the symbol lists of `files`.
pub fn flat_list(files: &Vec<FileEntry>) -> (r: Vec<IndexedSymbol>)
    ensures
        r@ == concat_symbols(files@),
{
    let mut out: Vec<IndexedSymbol> = Vec::new();
    let mut i: usize = 0;
    while i < files.len()
        invariant
            i <= files@.len(),
            out@ == concat_symbols(files@.subrange(0, i as int)),
        decreases files.len() - i,
    {
        let ghost before = out@;
        let syms = &files[i].symbols;
        let mut k: usize = 0;
        while k < syms.len()
            invariant
                k <= syms@.len(),
                out@ == before + syms@.subrange(0, k as int),
            decreases syms.len() - k,
        {
            out.push(syms[k].copy());
            proof {
                assert(out@ =~= before + syms@.subrange(0, k + 1));
            }
            k = k + 1;
        }
        proof {
            assert(files@.subrange(0, i + 1).drop_last() =~= files@.subrange(0, i as int));
            assert(syms@.subrange(0, k as int) =~= syms@);
        }
        i = i + 1;
    }
    proof {
        assert(files@.subrange(0, i as int) =~= files@);
    }
    out
}

/// The entry that a refresh makes for one scanned file: read anew where an
/// outline was extracted, else the previous symbols and outline of that path,
/// else nothing.
pub open spec fn entry_after(
    old: Seq<FileEntry>,
    scan: (ScannedFile, Option<Vec<OutlineSymbol>>),
    e: FileEntry,
) -> bool {
    &&& e.path == scan.0.path
    &&& e.metadata == scan.0.metadata
    &&& match scan.1 {
        Some(o) => views(e.symbols@) == flatten_spec(o@, scan.0.path@, None) && e.outline == o,
        None => match find_entry(old, scan.0.path@) {
            Some(j) => e.symbols == old[j].symbols && e.outline == old[j].outline,
            None => e.symbols@.len() == 0 && e.outline@.len() == 0,
        },
    }
}

/// `r` is the index that a refresh of `old` with `scans` gives.
pub open spec fn refreshed(
    old: Seq<FileEntry>,
    scans: Seq<(ScannedFile, Option<Vec<OutlineSymbol>>)>,
    r: IndexData,
) -> bool {
    &&& r.files@.len() == scans.len()
    &&& forall|i: int| 0 <= i < scans.len() ==> (#[trigger] r.files@[i]).path == scans[i].0.path
        && r.files@[i].metadata == scans[i].0.metadata
    &&& distinct_paths(scan_paths(scans)) ==> forall|i: int|
        0 <= i < scans.len() ==> entry_after(old, scans[i], #[trigger] r.files@[i])
    &&& r.flat_symbols@ == concat_symbols(r.files@)
}

/// First slot holding an entry for `path`.
fn find_slot(slots: &Vec<Option<FileEntry>>, path: &String) -> (r: Option<usize>)
    ensures
        r matches Some(k) ==> k < slots@.len() && slots@[k as int] is Some
            && slots@[k as int]->0.path@ == path@ && forall|t: int|
            0 <= t < k ==> (slots@[t] is None || slots@[t]->0.path@ != path@),
        r is None ==> forall|t: int|
            0 <= t < slots@.len() ==> (slots@[t] is None || slots@[t]->0.path@ != path@),
{
    let mut k: usize = 0;
    while k < slots.len()
        invariant
            k <= slots@.len(),
            forall|t: int| 0 <= t < k ==> (slots@[t] is None || slots@[t]->0.path@ != path@),
        decreases slots.len() - k,
    {
        match &slots[k] {
            Some(e) => {
                if str_eq(&e.path, path) {
                    return Some(k);
                }
            },
            None => {},
        }
        k = k + 1;
    }
    None
}

impl IndexData {
    /// The index after a walk that found `scans`, in walk order, each with the
    /// outline extracted for it where it was read again. Files absent from the
    /// walk are dropped.
    pub fn refresh(self, scans: Vec<(ScannedFile, Option<Vec<OutlineSymbol>>)>) -> (r: IndexData)
        ensures
            refreshed(self.files@, scans@, r),
            distinct_paths(scan_paths(scans@)) ==> r.wf(),
    {
        let ghost orig = self.files@;
        let ghost sc = scans@;
        let ghost distinct = distinct_paths(scan_paths(sc));
        let n = scans.len();
        let mut slots = into_slots(self.files);
        let mut items = into_slots(scans);
        let mut out: Vec<FileEntry> = Vec::new();
        let mut i: usize = 0;
        while i < n
            invariant
                n == sc.len(),
                items@.len() == n,
                slots@.len() == orig.len(),
                i <= n,
                out@.len() == i,
                distinct == distinct_paths(scan_paths(sc)),
                forall|t: int| i <= t < n ==> items@[t] == Some(sc[t]),
                forall|t: int|
                    0 <= t < orig.len() ==> (slots@[t] is Some ==> slots@[t] == Some(orig[t])),
                forall|t: int|
                    0 <= t < orig.len() ==> (slots@[t] is None ==> exists|i2: int|
                        0 <= i2 < i && #[trigger] sc[i2].0.path@ == orig[t].path@),
                forall|t: int| 0 <= t < i ==> (#[trigger] out@[t]).path == sc[t].0.path
                    && out@[t].metadata == sc[t].0.metadata,
                distinct ==> forall|t: int| 0 <= t < i ==> entry_after(orig, sc[t], #[trigger] out@[t]),
            decreases n - i,
        {
            let ghost slots_before = slots@;
            let item = items[i].take();
            let (f, fresh) = item.unwrap();
            let entry = match fresh {
                Some(o) => {
                    let mut syms: Vec<IndexedSymbol> = Vec::new();
                    flatten_symbols(&o, &f.path, &None, &mut syms);
                    proof {
                        assert(views(syms@) =~= Seq::<SymbolView>::empty() + flatten_spec(o@, f.path@, None));
                    }
                    FileEntry { path: f.path, metadata: f.metadata, symbols: syms, outline: o }
                },
                None => {
                    let found = find_slot(&slots, &f.path);
                    proof {
                        lemma_find_from(orig, f.path@, 0);
                        if distinct {
                            assert forall|t: int| 0 <= t < orig.len() && orig[t].path@ == f.path@
                                implies slots@[t] is Some by {
                                if slots@[t] is None {
                                    let i2 = choose|i2: int|
                                        0 <= i2 < i && #[trigger] sc[i2].0.path@ == orig[t].path@;
                                    assert(scan_paths(sc)[i2] == scan_paths(sc)[i as int]);
                                }
                            }
                        }
                    }
                    match found {
                        Some(k) => {
                            let taken = slots[k].take();
                            let e = taken.unwrap();
                            proof {
                                if distinct {
                                    assert(slots_before[k as int] == Some(orig[k as int]));
                                    assert(orig[k as int].path@ == f.path@);
                                    match find_entry(orig, f.path@) {
                                        Some(m) => {
                                            if m < k {
                                                assert(slots_before[m] is Some);
                                            }
                                            assert(m == k);
                                        },
                                        None => {
                                            assert(false);
                                        },
                                    }
                                    assert(find_entry(orig, f.path@) == Some(k as int));
                                }
                            }
                            FileEntry {
                                path: f.path,
                                metadata: f.metadata,
                                symbols: e.symbols,
                                outline: e.outline,
                            }
                        },
                        None => {
                            proof {
                                if distinct {
                                    match find_entry(orig, f.path@) {
                                        Some(m) => {
                                            assert(slots_before[m] is Some);
                                        },
                                        None => {},
                                    }
                                }
                            }
                            FileEntry {
                                path: f.path,
                                metadata: f.metadata,
                                symbols: Vec::new(),
                                outline: Vec::new(),
                            }
                        },
                    }
                },
            };
            out.push(entry);
            proof {
                assert forall|t: int|
                    0 <= t < orig.len() && slots@[t] is None implies exists|i2: int|
                    0 <= i2 < i + 1 && #[trigger] sc[i2].0.path@ == orig[t].path@ by {
                    if slots_before[t] is None {
                        let i2 = choose|i2: int| 0 <= i2 < i && #[trigger] sc[i2].0.path@ == orig[t].path@;
                        assert(sc[i2].0.path@ == orig[t].path@);
                    } else {
                        assert(sc[i as int].0.path@ == orig[t].path@);
                    }
                }
            }
            i = i + 1;
        }
        let flat = flat_list(&out);
        proof {
            if distinct {
                assert(entry_paths(out@) =~= scan_paths(sc));
            }
        }
        IndexData { files: out, flat_symbols: flat }
    }
}

proof fn lemma_find_distinct(files: Seq<FileEntry>, i: int)
    requires
        distinct_paths(entry_paths(files)),
        0 <= i < files.len(),
    ensures
        find_entry(files, files[i].path@) == Some(i),
{
    lemma_find_from(files, files[i].path@, 0);
    match find_entry(files, files[i].path@) {
        Some(k) => {
            if k != i {
                assert(entry_paths(files)[k] == entry_paths(files)[i]);
            }
        },
        None => {},
    }
}

/// The walk found exactly the indexed files, in index order, and nothing was read again.
pub open spec fn unchanged_scan(files: Seq<FileEntry>, scans: Seq<(ScannedFile, Option<Vec<OutlineSymbol>>)>) -> bool {
    &&& scans.len() == files.len()
    &&& forall|i: int| 0 <= i < files.len() ==> (#[trigger] scans[i]).0.path == files[i].path
        && scans[i].0.metadata == files[i].metadata && scans[i].1 is None
}

/// Re-indexing a workspace in which no file changed leaves every entry and
/// the flat symbol list, order included, as they were; no file is stale.
pub proof fn lemma_reindex_idempotent(
    d: IndexData,
    scans: Seq<(ScannedFile, Option<Vec<OutlineSymbol>>)>,
    r: IndexData,
)
    requires
        d.wf(),
        unchanged_scan(d.files@, scans),
        refreshed(d.files@, scans, r),
    ensures
        r.files@ == d.files@,
        r.flat_symbols@ == d.flat_symbols@,
        forall|i: int| 0 <= i < scans.len() ==> !is_stale(d.files@, #[trigger] scans[i].0),
{
    assert(scan_paths(scans) =~= entry_paths(d.files@));
    assert forall|i: int| 0 <= i < scans.len() implies !is_stale(d.files@, #[trigger] scans[i].0) && r.files@[i]
        == d.files@[i] by {
        lemma_find_distinct(d.files@, i);
        assert(entry_after(d.files@, scans[i], r.files@[i]));
    }
    assert(r.files@ =~= d.files@);
}

/// The walk found the indexed files in index order; only the file at `k` has
/// a new fingerprint, and only it was read again.
pub open spec fn one_touched(
    files: Seq<FileEntry>,
    scans: Seq<(ScannedFile, Option<Vec<OutlineSymbol>>)>,
    k: int,
) -> bool {
    &&& scans.len() == files.len()
    &&& 0 <= k < files.len()
    &&& scans[k].0.path == files[k].path
    &&& scans[k].0.metadata != files[k].metadata
    &&& forall|i: int| 0 <= i < files.len() && i != k ==> (#[trigger] scans[i]).0.path == files[i].path
        && scans[i].0.metadata == files[i].metadata && scans[i].1 is None
}

/// Changing one file's modification time or size makes exactly that file
/// stale, and a refresh keeps every other entry unchanged.
pub proof fn lemma_touch_one_file(
    d: IndexData,
    scans: Seq<(ScannedFile, Option<Vec<OutlineSymbol>>)>,
    k: int,
    r: IndexData,
)
    requires
        d.wf(),
        one_touched(d.files@, scans, k),
        refreshed(d.files@, scans, r),
    ensures
        forall|i: int| 0 <= i < scans.len() ==> (is_stale(d.files@, #[trigger] scans[i].0) <==> i == k),
        forall|i: int| 0 <= i < scans.len() && i != k ==> #[trigger] r.files@[i] == d.files@[i],
        r.files@[k].path == d.files@[k].path,
        r.files@[k].metadata == scans[k].0.metadata,
{
    assert(scan_paths(scans) =~= entry_paths(d.files@));
    assert forall|i: int| 0 <= i < scans.len() implies (is_stale(d.files@, #[trigger] scans[i].0) <==> i == k) by {
        lemma_find_distinct(d.files@, i);
    }
    assert forall|i: int| 0 <= i < scans.len() && i != k implies #[trigger] r.files@[i] == d.files@[i] by {
        lemma_find_distinct(d.files@, i);
        assert(entry_after(d.files@, scans[i], r.files@[i]));
    }
}

/// File extensions (lower case) of the source and text files the index reads.
pub open spec fn indexed_extension(ext: Seq<char>) -> bool {
    ext == "ts"@ || ext == "tsx"@ || ext == "js"@ || ext == "jsx"@ || ext == "mjs"@ || ext == "cjs"@
        || ext == "mts"@ || ext == "cts"@ || ext == "rs"@ || ext == "py"@ || ext == "go"@ || ext
        == "c"@ || ext == "cpp"@ || ext == "h"@ || ext == "hpp"@ || ext == "cs"@ || ext == "java"@
        || ext == "md"@ || ext == "json"@ || ext == "yml"@ || ext == "yaml"@ || ext == "toml"@ || ext
        == "sh"@ || ext == "sql"@
}

/// Whether a file with this extension is indexed; the extension is compared
/// in lower case.
pub fn is_indexed_extension(ext: &str) -> (r: bool)
    ensures
        r == indexed_extension(lower_of(ext@)),
{
    let l = lowercase(ext);
    let e = l.as_str();
    str_equal(e, "ts") || str_equal(e, "tsx") || str_equal(e, "js") || str_equal(e, "jsx")
        || str_equal(e, "mjs") || str_equal(e, "cjs") || str_equal(e, "mts") || str_equal(e, "cts")
        || str_equal(e, "rs") || str_equal(e, "py") || str_equal(e, "go") || str_equal(e, "c")
        || str_equal(e, "cpp") || str_equal(e, "h") || str_equal(e, "hpp") || str_equal(e, "cs")
        || str_equal(e, "java") || str_equal(e, "md") || str_equal(e, "json") || str_equal(e, "yml")
        || str_equal(e, "yaml") || str_equal(e, "toml") || str_equal(e, "sh") || str_equal(e, "sql")
}

} // verus!
