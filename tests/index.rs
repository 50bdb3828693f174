use agent_core::index::{FileMetadata, IndexData, IndexedSymbol, OutlineSymbol, ScannedFile};

fn outline(name: &str, kind: &str, children: Vec<OutlineSymbol>) -> OutlineSymbol {
    OutlineSymbol {
        name: name.to_string(),
        kind: kind.to_string(),
        detail: None,
        start_line: 1,
        end_line: 9,
        children: if children.is_empty() { None } else { Some(children) },
    }
}

fn scan(path: &str, mtime: u64, size: u64) -> ScannedFile {
    ScannedFile { path: path.to_string(), metadata: FileMetadata { last_modified: mtime, size } }
}

fn names(syms: &[IndexedSymbol]) -> Vec<String> {
    syms.iter().map(|s| s.name.clone()).collect()
}

fn two_file_index() -> IndexData {
    let scans = vec![
        (scan("src/a.rs", 1, 10), Some(vec![outline("Store", "Struct", vec![outline("save", "Method", vec![])])])),
        (scan("src/b.rs", 2, 20), Some(vec![outline("load", "Function", vec![])])),
    ];
    IndexData::new().refresh(scans)
}

#[test]
fn refresh_flattens_outlines_with_parent_names() {
    let index = two_file_index();
    assert_eq!(index.files.len(), 2);
    assert_eq!(names(&index.flat_symbols), vec!["Store", "save", "load"]);
    assert_eq!(index.flat_symbols[1].parent_name, Some("Store".to_string()));
    assert_eq!(index.flat_symbols[0].parent_name, None);
    assert_eq!(index.flat_symbols[2].file_path, "src/b.rs");
}

#[test]
fn reindex_without_changes_is_identical() {
    let index = two_file_index();
    let before = names(&index.flat_symbols);
    let scanned = vec![scan("src/a.rs", 1, 10), scan("src/b.rs", 2, 20)];
    assert_eq!(index.stale_files(&scanned), vec![false, false]);
    let again = index.refresh(scanned.into_iter().map(|s| (s, None)).collect());
    assert_eq!(names(&again.flat_symbols), before);
    assert_eq!(again.files[0].symbols.len(), 2);
    assert_eq!(again.files[1].metadata, FileMetadata { last_modified: 2, size: 20 });
}

#[test]
fn touching_one_file_reindexes_only_it() {
    let index = two_file_index();
    let scanned = vec![scan("src/a.rs", 1, 10), scan("src/b.rs", 3, 20)];
    assert_eq!(index.stale_files(&scanned), vec![false, true]);
    let scanned_size = vec![scan("src/a.rs", 1, 11), scan("src/b.rs", 2, 20)];
    assert_eq!(index.stale_files(&scanned_size), vec![true, false]);
    let mut inputs: Vec<(ScannedFile, Option<Vec<OutlineSymbol>>)> = Vec::new();
    inputs.push((scan("src/a.rs", 1, 10), None));
    inputs.push((scan("src/b.rs", 3, 20), Some(vec![outline("reload", "Function", vec![])])));
    let next = index.refresh(inputs);
    assert_eq!(names(&next.flat_symbols), vec!["Store", "save", "reload"]);
}

#[test]
fn vanished_files_are_dropped_and_new_ones_read() {
    let index = two_file_index();
    let scanned = vec![scan("src/b.rs", 2, 20), scan("src/c.rs", 5, 50)];
    assert_eq!(index.stale_files(&scanned), vec![false, true]);
    let next = index.refresh(vec![
        (scan("src/b.rs", 2, 20), None),
        (scan("src/c.rs", 5, 50), Some(vec![outline("Config", "Class", vec![])])),
    ]);
    assert_eq!(next.files.len(), 2);
    assert_eq!(names(&next.flat_symbols), vec!["load", "Config"]);
}

fn symbol(name: &str, kind: &str, path: &str) -> IndexedSymbol {
    IndexedSymbol {
        name: name.to_string(),
        parent_name: None,
        kind: kind.to_string(),
        detail: None,
        file_path: path.to_string(),
        start_line: 1,
        end_line: 2,
    }
}

fn index_of(symbols: Vec<IndexedSymbol>) -> IndexData {
    IndexData { files: Vec::new(), flat_symbols: symbols }
}

#[test]
fn exact_then_prefix_then_fuzzy() {
    let index = index_of(vec![
        symbol("autosave", "Variable", "src/x.rs"),
        symbol("saveFile", "Variable", "src/y.rs"),
        symbol("save", "Variable", "src/z.rs"),
    ]);
    let found = index.search("save");
    assert_eq!(names(&found), vec!["save", "saveFile", "autosave"]);
}

#[test]
fn short_queries_match_by_prefix_only() {
    let index = index_of(vec![symbol("xaby", "Function", "src/x.rs"), symbol("abc", "Function", "src/y.rs")]);
    let found = index.search("ab");
    assert_eq!(names(&found), vec!["abc"]);
}

#[test]
fn path_clause_filters_files() {
    let index = index_of(vec![
        symbol("login", "Function", "src/store/auth.rs"),
        symbol("login", "Function", "src/ui/form.rs"),
    ]);
    let found = index.search("login in STORE");
    assert_eq!(found.len(), 1);
    assert_eq!(found[0].file_path, "src/store/auth.rs");
}

#[test]
fn kind_and_file_name_boosts_reorder() {
    let index = index_of(vec![
        symbol("parser", "Variable", "src/a.rs"),
        symbol("parser", "Class", "src/b.rs"),
        symbol("parser", "Variable", "src/parser.rs"),
    ]);
    let found = index.search("parser");
    // Class: 1000 + 150; file named after the query: 1000 + 100; plain: 1000.
    assert_eq!(found[0].file_path, "src/b.rs");
    assert_eq!(found[1].file_path, "src/parser.rs");
    assert_eq!(found[2].file_path, "src/a.rs");
}

#[test]
fn duplicates_are_removed_and_results_capped() {
    let mut symbols = Vec::new();
    for i in 0..60 {
        symbols.push(symbol(&format!("item{}", i), "Function", "src/list.rs"));
    }
    symbols.push(symbol("item1", "Function", "src/list.rs"));
    let found = index_of(symbols).search("item");
    assert_eq!(found.len(), 50);
    let ones = found.iter().filter(|s| s.name == "item1").count();
    assert_eq!(ones, 1);
}

#[test]
fn detail_and_path_matches_qualify() {
    let mut with_detail = symbol("run", "Method", "src/a.rs");
    with_detail.detail = Some("Handles Authentication".to_string());
    let index = index_of(vec![with_detail, symbol("main", "Function", "src/auth/mod.rs")]);
    let found = index.search("authentication");
    assert_eq!(names(&found), vec!["run"]);
    let by_path = index.search("auth/mod");
    assert_eq!(names(&by_path), vec!["main"]);
}
