//! Tests of the resolver's traversal: deduplication and file identity.

use sulk::{Args, ColorChoice, DiagCtxt, FileStore, Language, Resolver, Session, SourceMap};

fn fresh_session() -> Session {
    Session {
        dcx: DiagCtxt::new(),
        source_map: SourceMap::new(),
        args: Args {
            language: Language::Solidity,
            import_map: Vec::new(),
            import_path: Vec::new(),
            input: Vec::new(),
            color: ColorChoice::Auto,
            allow_yul: false,
        },
    }
}

#[test]
fn dedup_cyclic_imports_visit_each_file_once() {
    let mut store = FileStore::new();
    store.add_file("a.sol", "import \"b.sol\";");
    store.add_file("b.sol", "import \"a.sol\";");
    let mut sess = fresh_session();
    let mut resolver = Resolver::new();
    let paths = vec!["a.sol".to_string()];
    resolver.parse_and_resolve(&mut sess, &store, false, false, &paths);
    // the cycle terminates, each of the two files is visited exactly once
    let visited = resolver.visited_files();
    assert_eq!(visited.len(), 2);
    assert_ne!(visited[0], visited[1]);
    assert_eq!(sess.dcx().error_count(), 0);
}

#[test]
fn self_import_terminates() {
    let mut store = FileStore::new();
    store.add_file("a.sol", "import \"a.sol\";");
    let mut sess = fresh_session();
    let mut resolver = Resolver::new();
    let paths = vec!["a.sol".to_string()];
    resolver.parse_and_resolve(&mut sess, &store, false, false, &paths);
    assert_eq!(resolver.visited_files().len(), 1);
    assert_eq!(sess.dcx().error_count(), 0);
}

#[test]
fn identity_two_path_strings_one_parse() {
    let mut store = FileStore::new();
    store.add_file("/abs/x.sol", "pragma solidity ^0.8.0;");
    let mut sess = fresh_session();
    let mut resolver = Resolver::new();
    // the import map makes "pkg/x.sol" denote the same underlying file as
    // the raw path "/abs/x.sol"
    resolver.file_resolver.add_import_map("pkg/", "/abs/");
    let paths = vec!["pkg/x.sol".to_string(), "/abs/x.sol".to_string()];
    resolver.parse_and_resolve(&mut sess, &store, false, false, &paths);
    // both entries resolved, one parse: identity, not path-string equality
    assert_eq!(resolver.visited_files().len(), 1);
    assert_eq!(sess.source_map().len(), 1);
    assert_eq!(sess.dcx().error_count(), 0);
}

#[test]
fn visited_order_is_depth_first_document_order() {
    let mut store = FileStore::new();
    store.add_file("a.sol", "import \"b.sol\"; import \"c.sol\";");
    store.add_file("b.sol", "import \"d.sol\";");
    store.add_file("c.sol", "");
    store.add_file("d.sol", "");
    let mut sess = fresh_session();
    let mut resolver = Resolver::new();
    let paths = vec!["a.sol".to_string()];
    resolver.parse_and_resolve(&mut sess, &store, false, false, &paths);
    // depth-first: a, then b, then b's import d, then c
    let ids: Vec<usize> = resolver.visited_files().clone();
    assert_eq!(ids.len(), 4);
    let names: Vec<String> = ids
        .iter()
        .map(|&id| match &sess.source_map().file(id).name {
            sulk::FileName::Real(p) => p.iter().collect(),
            sulk::FileName::Stdin => "<stdin>".to_string(),
        })
        .collect();
    assert_eq!(names, vec!["a.sol", "b.sol", "d.sol", "c.sol"]);
}

#[test]
fn add_import_path_reports_duplicates() {
    let mut resolver = Resolver::new();
    assert!(resolver.file_resolver.add_import_path("lib"));
    assert!(resolver.file_resolver.add_import_path("other"));
    assert!(!resolver.file_resolver.add_import_path("lib"));
}
