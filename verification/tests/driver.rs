//! End-to-end tests of one compile invocation.

use sulk::{Args, ColorChoice, DiagKind, FileStore, Language, RunOutcome, Span};

fn plain_args(inputs: &[&str]) -> Args {
    Args {
        language: Language::Solidity,
        import_map: Vec::new(),
        import_path: Vec::new(),
        input: inputs.iter().map(|s| s.to_string()).collect(),
        color: ColorChoice::Auto,
        allow_yul: false,
    }
}

fn run_one_pragma(text: &str) -> RunOutcome {
    let mut store = FileStore::new();
    store.add_file("a.sol", text);
    sulk::run_compiler(plain_args(&["a.sol"]), &store)
}

#[test]
fn pragma_abicoder_v1_accepted() {
    let r = run_one_pragma("pragma abicoder v1;");
    assert_eq!(r.diagnostics.len(), 0);
    assert!(!r.exit_error);
}

#[test]
fn pragma_abicoder_v2_accepted() {
    let r = run_one_pragma("pragma abicoder v2;");
    assert_eq!(r.diagnostics.len(), 0);
}

#[test]
fn pragma_experimental_abiencoderv2_accepted() {
    let r = run_one_pragma("pragma experimental ABIEncoderV2;");
    assert_eq!(r.diagnostics.len(), 0);
}

#[test]
fn pragma_experimental_smtchecker_accepted() {
    let r = run_one_pragma("pragma experimental SMTChecker;");
    assert_eq!(r.diagnostics.len(), 0);
}

#[test]
fn pragma_experimental_solidity_rejected() {
    let r = run_one_pragma("pragma experimental solidity;");
    assert_eq!(r.diagnostics.len(), 1);
    assert_eq!(r.diagnostics[0].kind, DiagKind::ExperimentalSolidity);
    assert_eq!(r.diagnostics[0].span, None);
    assert!(r.exit_error);
}

#[test]
fn pragma_unknown_pair_rejected() {
    let r = run_one_pragma("pragma abicoder v3;");
    assert_eq!(r.diagnostics.len(), 1);
    assert_eq!(r.diagnostics[0].kind, DiagKind::UnknownPragma);
    // anchored at the whole directive
    assert_eq!(r.diagnostics[0].span, Some(Span { file: 0, lo: 0, hi: 19 }));
}

#[test]
fn pragma_name_without_value_rejected() {
    let r = run_one_pragma("pragma abicoder;");
    assert_eq!(r.diagnostics.len(), 1);
    assert_eq!(r.diagnostics[0].kind, DiagKind::UnknownPragma);
}

#[test]
fn version_pragma_solidity_accepted() {
    let r = run_one_pragma("pragma solidity ^0.8.0;");
    assert_eq!(r.diagnostics.len(), 0);
}

#[test]
fn version_pragma_other_name_rejected_at_name() {
    let r = run_one_pragma("pragma foo ^0.8.0;");
    assert_eq!(r.diagnostics.len(), 1);
    assert_eq!(r.diagnostics[0].kind, DiagKind::NonSolidityVersionPragma);
    // anchored at the offending name token
    assert_eq!(r.diagnostics[0].span, Some(Span { file: 0, lo: 7, hi: 10 }));
}

#[test]
fn verbatim_pragma_rejected() {
    let r = run_one_pragma("pragma 123 456;");
    assert_eq!(r.diagnostics.len(), 1);
    assert_eq!(r.diagnostics[0].kind, DiagKind::UnknownPragma);
}

#[test]
fn entry_independence_parse_error_does_not_skip_sibling() {
    let mut store = FileStore::new();
    store.add_file("bad.sol", "contract C {");
    store.add_file("good.sol", "import \"c.sol\";");
    store.add_file("c.sol", "pragma solidity ^0.8.0;");
    let r = sulk::run_compiler(plain_args(&["bad.sol", "good.sol"]), &store);
    // the first entry's parse error is recorded, the second entry and its
    // import are still fully resolved
    assert_eq!(r.diagnostics.len(), 1);
    assert_eq!(r.diagnostics[0].kind, DiagKind::ParseError);
    assert!(r.exit_error);
    assert_eq!(r.reported_errors, 1);
}

#[test]
fn order_determinism_two_runs_agree() {
    let mut store = FileStore::new();
    store.add_file("a.sol", "import \"b.sol\"; pragma bad bad bad;");
    store.add_file("b.sol", "import \"missing.sol\";");
    let r1 = sulk::run_compiler(plain_args(&["a.sol"]), &store);
    let r2 = sulk::run_compiler(plain_args(&["a.sol"]), &store);
    assert_eq!(r1.diagnostics, r2.diagnostics);
    assert_eq!(r1.reported_errors, r2.reported_errors);
}

#[test]
fn finalization_report_on_success() {
    let mut store = FileStore::new();
    store.add_file("a.sol", "pragma solidity ^0.8.0;");
    let r = sulk::run_compiler(plain_args(&["a.sol"]), &store);
    assert_eq!(r.reported_errors, 0);
    assert_eq!(r.reported_errors, r.diagnostics.len());
    assert!(!r.exit_error);
}

#[test]
fn finalization_report_on_error() {
    let store = FileStore::new();
    let r = sulk::run_compiler(plain_args(&["missing.sol"]), &store);
    assert_eq!(r.diagnostics.len(), 1);
    assert_eq!(r.diagnostics[0].kind, DiagKind::FileNotFound);
    assert_eq!(r.reported_errors, 1);
    assert!(r.exit_error);
}

#[test]
fn finalization_report_on_refused_mode() {
    let store = FileStore::new();
    let mut args = plain_args(&["a.yul"]);
    args.language = Language::Yul;
    let r = sulk::run_compiler(args, &store);
    assert_eq!(r.diagnostics.len(), 1);
    assert_eq!(r.diagnostics[0].kind, DiagKind::YulNotSupported);
    assert_eq!(r.reported_errors, 1);
    assert!(r.exit_error);
}

#[test]
fn yul_mode_allowed_parses_without_following_imports() {
    let mut store = FileStore::new();
    store.add_file("a.yul", "import \"b.sol\";");
    let mut args = plain_args(&["a.yul"]);
    args.language = Language::Yul;
    args.allow_yul = true;
    // the unit is parsed and discarded: the missing import is never followed
    let r = sulk::run_compiler(args, &store);
    assert_eq!(r.diagnostics.len(), 0);
    assert!(!r.exit_error);
}

#[test]
fn stdin_entry_with_missing_import() {
    let mut store = FileStore::new();
    store.set_stdin("pragma solidity ^0.8.0; import \"b.sol\";");
    let r = sulk::run_compiler(plain_args(&["-"]), &store);
    // exactly one resolution error, anchored at the import directive, and no
    // pragma errors
    assert_eq!(r.diagnostics.len(), 1);
    assert_eq!(r.diagnostics[0].kind, DiagKind::FileNotFound);
    assert_eq!(r.diagnostics[0].span, Some(Span { file: 0, lo: 24, hi: 39 }));
    assert!(r.exit_error);
}

#[test]
fn stdin_requested_but_unavailable() {
    let store = FileStore::new();
    let r = sulk::run_compiler(plain_args(&["-"]), &store);
    assert_eq!(r.diagnostics.len(), 1);
    assert_eq!(r.diagnostics[0].kind, DiagKind::StdinUnavailable);
}

#[test]
fn duplicate_import_path_refused() {
    let store = FileStore::new();
    let mut args = plain_args(&[]);
    args.import_path = vec!["lib".to_string(), "lib".to_string()];
    let r = sulk::run_compiler(args, &store);
    assert_eq!(r.diagnostics.len(), 1);
    assert_eq!(r.diagnostics[0].kind, DiagKind::DuplicateImportPath);
}

#[test]
fn import_path_search_single_hit() {
    let mut store = FileStore::new();
    store.add_file("a.sol", "import \"x.sol\";");
    store.add_file("lib/x.sol", "pragma solidity ^0.8.0;");
    let mut args = plain_args(&["a.sol"]);
    args.import_path = vec!["lib".to_string()];
    let r = sulk::run_compiler(args, &store);
    assert_eq!(r.diagnostics.len(), 0);
}

#[test]
fn import_path_search_ambiguous() {
    let mut store = FileStore::new();
    store.add_file("a.sol", "import \"x.sol\";");
    store.add_file("lib1/x.sol", "");
    store.add_file("lib2/x.sol", "");
    let mut args = plain_args(&["a.sol"]);
    args.import_path = vec!["lib1".to_string(), "lib2".to_string()];
    let r = sulk::run_compiler(args, &store);
    assert_eq!(r.diagnostics.len(), 1);
    assert_eq!(r.diagnostics[0].kind, DiagKind::AmbiguousImport);
}

#[test]
fn relative_import_uses_parent_directory() {
    let mut store = FileStore::new();
    store.add_file("src/a.sol", "import \"b.sol\";");
    store.add_file("src/b.sol", "pragma solidity ^0.8.0;");
    let r = sulk::run_compiler(plain_args(&["src/a.sol"]), &store);
    assert_eq!(r.diagnostics.len(), 0);
}

#[test]
fn import_map_applies_through_driver() {
    let mut store = FileStore::new();
    store.add_file("/abs/x.sol", "pragma solidity ^0.8.0;");
    let mut args = plain_args(&["pkg/x.sol"]);
    args.import_map = vec![sulk::ImportMapping {
        map: "pkg/".to_string(),
        path: "/abs/".to_string(),
    }];
    let r = sulk::run_compiler(args, &store);
    assert_eq!(r.diagnostics.len(), 0);
    assert!(!r.exit_error);
}

#[test]
fn diagnostics_follow_document_order() {
    let mut store = FileStore::new();
    store.add_file("a.sol", "pragma foo ^1.0; pragma abicoder v9;");
    let r = sulk::run_compiler(plain_args(&["a.sol"]), &store);
    assert_eq!(r.diagnostics.len(), 2);
    assert_eq!(r.diagnostics[0].kind, DiagKind::NonSolidityVersionPragma);
    assert_eq!(r.diagnostics[1].kind, DiagKind::UnknownPragma);
}
