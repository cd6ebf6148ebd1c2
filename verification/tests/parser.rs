//! Tests of the directive-level parser.

use sulk::{text_chars, ItemKind, PragmaTokens, TokKind};

fn parse(text: &str) -> Result<sulk::SourceUnit, sulk::Span> {
    let src = text_chars(text);
    sulk::parse_file(&src, 0)
}

#[test]
fn empty_file_parses_to_no_items() {
    let unit = parse("").unwrap();
    assert_eq!(unit.items.len(), 0);
}

#[test]
fn pragma_and_import_in_document_order() {
    let unit = parse("pragma solidity ^0.8.0;\nimport \"b.sol\";\ncontract C {}").unwrap();
    assert_eq!(unit.items.len(), 3);
    match &unit.items[0].kind {
        ItemKind::Pragma(p) => match &p.tokens {
            PragmaTokens::Version(name, req) => {
                let n: String = name.name.iter().collect();
                assert_eq!(n, "solidity");
                let r: String = req.iter().collect();
                assert_eq!(r, "^0.8.0");
            }
            _ => panic!("expected a version pragma"),
        },
        _ => panic!("expected a pragma"),
    }
    match &unit.items[1].kind {
        ItemKind::Import(im) => {
            let p: String = im.path.iter().collect();
            assert_eq!(p, "b.sol");
        }
        _ => panic!("expected an import"),
    }
    assert!(matches!(unit.items[2].kind, ItemKind::Other));
}

#[test]
fn import_from_clause_takes_last_string() {
    let unit = parse("import {A, B} from \"lib.sol\";").unwrap();
    assert_eq!(unit.items.len(), 1);
    match &unit.items[0].kind {
        ItemKind::Import(im) => {
            let p: String = im.path.iter().collect();
            assert_eq!(p, "lib.sol");
        }
        _ => panic!("expected an import"),
    }
}

#[test]
fn comments_and_whitespace_are_skipped() {
    let unit = parse("// leading\n/* block */ pragma abicoder v2; // end").unwrap();
    assert_eq!(unit.items.len(), 1);
    match &unit.items[0].kind {
        ItemKind::Pragma(p) => match &p.tokens {
            PragmaTokens::Custom(name, value) => {
                let n: String = name.iter().collect();
                assert_eq!(n, "abicoder");
                let v: String = value.as_ref().unwrap().iter().collect();
                assert_eq!(v, "v2");
            }
            _ => panic!("expected a custom pragma"),
        },
        _ => panic!("expected a pragma"),
    }
}

#[test]
fn unterminated_string_is_a_parse_error() {
    assert!(parse("import \"b.sol").is_err());
}

#[test]
fn unterminated_block_comment_is_a_parse_error() {
    assert!(parse("/* never closed").is_err());
}

#[test]
fn unbalanced_brace_is_a_parse_error() {
    assert!(parse("contract C {").is_err());
    assert!(parse("}").is_err());
}

#[test]
fn pragma_without_semicolon_is_a_parse_error() {
    assert!(parse("pragma solidity ^0.8.0").is_err());
}

#[test]
fn import_without_path_is_a_parse_error() {
    assert!(parse("import A;").is_err());
}

#[test]
fn string_pragma_value_is_accepted_as_custom() {
    let unit = parse("pragma abicoder \"v1\";").unwrap();
    match &unit.items[0].kind {
        ItemKind::Pragma(p) => match &p.tokens {
            PragmaTokens::Custom(name, value) => {
                let n: String = name.iter().collect();
                assert_eq!(n, "abicoder");
                let v: String = value.as_ref().unwrap().iter().collect();
                assert_eq!(v, "v1");
            }
            _ => panic!("expected a custom pragma"),
        },
        _ => panic!("expected a pragma"),
    }
}

#[test]
fn braces_inside_strings_do_not_count() {
    let unit = parse("contract C { string s = \"}\"; }").unwrap();
    assert_eq!(unit.items.len(), 1);
    assert!(matches!(unit.items[0].kind, ItemKind::Other));
}

#[test]
fn token_kinds_cover_directive_payloads() {
    // a pragma whose payload mixes identifiers and punctuation classifies
    // as a version pragma only when the name comes first
    let unit = parse("pragma solidity >=0.4.0 <0.9.0;").unwrap();
    match &unit.items[0].kind {
        ItemKind::Pragma(p) => assert!(matches!(p.tokens, PragmaTokens::Version(_, _))),
        _ => panic!("expected a pragma"),
    }
    let _ = TokKind::Ident;
}
