//! Front-end driver for a Solidity compiler: resolves a set of entry files
//! (or standard input) into a deduplicated graph of parsed translation units,
//! validating language-version and feature pragmas, with all diagnostics
//! accumulated under a single compile-session context.

mod ast;
mod diag;
mod laws;
mod parser;
mod resolver;
mod session;
mod source_map;
mod text;

pub use ast::{
    Ident, ImportDirective, Item, ItemKind, ItemKindV, ItemV, PragmaDirective, PragmaTokens,
    PragmaTokensV, SourceUnit, Tok, TokKind,
};
pub use diag::{DiagCtxt, DiagKind, Diagnostic, ErrorsSeen, Span};
pub use laws::{
    lemma_errors_never_steer, lemma_file_always_visited, lemma_identity_not_path_string,
    lemma_items_never_steer, lemma_order_determinism, lemma_resolve_file_preserves,
    lemma_resolve_items_preserves, lemma_visited_once,
};
pub use parser::{parse_file, parse_from};
pub use resolver::{
    custom_accepted, resolve_err_kind, rstate_wf, run_state, spec_parse_and_resolve,
    spec_pragma_diags, spec_resolve_file, spec_resolve_items, spec_resolve_path, CfgView,
    FileResolver, RState, ResolveError, Resolver,
};
pub use session::{
    run_compiler, spec_run, Args, ColorChoice, Compiler, ImportMapping, Language, RunOutcome,
    Session,
};
pub use source_map::{FileName, FileStore, SourceFile, SourceMap, StoreView};
pub use text::{chars_eq, chars_eq_str, text_chars};
