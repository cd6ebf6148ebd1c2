//! The directive-level grammar of a translation unit, and its parser.
//!
//! The driver consumes only the top-level shape of a file: `pragma ...;`
//! directives, `import ...;` directives, and other items (which are inert and
//! merely skipped, brace-balanced). The grammar is defined by spec functions
//! over the character sequence; the executable parser is proved to return
//! exactly what the grammar defines, so parsing is a pure, deterministic
//! function of the text. The first malformed construct aborts the parse of
//! that file with an error anchored at the offending position.

use vstd::prelude::*;

use crate::ast::{
    Ident, Item, ItemKind, ItemKindV, ItemV, ImportDirective, PragmaDirective, PragmaTokens,
    PragmaTokensV, SourceUnit, Tok, TokKind,
};
use crate::diag::Span;
use crate::text::chars_range;

verus! {

/// Horizontal or vertical whitespace.
pub open spec fn is_space(c: char) -> bool {
    c == ' ' || c == '\t' || c == '\n' || c == '\r'
}

/// A character that may start an identifier.
pub open spec fn is_ident_start(c: char) -> bool {
    ('a' <= c && c <= 'z') || ('A' <= c && c <= 'Z') || c == '_' || c == '$'
}

/// A character that may continue an identifier.
pub open spec fn is_ident_cont(c: char) -> bool {
    is_ident_start(c) || ('0' <= c && c <= '9')
}

fn is_space_x(c: char) -> (r: bool)
    ensures
        r == is_space(c),
{
    c == ' ' || c == '\t' || c == '\n' || c == '\r'
}

fn is_ident_start_x(c: char) -> (r: bool)
    ensures
        r == is_ident_start(c),
{
    ('a' <= c && c <= 'z') || ('A' <= c && c <= 'Z') || c == '_' || c == '$'
}

fn is_ident_cont_x(c: char) -> (r: bool)
    ensures
        r == is_ident_cont(c),
{
    is_ident_start_x(c) || ('0' <= c && c <= '9')
}

/// Position just past the end of a `//` comment opened before `i`.
pub open spec fn line_end(s: Seq<char>, i: int) -> int
    decreases s.len() - i,
        when 0 <= i <= s.len()
{
    if i >= s.len() {
        i
    } else if s[i] == '\n' {
        i + 1
    } else {
        line_end(s, i + 1)
    }
}

/// Position just past the end of an identifier whose first character stands
/// before `i`.
pub open spec fn ident_end(s: Seq<char>, i: int) -> int
    decreases s.len() - i,
        when 0 <= i <= s.len()
{
    if i >= s.len() {
        i
    } else if is_ident_cont(s[i]) {
        ident_end(s, i + 1)
    } else {
        i
    }
}

/// Position just past the closing quote of a string literal whose opening
/// quote stands before `i`; `-1` if the literal never closes. A backslash
/// escapes the following character.
pub open spec fn str_end(s: Seq<char>, i: int) -> int
    decreases s.len() - i,
        when 0 <= i <= s.len()
{
    if i >= s.len() {
        -1
    } else if s[i] == '"' {
        i + 1
    } else if s[i] == '\\' {
        if i + 1 < s.len() {
            str_end(s, i + 2)
        } else {
            -1
        }
    } else {
        str_end(s, i + 1)
    }
}

/// Position just past the `*/` closing a block comment opened before `i`;
/// `-1` if the comment never closes.
pub open spec fn block_end(s: Seq<char>, i: int) -> int
    decreases s.len() - i,
        when 0 <= i <= s.len()
{
    if i + 1 >= s.len() {
        -1
    } else if s[i] == '*' && s[i + 1] == '/' {
        i + 2
    } else {
        block_end(s, i + 1)
    }
}

pub proof fn lemma_line_end(s: Seq<char>, i: int)
    requires
        0 <= i <= s.len(),
    ensures
        i <= line_end(s, i) <= s.len(),
    decreases s.len() - i,
{
    if i < s.len() && s[i] != '\n' {
        lemma_line_end(s, i + 1);
    }
}

pub proof fn lemma_ident_end(s: Seq<char>, i: int)
    requires
        0 <= i <= s.len(),
    ensures
        i <= ident_end(s, i) <= s.len(),
    decreases s.len() - i,
{
    if i < s.len() && is_ident_cont(s[i]) {
        lemma_ident_end(s, i + 1);
    }
}

pub proof fn lemma_str_end(s: Seq<char>, i: int)
    requires
        0 <= i <= s.len(),
    ensures
        str_end(s, i) == -1 || i < str_end(s, i) <= s.len(),
    decreases s.len() - i,
{
    if i < s.len() && s[i] != '"' {
        if s[i] == '\\' {
            if i + 1 < s.len() {
                lemma_str_end(s, i + 2);
            }
        } else {
            lemma_str_end(s, i + 1);
        }
    }
}

pub proof fn lemma_block_end(s: Seq<char>, i: int)
    requires
        0 <= i <= s.len(),
    ensures
        block_end(s, i) == -1 || i + 1 < block_end(s, i) <= s.len(),
    decreases s.len() - i,
{
    if i + 1 < s.len() && !(s[i] == '*' && s[i + 1] == '/') {
        lemma_block_end(s, i + 1);
    }
}

/// The next token at or after position `i`, after skipping whitespace and
/// comments. An unterminated block comment or string literal is a `BadTok`.
pub open spec fn lex_from(s: Seq<char>, i: int) -> Tok
    decreases s.len() - i,
        when 0 <= i <= s.len() <= usize::MAX via lex_from_dec
{
    if i >= s.len() {
        Tok { kind: TokKind::EofTok, lo: s.len() as usize, hi: s.len() as usize }
    } else if is_space(s[i]) {
        lex_from(s, i + 1)
    } else if s[i] == '/' && i + 1 < s.len() && s[i + 1] == '/' {
        lex_from(s, line_end(s, i + 2))
    } else if s[i] == '/' && i + 1 < s.len() && s[i + 1] == '*' {
        let e = block_end(s, i + 2);
        if e == -1 {
            Tok { kind: TokKind::BadTok, lo: i as usize, hi: s.len() as usize }
        } else {
            lex_from(s, e)
        }
    } else if is_ident_start(s[i]) {
        Tok { kind: TokKind::Ident, lo: i as usize, hi: ident_end(s, i + 1) as usize }
    } else if s[i] == '"' {
        let e = str_end(s, i + 1);
        if e == -1 {
            Tok { kind: TokKind::BadTok, lo: i as usize, hi: s.len() as usize }
        } else {
            Tok { kind: TokKind::StrLit, lo: i as usize, hi: e as usize }
        }
    } else {
        Tok { kind: TokKind::Punct, lo: i as usize, hi: (i + 1) as usize }
    }
}

#[via_fn]
proof fn lex_from_dec(s: Seq<char>, i: int) {
    if 0 <= i && i < s.len() {
        if s[i] == '/' && i + 1 < s.len() && s[i + 1] == '/' {
            lemma_line_end(s, i + 2);
        } else if s[i] == '/' && i + 1 < s.len() && s[i + 1] == '*' {
            lemma_block_end(s, i + 2);
        }
    }
}

/// Position and shape facts about the next token: it lies within the text,
/// past `i`, and an end-of-input token sits exactly at the end.
pub proof fn lemma_lex(s: Seq<char>, i: int)
    requires
        0 <= i <= s.len() <= usize::MAX,
    ensures
        i <= lex_from(s, i).lo,
        lex_from(s, i).lo <= lex_from(s, i).hi <= s.len(),
        lex_from(s, i).kind != TokKind::EofTok && lex_from(s, i).kind != TokKind::BadTok
            ==> i < lex_from(s, i).hi,
        lex_from(s, i).kind == TokKind::EofTok ==> lex_from(s, i).lo == s.len() && lex_from(
            s,
            i,
        ).hi == s.len(),
        lex_from(s, i).kind == TokKind::StrLit ==> lex_from(s, i).lo + 2 <= lex_from(s, i).hi,
        lex_from(s, i).kind == TokKind::Punct ==> lex_from(s, i).lo < s.len() && lex_from(s, i).hi
            == lex_from(s, i).lo + 1,
    decreases s.len() - i,
{
    if i >= s.len() {
    } else if is_space(s[i]) {
        lemma_lex(s, i + 1);
    } else if s[i] == '/' && i + 1 < s.len() && s[i + 1] == '/' {
        lemma_line_end(s, i + 2);
        lemma_lex(s, line_end(s, i + 2));
    } else if s[i] == '/' && i + 1 < s.len() && s[i + 1] == '*' {
        lemma_block_end(s, i + 2);
        if block_end(s, i + 2) != -1 {
            lemma_lex(s, block_end(s, i + 2));
        }
    } else if is_ident_start(s[i]) {
        lemma_ident_end(s, i + 1);
    } else if s[i] == '"' {
        lemma_str_end(s, i + 1);
    } else {
    }
}

fn line_end_x(src: &Vec<char>, i: usize) -> (r: usize)
    requires
        i <= src.len(),
    ensures
        r as int == line_end(src@, i as int),
    decreases src.len() - i,
{
    if i >= src.len() {
        i
    } else if src[i] == '\n' {
        i + 1
    } else {
        line_end_x(src, i + 1)
    }
}

fn ident_end_x(src: &Vec<char>, i: usize) -> (r: usize)
    requires
        i <= src.len(),
    ensures
        r as int == ident_end(src@, i as int),
    decreases src.len() - i,
{
    if i >= src.len() {
        i
    } else if is_ident_cont_x(src[i]) {
        ident_end_x(src, i + 1)
    } else {
        i
    }
}

fn str_end_x(src: &Vec<char>, i: usize) -> (r: Option<usize>)
    requires
        i <= src.len(),
    ensures
        match r {
            Some(e) => e as int == str_end(src@, i as int),
            None => str_end(src@, i as int) == -1,
        },
    decreases src.len() - i,
{
    if i >= src.len() {
        None
    } else if src[i] == '"' {
        Some(i + 1)
    } else if src[i] == '\\' {
        if i + 1 < src.len() {
            str_end_x(src, i + 2)
        } else {
            None
        }
    } else {
        str_end_x(src, i + 1)
    }
}

fn block_end_x(src: &Vec<char>, i: usize) -> (r: Option<usize>)
    requires
        i <= src.len(),
    ensures
        match r {
            Some(e) => e as int == block_end(src@, i as int),
            None => block_end(src@, i as int) == -1,
        },
    decreases src.len() - i,
{
    if i >= src.len() {
        None
    } else if i + 1 >= src.len() {
        None
    } else if src[i] == '*' && src[i + 1] == '/' {
        Some(i + 2)
    } else {
        block_end_x(src, i + 1)
    }
}

/// Reads the next token of `src` at or after `i`.
fn lex_at(src: &Vec<char>, i: usize) -> (t: Tok)
    requires
        i <= src.len(),
    ensures
        t == lex_from(src@, i as int),
    decreases src.len() - i,
{
    if i >= src.len() {
        return Tok { kind: TokKind::EofTok, lo: src.len(), hi: src.len() };
    }
    let c = src[i];
    if is_space_x(c) {
        return lex_at(src, i + 1);
    }
    if c == '/' && i + 1 < src.len() && src[i + 1] == '/' {
        let e = line_end_x(src, i + 2);
        proof {
            lemma_line_end(src@, i + 2);
        }
        return lex_at(src, e);
    }
    if c == '/' && i + 1 < src.len() && src[i + 1] == '*' {
        match block_end_x(src, i + 2) {
            None => {
                return Tok { kind: TokKind::BadTok, lo: i, hi: src.len() };
            },
            Some(e) => {
                proof {
                    lemma_block_end(src@, i + 2);
                }
                return lex_at(src, e);
            },
        }
    }
    if is_ident_start_x(c) {
        let e = ident_end_x(src, i + 1);
        return Tok { kind: TokKind::Ident, lo: i, hi: e };
    }
    if c == '"' {
        match str_end_x(src, i + 1) {
            None => {
                return Tok { kind: TokKind::BadTok, lo: i, hi: src.len() };
            },
            Some(e) => {
                return Tok { kind: TokKind::StrLit, lo: i, hi: e };
            },
        }
    }
    Tok { kind: TokKind::Punct, lo: i, hi: i + 1 }
}


/// Collects the payload tokens of a directive: everything up to, but not
/// including, the terminating `;`. `Ok` carries the payload and the position
/// just past the `;`; `Err` carries the position of the offending token when
/// the input ends or breaks before the `;`.
pub open spec fn directive_toks(s: Seq<char>, i: int) -> Result<(Seq<Tok>, int), int>
    decreases s.len() - i,
        when 0 <= i <= s.len() <= usize::MAX via directive_toks_dec
{
    let t = lex_from(s, i);
    if t.kind == TokKind::EofTok || t.kind == TokKind::BadTok {
        Err(t.lo as int)
    } else if t.kind == TokKind::Punct && s[t.lo as int] == ';' {
        Ok((Seq::empty(), t.hi as int))
    } else {
        match directive_toks(s, t.hi as int) {
            Err(p) => Err(p),
            Ok(r) => Ok((seq![t] + r.0, r.1)),
        }
    }
}

#[via_fn]
proof fn directive_toks_dec(s: Seq<char>, i: int) {
    if 0 <= i <= s.len() <= usize::MAX {
        lemma_lex(s, i);
    }
}

/// Position and shape facts about a directive payload: the terminator lies
/// past `i`, the payload tokens are whole tokens of the text in order, and
/// none of them is an end or error token.
pub proof fn lemma_directive_toks(s: Seq<char>, i: int)
    requires
        0 <= i <= s.len() <= usize::MAX,
    ensures
        match directive_toks(s, i) {
            Ok(r) => {
                &&& i < r.1 <= s.len()
                &&& forall|k: int|
                    0 <= k < r.0.len() ==> {
                        &&& (#[trigger] r.0[k]).kind != TokKind::EofTok
                        &&& r.0[k].kind != TokKind::BadTok
                        &&& i <= r.0[k].lo
                        &&& r.0[k].lo <= r.0[k].hi <= s.len()
                        &&& (r.0[k].kind == TokKind::StrLit ==> r.0[k].lo + 2 <= r.0[k].hi)
                    }
                &&& forall|k1: int, k2: int|
                    0 <= k1 < k2 < r.0.len() ==> (#[trigger] r.0[k1]).hi <= (#[trigger] r.0[k2]).lo
            },
            Err(p) => 0 <= p <= s.len(),
        },
    decreases s.len() - i,
{
    lemma_lex(s, i);
    let t = lex_from(s, i);
    if t.kind == TokKind::EofTok || t.kind == TokKind::BadTok {
    } else if t.kind == TokKind::Punct && s[t.lo as int] == ';' {
    } else {
        lemma_directive_toks(s, t.hi as int);
        match directive_toks(s, t.hi as int) {
            Err(p) => {},
            Ok(r) => {
                assert forall|k: int| 0 <= k < (seq![t] + r.0).len() implies {
                    &&& ((#[trigger] (seq![t] + r.0)[k]).kind != TokKind::EofTok)
                    &&& ((seq![t] + r.0)[k].kind != TokKind::BadTok)
                    &&& i <= (seq![t] + r.0)[k].lo
                    &&& (seq![t] + r.0)[k].lo <= (seq![t] + r.0)[k].hi <= s.len()
                    &&& ((seq![t] + r.0)[k].kind == TokKind::StrLit ==> (seq![t] + r.0)[k].lo + 2
                        <= (seq![t] + r.0)[k].hi)
                } by {
                    if k > 0 {
                        assert((seq![t] + r.0)[k] == r.0[k - 1]);
                    }
                }
            },
        }
    }
}

/// Position just past the end of an inert item: consumes tokens until a `;`
/// at brace depth zero, or until the brace that closes the item. `Err` is a
/// parse error (unbalanced braces at end of input, a stray `}`, or a broken
/// token).
pub open spec fn item_end(s: Seq<char>, i: int, depth: int) -> Result<int, int>
    decreases s.len() - i,
        when 0 <= i <= s.len() <= usize::MAX via item_end_dec
{
    let t = lex_from(s, i);
    if t.kind == TokKind::EofTok {
        if depth == 0 {
            Ok(t.lo as int)
        } else {
            Err(t.lo as int)
        }
    } else if t.kind == TokKind::BadTok {
        Err(t.lo as int)
    } else if t.kind == TokKind::Punct && s[t.lo as int] == '{' {
        item_end(s, t.hi as int, depth + 1)
    } else if t.kind == TokKind::Punct && s[t.lo as int] == '}' {
        if depth == 0 {
            Err(t.lo as int)
        } else if depth == 1 {
            Ok(t.hi as int)
        } else {
            item_end(s, t.hi as int, depth - 1)
        }
    } else if t.kind == TokKind::Punct && s[t.lo as int] == ';' && depth == 0 {
        Ok(t.hi as int)
    } else {
        item_end(s, t.hi as int, depth)
    }
}

#[via_fn]
proof fn item_end_dec(s: Seq<char>, i: int, depth: int) {
    if 0 <= i <= s.len() <= usize::MAX {
        lemma_lex(s, i);
    }
}

/// An inert item ends within the text, at or after where it began.
pub proof fn lemma_item_end(s: Seq<char>, i: int, depth: int)
    requires
        0 <= i <= s.len() <= usize::MAX,
    ensures
        match item_end(s, i, depth) {
            Ok(j) => i <= j <= s.len(),
            Err(p) => 0 <= p <= s.len(),
        },
    decreases s.len() - i,
{
    lemma_lex(s, i);
    let t = lex_from(s, i);
    if t.kind == TokKind::EofTok || t.kind == TokKind::BadTok {
    } else if t.kind == TokKind::Punct && s[t.lo as int] == '{' {
        lemma_item_end(s, t.hi as int, depth + 1);
    } else if t.kind == TokKind::Punct && s[t.lo as int] == '}' {
        if depth != 0 && depth != 1 {
            lemma_item_end(s, t.hi as int, depth - 1);
        }
    } else if t.kind == TokKind::Punct && s[t.lo as int] == ';' && depth == 0 {
    } else {
        lemma_item_end(s, t.hi as int, depth);
    }
}

/// The text a token stands for: the slice itself for an identifier or
/// punctuation, the slice without its quotes for a string literal.
pub open spec fn tok_text(s: Seq<char>, t: Tok) -> Seq<char> {
    if t.kind == TokKind::StrLit {
        s.subrange(t.lo + 1, t.hi - 1)
    } else {
        s.subrange(t.lo as int, t.hi as int)
    }
}

/// A token that can serve as a pragma name or value.
pub open spec fn is_val_tok(t: Tok) -> bool {
    t.kind == TokKind::Ident || t.kind == TokKind::StrLit
}

/// Classifies a pragma payload into one of the three recognized shapes:
/// one or two name/value tokens make a custom pragma; an identifier followed
/// by anything else makes a version pragma whose constraint is kept as raw
/// text; everything else is verbatim.
pub open spec fn classify_pragma(s: Seq<char>, toks: Seq<Tok>, file: usize) -> PragmaTokensV {
    if toks.len() == 1 && is_val_tok(toks[0]) {
        PragmaTokensV::Custom { name: tok_text(s, toks[0]), value: None }
    } else if toks.len() == 2 && is_val_tok(toks[0]) && is_val_tok(toks[1]) {
        PragmaTokensV::Custom { name: tok_text(s, toks[0]), value: Some(tok_text(s, toks[1])) }
    } else if toks.len() >= 2 && toks[0].kind == TokKind::Ident && !is_val_tok(toks[1]) {
        PragmaTokensV::Version {
            name: tok_text(s, toks[0]),
            name_span: Span { file, lo: toks[0].lo, hi: toks[0].hi },
            req: s.subrange(toks[1].lo as int, toks[toks.len() - 1].hi as int),
        }
    } else {
        PragmaTokensV::Verbatim
    }
}

/// Index of the last string literal at or before position `i`, or `-1`.
pub open spec fn last_strlit(toks: Seq<Tok>, i: int) -> int
    decreases i + 1,
        when i < toks.len()
{
    if i < 0 {
        -1
    } else if toks[i].kind == TokKind::StrLit {
        i
    } else {
        last_strlit(toks, i - 1)
    }
}

/// Skipping trailing non-string tokens does not change the last string
/// literal.
proof fn lemma_last_strlit_skip(toks: Seq<Tok>, i: int)
    requires
        -1 <= i < toks.len(),
        forall|k: int| i < k < toks.len() ==> (#[trigger] toks[k]).kind != TokKind::StrLit,
    ensures
        last_strlit(toks, toks.len() - 1) == last_strlit(toks, i),
    decreases toks.len() - i,
{
    if i < toks.len() - 1 {
        lemma_last_strlit_skip(toks, i + 1);
    }
}

/// Parses the items of a translation unit from position `i` on. The result
/// is the sequence of items in document order, or the span of the first
/// parse error.
pub open spec fn parse_from(s: Seq<char>, file: usize, i: int) -> Result<Seq<ItemV>, Span>
    decreases s.len() - i,
        when 0 <= i <= s.len() <= usize::MAX via parse_from_dec
{
    let t = lex_from(s, i);
    if t.kind == TokKind::EofTok {
        Ok(Seq::empty())
    } else if t.kind == TokKind::BadTok {
        Err(Span { file, lo: t.lo, hi: t.hi })
    } else if t.kind == TokKind::Ident && tok_text(s, t) === "pragma"@ {
        match directive_toks(s, t.hi as int) {
            Err(p) => Err(Span { file, lo: p as usize, hi: p as usize }),
            Ok(r) => match parse_from(s, file, r.1) {
                Err(e) => Err(e),
                Ok(rest) => Ok(
                    seq![
                        ItemV {
                            kind: ItemKindV::Pragma(classify_pragma(s, r.0, file)),
                            span: Span { file, lo: t.lo, hi: r.1 as usize },
                        },
                    ] + rest,
                ),
            },
        }
    } else if t.kind == TokKind::Ident && tok_text(s, t) === "import"@ {
        match directive_toks(s, t.hi as int) {
            Err(p) => Err(Span { file, lo: p as usize, hi: p as usize }),
            Ok(r) => {
                let k = last_strlit(r.0, r.0.len() - 1);
                if k == -1 {
                    Err(Span { file, lo: t.lo, hi: r.1 as usize })
                } else {
                    match parse_from(s, file, r.1) {
                        Err(e) => Err(e),
                        Ok(rest) => Ok(
                            seq![
                                ItemV {
                                    kind: ItemKindV::Import { path: tok_text(s, r.0[k]) },
                                    span: Span { file, lo: t.lo, hi: r.1 as usize },
                                },
                            ] + rest,
                        ),
                    }
                }
            },
        }
    } else if t.kind == TokKind::Punct && s[t.lo as int] == ';' {
        match parse_from(s, file, t.hi as int) {
            Err(e) => Err(e),
            Ok(rest) => Ok(
                seq![ItemV { kind: ItemKindV::Other, span: Span { file, lo: t.lo, hi: t.hi } }]
                    + rest,
            ),
        }
    } else if t.kind == TokKind::Punct && s[t.lo as int] == '}' {
        Err(Span { file, lo: t.lo, hi: t.hi })
    } else {
        let d0: int = if t.kind == TokKind::Punct && s[t.lo as int] == '{' {
            1
        } else {
            0
        };
        match item_end(s, t.hi as int, d0) {
            Err(p) => Err(Span { file, lo: p as usize, hi: p as usize }),
            Ok(j) => match parse_from(s, file, j) {
                Err(e) => Err(e),
                Ok(rest) => Ok(
                    seq![ItemV { kind: ItemKindV::Other, span: Span { file, lo: t.lo, hi: j as usize } }]
                        + rest,
                ),
            },
        }
    }
}

#[via_fn]
proof fn parse_from_dec(s: Seq<char>, file: usize, i: int) {
    if 0 <= i <= s.len() <= usize::MAX {
        lemma_lex(s, i);
        let t = lex_from(s, i);
        if t.kind != TokKind::EofTok && t.kind != TokKind::BadTok {
            lemma_directive_toks(s, t.hi as int);
            let d0: int = if t.kind == TokKind::Punct && s[t.lo as int] == '{' {
                1
            } else {
                0
            };
            lemma_item_end(s, t.hi as int, d0);
        }
    }
}


fn directive_toks_x(src: &Vec<char>, i: usize) -> (r: Result<(Vec<Tok>, usize), usize>)
    requires
        i <= src.len(),
    ensures
        (match directive_toks(src@, i as int) {
            Ok(p) => r matches Ok(q) && q.0@ === p.0 && q.1 as int == p.1,
            Err(e) => r matches Err(f) && f as int == e,
        }),
    decreases src.len() - i,
{
    let t = lex_at(src, i);
    proof {
        lemma_lex(src@, i as int);
    }
    if matches!(t.kind, TokKind::EofTok) || matches!(t.kind, TokKind::BadTok) {
        Err(t.lo)
    } else if matches!(t.kind, TokKind::Punct) && src[t.lo] == ';' {
        proof {
            assert(Seq::<Tok>::empty() =~= directive_toks(src@, i as int)->Ok_0.0);
        }
        Ok((Vec::new(), t.hi))
    } else {
        match directive_toks_x(src, t.hi) {
            Err(p) => Err(p),
            Ok((mut toks, j)) => {
                let ghost restv = toks@;
                toks.insert(0, t);
                proof {
                    assert(toks@ =~= seq![t] + restv);
                }
                Ok((toks, j))
            },
        }
    }
}

/// Finds the last string literal of a directive payload.
fn last_strlit_x(toks: &Vec<Tok>) -> (r: Option<usize>)
    ensures
        (match r {
            Some(k) => k as int == last_strlit(toks@, toks@.len() - 1) && k < toks@.len(),
            None => last_strlit(toks@, toks@.len() - 1) == -1,
        }),
{
    let mut i: usize = toks.len();
    while i > 0
        invariant
            i <= toks@.len(),
            forall|k: int| i <= k < toks@.len() ==> (#[trigger] toks@[k]).kind != TokKind::StrLit,
        decreases i,
    {
        i = i - 1;
        if matches!(toks[i].kind, TokKind::StrLit) {
            proof {
                lemma_last_strlit_skip(toks@, i as int);
            }
            return Some(i);
        }
    }
    proof {
        if toks@.len() > 0 {
            lemma_last_strlit_skip(toks@, -1);
        }
    }
    None
}

/// Slices the text of one token out of the source.
fn tok_text_x(src: &Vec<char>, t: Tok) -> (r: Vec<char>)
    requires
        t.lo <= t.hi <= src.len(),
        t.kind == TokKind::StrLit ==> t.lo + 2 <= t.hi,
    ensures
        r@ === tok_text(src@, t),
{
    if matches!(t.kind, TokKind::StrLit) {
        chars_range(src, t.lo + 1, t.hi - 1)
    } else {
        chars_range(src, t.lo, t.hi)
    }
}

/// Classifies a pragma payload, mirroring [`classify_pragma`].
fn classify_pragma_x(src: &Vec<char>, toks: &Vec<Tok>, file: usize) -> (r: PragmaTokens)
    requires
        forall|k: int|
            0 <= k < toks@.len() ==> {
                &&& (#[trigger] toks@[k]).lo <= toks@[k].hi <= src@.len()
                &&& (toks@[k].kind == TokKind::StrLit ==> toks@[k].lo + 2 <= toks@[k].hi)
            },
        forall|k1: int, k2: int|
            0 <= k1 < k2 < toks@.len() ==> (#[trigger] toks@[k1]).hi <= (#[trigger] toks@[k2]).lo,
    ensures
        r@ === classify_pragma(src@, toks@, file),
{
    let n = toks.len();
    if n == 1 && (matches!(toks[0].kind, TokKind::Ident) || matches!(toks[0].kind, TokKind::StrLit)) {
        PragmaTokens::Custom(tok_text_x(src, toks[0]), None)
    } else if n == 2 && (matches!(toks[0].kind, TokKind::Ident) || matches!(
        toks[0].kind,
        TokKind::StrLit,
    )) && (matches!(toks[1].kind, TokKind::Ident) || matches!(toks[1].kind, TokKind::StrLit)) {
        PragmaTokens::Custom(tok_text_x(src, toks[0]), Some(tok_text_x(src, toks[1])))
    } else if n >= 2 && matches!(toks[0].kind, TokKind::Ident) && !(matches!(
        toks[1].kind,
        TokKind::Ident,
    ) || matches!(toks[1].kind, TokKind::StrLit)) {
        let name = tok_text_x(src, toks[0]);
        let name_span = Span { file, lo: toks[0].lo, hi: toks[0].hi };
        let req = chars_range(src, toks[1].lo, toks[n - 1].hi);
        PragmaTokens::Version(Ident { name, span: name_span }, req)
    } else {
        PragmaTokens::Verbatim
    }
}

/// Parses the items of `src` from position `i` on, mirroring [`parse_from`].
fn parse_items_x(src: &Vec<char>, file: usize, i: usize) -> (r: Result<Vec<Item>, Span>)
    requires
        i <= src.len(),
    ensures
        (match parse_from(src@, file, i as int) {
            Ok(items) => r matches Ok(v) && v@.map_values(|it: Item| it@) === items,
            Err(sp) => r matches Err(e) && e == sp,
        }),
    decreases src.len() - i,
{
    let t = lex_at(src, i);
    proof {
        lemma_lex(src@, i as int);
    }
    if matches!(t.kind, TokKind::EofTok) {
        let r: Vec<Item> = Vec::new();
        proof {
            assert(r@.map_values(|it: Item| it@) =~= Seq::<ItemV>::empty());
        }
        return Ok(r);
    }
    if matches!(t.kind, TokKind::BadTok) {
        return Err(Span { file, lo: t.lo, hi: t.hi });
    }
    let is_ident = matches!(t.kind, TokKind::Ident);
    let text = tok_text_x(src, t);
    if is_ident && crate::text::chars_eq_str(&text, "pragma") {
        match directive_toks_x(src, t.hi) {
            Err(p) => Err(Span { file, lo: p, hi: p }),
            Ok((toks, j)) => {
                proof {
                    lemma_directive_toks(src@, t.hi as int);
                }
                let prag = classify_pragma_x(src, &toks, file);
                match parse_items_x(src, file, j) {
                    Err(e) => Err(e),
                    Ok(mut rest) => {
                        let ghost restv = rest@;
                        let item = Item {
                            kind: ItemKind::Pragma(PragmaDirective { tokens: prag }),
                            span: Span { file, lo: t.lo, hi: j },
                        };
                        let ghost itemv = item@;
                        rest.insert(0, item);
                        proof {
                            assert(rest@.map_values(|it: Item| it@) =~= seq![itemv]
                                + restv.map_values(|it: Item| it@));
                        }
                        Ok(rest)
                    },
                }
            },
        }
    } else if is_ident && crate::text::chars_eq_str(&text, "import") {
        match directive_toks_x(src, t.hi) {
            Err(p) => Err(Span { file, lo: p, hi: p }),
            Ok((toks, j)) => {
                proof {
                    lemma_directive_toks(src@, t.hi as int);
                }
                match last_strlit_x(&toks) {
                    None => Err(Span { file, lo: t.lo, hi: j }),
                    Some(k) => {
                        let path = tok_text_x(src, toks[k]);
                        match parse_items_x(src, file, j) {
                            Err(e) => Err(e),
                            Ok(mut rest) => {
                                let ghost restv = rest@;
                                let item = Item {
                                    kind: ItemKind::Import(ImportDirective { path }),
                                    span: Span { file, lo: t.lo, hi: j },
                                };
                                let ghost itemv = item@;
                                rest.insert(0, item);
                                proof {
                                    assert(rest@.map_values(|it: Item| it@) =~= seq![itemv]
                                        + restv.map_values(|it: Item| it@));
                                }
                                Ok(rest)
                            },
                        }
                    },
                }
            },
        }
    } else if matches!(t.kind, TokKind::Punct) && src[t.lo] == ';' {
        match parse_items_x(src, file, t.hi) {
            Err(e) => Err(e),
            Ok(mut rest) => {
                let ghost restv = rest@;
                let item = Item { kind: ItemKind::Other, span: Span { file, lo: t.lo, hi: t.hi } };
                let ghost itemv = item@;
                rest.insert(0, item);
                proof {
                    assert(rest@.map_values(|it: Item| it@) =~= seq![itemv]
                        + restv.map_values(|it: Item| it@));
                }
                Ok(rest)
            },
        }
    } else if matches!(t.kind, TokKind::Punct) && src[t.lo] == '}' {
        Err(Span { file, lo: t.lo, hi: t.hi })
    } else {
        let d0: usize = if matches!(t.kind, TokKind::Punct) && src[t.lo] == '{' {
            1
        } else {
            0
        };
        match item_end_x(src, t.hi, d0) {
            Err(p) => Err(Span { file, lo: p, hi: p }),
            Ok(j) => {
                proof {
                    lemma_item_end(src@, t.hi as int, d0 as int);
                }
                match parse_items_x(src, file, j) {
                    Err(e) => Err(e),
                    Ok(mut rest) => {
                        let ghost restv = rest@;
                        let item = Item { kind: ItemKind::Other, span: Span { file, lo: t.lo, hi: j } };
                        let ghost itemv = item@;
                        rest.insert(0, item);
                        proof {
                            assert(rest@.map_values(|it: Item| it@) =~= seq![itemv]
                                + restv.map_values(|it: Item| it@));
                        }
                        Ok(rest)
                    },
                }
            },
        }
    }
}

/// Consumes an inert item, mirroring [`item_end`].
fn item_end_x(src: &Vec<char>, i: usize, depth: usize) -> (r: Result<usize, usize>)
    requires
        i <= src.len(),
        depth <= i,
    ensures
        (match item_end(src@, i as int, depth as int) {
            Ok(j) => r matches Ok(v) && v as int == j,
            Err(p) => r matches Err(f) && f as int == p,
        }),
    decreases src.len() - i,
{
    let t = lex_at(src, i);
    proof {
        lemma_lex(src@, i as int);
    }
    if matches!(t.kind, TokKind::EofTok) {
        if depth == 0 {
            Ok(t.lo)
        } else {
            Err(t.lo)
        }
    } else if matches!(t.kind, TokKind::BadTok) {
        Err(t.lo)
    } else if matches!(t.kind, TokKind::Punct) && src[t.lo] == '{' {
        item_end_x(src, t.hi, depth + 1)
    } else if matches!(t.kind, TokKind::Punct) && src[t.lo] == '}' {
        if depth == 0 {
            Err(t.lo)
        } else if depth == 1 {
            Ok(t.hi)
        } else {
            item_end_x(src, t.hi, depth - 1)
        }
    } else if matches!(t.kind, TokKind::Punct) && src[t.lo] == ';' && depth == 0 {
        Ok(t.hi)
    } else {
        item_end_x(src, t.hi, depth)
    }
}

/// Parses one translation unit: the items of `src` in document order, or the
/// span of the first parse error. The result is exactly what the grammar
/// functions define, so parsing is a pure function of the text.
pub fn parse_file(src: &Vec<char>, file: usize) -> (r: Result<SourceUnit, Span>)
    ensures
        (match parse_from(src@, file, 0) {
            Ok(items) => r matches Ok(u) && u@ === items,
            Err(sp) => r matches Err(e) && e == sp,
        }),
{
    match parse_items_x(src, file, 0) {
        Err(e) => Err(e),
        Ok(items) => Ok(SourceUnit { items }),
    }
}

} // verus!
