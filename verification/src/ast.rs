//! The parsed shape of a translation unit, reduced to what the front-end
//! driver consumes: pragma directives, import directives, and inert items.

use vstd::prelude::*;

use crate::diag::Span;

verus! {

/// A lexical token, identified purely by its position in the source text:
/// `[lo, hi)` in characters. The text of an identifier is the slice itself;
/// the text of a string literal is the slice without its quotes.
#[derive(Clone, Copy, PartialEq, Eq, Structural, Debug)]
pub struct Tok {
    pub kind: TokKind,
    pub lo: usize,
    pub hi: usize,
}

#[derive(Clone, Copy, PartialEq, Eq, Structural, Debug)]
pub enum TokKind {
    /// An identifier or keyword.
    Ident,
    /// A double-quoted string literal, quotes included in the span.
    StrLit,
    /// Any other single character.
    Punct,
    /// End of input.
    EofTok,
    /// An unterminated string literal or block comment.
    BadTok,
}

/// An identifier with its location.
pub struct Ident {
    pub name: Vec<char>,
    pub span: Span,
}

/// The classified payload of a `pragma` directive.
pub enum PragmaTokens {
    /// `pragma <name> <version constraint>;` — the constraint is kept as raw
    /// text and accepted syntactically without range checking.
    Version(Ident, Vec<char>),
    /// `pragma <name>;` or `pragma <name> <value>;` where name and value are
    /// identifiers or string literals.
    Custom(Vec<char>, Option<Vec<char>>),
    /// A pragma that fits neither recognized shape.
    Verbatim,
}

/// A `pragma` directive.
pub struct PragmaDirective {
    pub tokens: PragmaTokens,
}

/// An `import` directive carrying its string-literal path.
pub struct ImportDirective {
    pub path: Vec<char>,
}

/// A top-level item of a translation unit.
pub enum ItemKind {
    Pragma(PragmaDirective),
    Import(ImportDirective),
    /// Any other top-level item; inert at this layer.
    Other,
}

/// A top-level item with the span of the whole directive.
pub struct Item {
    pub kind: ItemKind,
    pub span: Span,
}

/// A parsed translation unit: its top-level items in document order.
pub struct SourceUnit {
    pub items: Vec<Item>,
}

/// Spec-level shape of a pragma payload.
pub enum PragmaTokensV {
    Version { name: Seq<char>, name_span: Span, req: Seq<char> },
    Custom { name: Seq<char>, value: Option<Seq<char>> },
    Verbatim,
}

/// Spec-level shape of an item.
pub enum ItemKindV {
    Pragma(PragmaTokensV),
    Import { path: Seq<char> },
    Other,
}

/// Spec-level item with its span.
pub struct ItemV {
    pub kind: ItemKindV,
    pub span: Span,
}

impl View for PragmaTokens {
    type V = PragmaTokensV;

    open spec fn view(&self) -> PragmaTokensV {
        match self {
            PragmaTokens::Version(id, req) => PragmaTokensV::Version {
                name: id.name@,
                name_span: id.span,
                req: req@,
            },
            PragmaTokens::Custom(name, value) => PragmaTokensV::Custom {
                name: name@,
                value: match value {
                    Some(v) => Some(v@),
                    None => None,
                },
            },
            PragmaTokens::Verbatim => PragmaTokensV::Verbatim,
        }
    }
}

impl View for Item {
    type V = ItemV;

    open spec fn view(&self) -> ItemV {
        ItemV {
            kind: match &self.kind {
                ItemKind::Pragma(p) => ItemKindV::Pragma(p.tokens@),
                ItemKind::Import(im) => ItemKindV::Import { path: im.path@ },
                ItemKind::Other => ItemKindV::Other,
            },
            span: self.span,
        }
    }
}

impl View for SourceUnit {
    type V = Seq<ItemV>;

    open spec fn view(&self) -> Seq<ItemV> {
        self.items@.map_values(|it: Item| it@)
    }
}

} // verus!
