//! The syntax model the core works on.
//!
//! A parser collaborator turns one source file into a `FileAst`: the
//! top-level declarations (recursively, for inline modules) and the flat
//! stream of reference sites its expressions and types contain, in the
//! order a depth-first walk of the file meets them. Lines and columns are
//! 1-indexed.

use vstd::prelude::*;

use crate::paths::Vis;

verus! {

/// A source position: 1-indexed line and column.
#[derive(Clone, Copy, PartialEq, Eq, Structural, Debug)]
pub struct Span {
    pub line: usize,
    pub col: usize,
}

/// A named field of a record declaration.
pub struct AstField {
    pub name: String,
    pub vis: Vis,
}

/// A variant of a sum-type declaration.
pub struct AstVariant {
    pub name: String,
    pub field_count: usize,
    pub is_named_fields: bool,
    pub fields: Vec<AstField>,
}

/// A method of an impl block.
pub struct AstMethod {
    pub name: String,
    pub vis: Vis,
    /// Parameter count, the receiver excluded.
    pub param_count: usize,
    pub has_self: bool,
}

/// One import declaration's tree, as written.
pub enum UseTree {
    /// A path segment followed by the rest of the tree.
    Prefix { segment: String, rest: Box<UseTree> },
    /// A leaf importing `ident`.
    Leaf { ident: String, span: Span },
    /// A leaf importing `ident` under the bound name `alias`.
    RenameLeaf { ident: String, alias: String, span: Span },
    /// A wildcard leaf.
    Glob,
    /// A braced group of subtrees.
    Group { trees: Vec<UseTree> },
}

/// One top-level (or inline-module) declaration.
pub enum AstItem {
    StructDecl { name: String, vis: Vis, fields: Vec<AstField> },
    EnumDecl { name: String, vis: Vis, variants: Vec<AstVariant> },
    TraitDecl { name: String, vis: Vis },
    FnDecl { name: String, vis: Vis, param_count: usize },
    TypeAliasDecl { name: String, vis: Vis },
    ConstDecl { name: String, vis: Vis },
    StaticDecl { name: String, vis: Vis },
    /// A child-module declaration, inline (`body` present) or backed by
    /// its own file (`body` absent).
    ModDecl { name: String, vis: Vis, body: Option<Vec<AstItem>>, span: Span },
    /// An import declaration; `span` is the position of its keyword.
    UseDecl { tree: UseTree, vis: Vis, span: Span },
    /// An impl block; `self_ty` is the bare name of the implemented type,
    /// where the parser could give one.
    ImplDecl { self_ty: Option<String>, is_trait_impl: bool, methods: Vec<AstMethod> },
    /// A macro definition, named or not.
    MacroDecl { name: Option<String> },
    /// A declaration kind the model does not cover; ignored silently.
    OtherItem,
}

/// A field name supplied in a record literal.
pub struct ProvidedField {
    pub name: String,
    pub span: Span,
}

/// One reference site met while walking a file's expressions and types.
pub enum RefSite {
    /// A record-literal construction: `Name { field: .., .. }`.
    RecordLit { ty_name: String, provided: Vec<ProvidedField>, has_rest: bool, span: Span },
    /// A direct call whose callee is a plain path; `callee` is the last
    /// path segment.
    CallExpr { callee: String, arg_count: usize, span: Span },
    /// A path expression; one span per segment.
    PathExprRef { segments: Vec<String>, spans: Vec<Span> },
    /// A single-segment type path without a qualified self type.
    TypePathRef { name: String, span: Span },
}

/// One parsed file: its declarations and its reference sites.
pub struct FileAst {
    pub items: Vec<AstItem>,
    pub refs: Vec<RefSite>,
}

} // verus!
