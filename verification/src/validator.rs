//! The validation engine: four checks over one file's syntax model,
//! against the whole-package symbol table.
//!
//! In order: child-module declarations must have backing files; imports
//! of package paths must resolve to visible items; record literals must
//! supply exactly their type's fields; calls, sum-type member accesses
//! and capitalized single names must agree with the declarations in
//! scope. Every check stays silent when evidence is incomplete: a name
//! that may come from outside the package is never flagged.

use vstd::prelude::*;
use vstd::string::*;

use crate::ast::AstItem;
use crate::ast::FileAst;
use crate::ast::ProvidedField;
use crate::ast::RefSite;
use crate::ast::Span;
use crate::ast::UseTree;
use crate::diagnostics::Diagnostic;
use crate::diagnostics::DiagV;
use crate::diagnostics::Fix;
use crate::diagnostics::FixV;
use crate::diagnostics::Severity;
use crate::discovery::spec_resolve_mod_file;
use crate::paths::clone_strings;
use crate::paths::join_segments;
use crate::paths::join_strings;
use crate::paths::lemma_deep_append;
use crate::paths::lemma_deep_push;
use crate::paths::spec_accessible;
use crate::paths::str_eq_str;
use crate::paths::ModulePath;
use crate::paths::Vis;
use crate::scope::find_anywhere;
use crate::scope::find_similar_in_module;
use crate::scope::first_in_scope_with_kind;
use crate::scope::in_scope_any;
use crate::scope::items_similar;
use crate::scope::names_in_scope;
use crate::scope::scope_find_kind;
use crate::scope::scope_has_name;
use crate::scope::spec_find_anywhere;
use crate::scope::spec_is_crate_path;
use crate::scope::spec_names_in_scope;
use crate::scope::spec_resolve_use_path;
use crate::scope::variants_similar;
use crate::symbols::first_item_named;
use crate::symbols::spec_find_methods;
use crate::symbols::spec_lookup;
use crate::symbols::FieldV;
use crate::symbols::ItemInfo;
use crate::symbols::ItemKind;
use crate::symbols::ItemV;
use crate::symbols::SymbolTable;
use crate::symbols::TableV;
use crate::symbols::UseV;
use crate::symbols::VariantV;
use crate::text::dec_str;
use crate::text::starts_uppercase;
use crate::text::starts_with_chars;
use crate::text::trim_start;
use crate::text::usize_to_string;

verus! {

/// An error diagnostic at `sp`.
pub open spec fn err_diag(
    file: Seq<char>,
    sp: Span,
    message: Seq<char>,
    code: Seq<char>,
    hint: Option<Seq<char>>,
    fix: Option<FixV>,
) -> DiagV {
    DiagV {
        severity: Severity::Error,
        file: file,
        line: sp.line,
        column: sp.col,
        message: message,
        error_code: Option::Some(code),
        hint: hint,
        fix: fix,
    }
}

/// A suggestion diagnostic at `sp`.
pub open spec fn sugg_diag(
    file: Seq<char>,
    sp: Span,
    message: Seq<char>,
    code: Seq<char>,
    hint: Option<Seq<char>>,
    fix: Option<FixV>,
) -> DiagV {
    DiagV {
        severity: Severity::Suggestion,
        file: file,
        line: sp.line,
        column: sp.col,
        message: message,
        error_code: Option::Some(code),
        hint: hint,
        fix: fix,
    }
}

/// Three-part concatenation.
fn msg3(p1: &str, m1: &str, p2: &str) -> (r: String)
    ensures
        r@ == p1@ + m1@ + p2@,
{
    let mut s = p1.to_owned();
    s.append(m1);
    s.append(p2);
    s
}

/// Five-part concatenation.
fn msg5(p1: &str, m1: &str, p2: &str, m2: &str, p3: &str) -> (r: String)
    ensures
        r@ == p1@ + m1@ + p2@ + m2@ + p3@,
{
    let mut s = p1.to_owned();
    s.append(m1);
    s.append(p2);
    s.append(m2);
    s.append(p3);
    s
}

/// Seven-part concatenation.
fn msg7(p1: &str, m1: &str, p2: &str, m2: &str, p3: &str, m3: &str, p4: &str) -> (r: String)
    ensures
        r@ == p1@ + m1@ + p2@ + m2@ + p3@ + m3@ + p4@,
{
    let mut s = p1.to_owned();
    s.append(m1);
    s.append(p2);
    s.append(m2);
    s.append(p3);
    s.append(m3);
    s.append(p4);
    s
}

/// Build an error diagnostic.
fn mk_error(file: &str, sp: Span, message: String, code: &str, hint: Option<String>, fix: Option<
    Fix,
>) -> (d: Diagnostic)
    ensures
        d.deep_view() == err_diag(file@, sp, message@, code@, hint.deep_view(), fix.deep_view()),
{
    Diagnostic {
        severity: Severity::Error,
        file: file.to_owned(),
        line: sp.line,
        column: sp.col,
        message,
        error_code: Option::Some(code.to_owned()),
        hint,
        fix,
    }
}

/// Build a suggestion diagnostic.
fn mk_suggestion(
    file: &str,
    sp: Span,
    message: String,
    code: &str,
    hint: Option<String>,
    fix: Option<Fix>,
) -> (d: Diagnostic)
    ensures
        d.deep_view() == sugg_diag(file@, sp, message@, code@, hint.deep_view(), fix.deep_view()),
{
    Diagnostic {
        severity: Severity::Suggestion,
        file: file.to_owned(),
        line: sp.line,
        column: sp.col,
        message,
        error_code: Option::Some(code.to_owned()),
        hint,
        fix,
    }
}

// ───────────────────────── check 1: module declarations ─────────────────────────

/// The diagnostics of the child-module-declaration check: a declaration
/// without an inline body and without a backing file is an error.
pub open spec fn spec_mod_decl_diags(
    items: Seq<AstItem>,
    file: Seq<char>,
    module: Seq<Seq<char>>,
    src_dir: Seq<char>,
    existing: Seq<Seq<char>>,
) -> Seq<DiagV>
    decreases items.len(),
{
    if items.len() == 0 {
        Seq::empty()
    } else {
        spec_mod_decl_diags(items.drop_last(), file, module, src_dir, existing) + match items.last() {
            AstItem::ModDecl { name, body: Option::None, span, .. } => {
                if spec_resolve_mod_file(src_dir, module, name@, existing) is None {
                    seq![
                        err_diag(
                            file,
                            span,
                            "file not found for module `"@ + name@ + "`"@,
                            "E0583"@,
                            Option::Some(
                                "expected `"@ + name@ + ".rs` or `"@ + name@ + "/mod.rs`"@,
                            ),
                            Option::None,
                        ),
                    ]
                } else {
                    Seq::empty()
                }
            },
            _ => Seq::empty(),
        }
    }
}

/// Check that every `mod` declaration without a body has a backing file.
fn check_mod_declarations(
    ast: &FileAst,
    file_path: &str,
    mod_path: &ModulePath,
    src_dir: &str,
    existing_files: &Vec<String>,
) -> (r: Vec<Diagnostic>)
    ensures
        r.deep_view() == spec_mod_decl_diags(
            ast.items@,
            file_path@,
            mod_path@,
            src_dir@,
            existing_files.deep_view(),
        ),
{
    let ghost file = file_path@;
    let ghost existing = existing_files.deep_view();
    let mut r: Vec<Diagnostic> = Vec::new();
    let mut i: usize = 0;
    while i < ast.items.len()
        invariant
            i <= ast.items@.len(),
            r.deep_view() =~= spec_mod_decl_diags(
                ast.items@.take(i as int),
                file_path@,
                mod_path@,
                src_dir@,
                existing_files.deep_view(),
            ),
        decreases ast.items@.len() - i,
    {
        proof {
            assert(ast.items@.take(i + 1).drop_last() =~= ast.items@.take(i as int));
            assert(ast.items@.take(i + 1).last() == ast.items@[i as int]);
        }
        match &ast.items[i] {
            AstItem::ModDecl { name, body: Option::None, span, .. } => {
                match crate::discovery::resolve_mod_file(
                    src_dir,
                    mod_path,
                    name.as_str(),
                    existing_files,
                ) {
                    Option::None => {
                        let message = msg3("file not found for module `", name.as_str(), "`");
                        let hint = msg5(
                            "expected `",
                            name.as_str(),
                            ".rs` or `",
                            name.as_str(),
                            "/mod.rs`",
                        );
                        let d = mk_error(
                            file_path,
                            *span,
                            message,
                            "E0583",
                            Option::Some(hint),
                            Option::None,
                        );
                        let ghost r0 = r;
                        r.push(d);
                        proof {
                            lemma_deep_push(r0, r);
                            assert(r.deep_view() =~~= spec_mod_decl_diags(
                                ast.items@.take(i + 1),
                                file_path@,
                                mod_path@,
                                src_dir@,
                                existing_files.deep_view(),
                            ));
                        }
                    },
                    Option::Some(_) => {
                        proof {
                            assert(r.deep_view() =~= spec_mod_decl_diags(
                                ast.items@.take(i + 1),
                                file_path@,
                                mod_path@,
                                src_dir@,
                                existing_files.deep_view(),
                            ));
                        }
                    },
                }
            },
            _ => {
                proof {
                    assert(r.deep_view() =~= spec_mod_decl_diags(
                        ast.items@.take(i + 1),
                        file_path@,
                        mod_path@,
                        src_dir@,
                        existing_files.deep_view(),
                    ));
                }
            },
        }
        i += 1;
    }
    proof {
        assert(ast.items@.take(ast.items@.len() as int) =~= ast.items@);
    }
    r
}

// ───────────────────────── check 2: import resolution ─────────────────────────

/// Whether some non-wildcard import of `uses` re-exports `name`.
pub open spec fn has_reexport(uses: Seq<UseV>, name: Seq<char>) -> bool {
    exists|i: int|
        0 <= i < uses.len() && !(#[trigger] uses[i]).is_glob && uses[i].vis != Vis::Private
            && uses[i].alias == name
}

/// The diagnostics for one import leaf naming `path`.
pub open spec fn spec_use_leaf_diags(
    path: Seq<Seq<char>>,
    sp: Span,
    file: Seq<char>,
    module: Seq<Seq<char>>,
    table: TableV,
    cn: Option<Seq<char>>,
) -> Seq<DiagV> {
    if !spec_is_crate_path(path, cn) || path.len() < 2 {
        Seq::empty()
    } else {
        match spec_resolve_use_path(path, module, table, cn) {
            Option::None => Seq::empty(),
            Option::Some(resolved) => {
                let item_name = resolved.last();
                let mp = resolved.drop_last();
                if item_name == "self"@ && spec_lookup(table, mp) is Some {
                    Seq::empty()
                } else {
                    match spec_lookup(table, mp) {
                        Option::Some(mi) => {
                            let item_exists = first_item_named(mi.items, item_name) is Some
                                || has_reexport(mi.uses, item_name);
                            if !item_exists {
                                if spec_lookup(table, mp.push(item_name)) is Some {
                                    Seq::empty()
                                } else {
                                    let similar = if items_similar(mi.items, item_name).len()
                                        == 1 {
                                        Option::Some(items_similar(mi.items, item_name)[0].name)
                                    } else {
                                        Option::None
                                    };
                                    seq![
                                        err_diag(
                                            file,
                                            sp,
                                            "unresolved import `"@ + join_segments(path) + "`"@,
                                            "E0432"@,
                                            match similar {
                                                Option::Some(n) => Option::Some(
                                                    "did you mean `"@ + n + "`?"@,
                                                ),
                                                Option::None => Option::None,
                                            },
                                            match similar {
                                                Option::Some(n) => Option::Some(
                                                    FixV::ReplaceLine {
                                                        file: file,
                                                        line: sp.line,
                                                        old_text: item_name,
                                                        new_text: n,
                                                    },
                                                ),
                                                Option::None => Option::None,
                                            },
                                        ),
                                    ]
                                }
                            } else {
                                match first_item_named(mi.items, item_name) {
                                    Option::Some(it) => {
                                        if !spec_accessible(it.vis, it.module, module) {
                                            seq![
                                                err_diag(
                                                    file,
                                                    sp,
                                                    "`"@ + join_segments(path) + "` is private"@,
                                                    "E0603"@,
                                                    Option::None,
                                                    Option::None,
                                                ),
                                            ]
                                        } else {
                                            Seq::empty()
                                        }
                                    },
                                    Option::None => Seq::empty(),
                                }
                            }
                        },
                        Option::None => seq![
                            err_diag(
                                file,
                                sp,
                                "unresolved module `"@ + join_segments(mp) + "`"@,
                                "E0433"@,
                                Option::None,
                                Option::None,
                            ),
                        ],
                    }
                }
            },
        }
    }
}

/// The diagnostics for a wildcard leaf over `prefix`.
pub open spec fn spec_glob_diags(
    prefix: Seq<Seq<char>>,
    use_span: Span,
    file: Seq<char>,
    table: TableV,
    cn: Option<Seq<char>>,
) -> Seq<DiagV> {
    if spec_is_crate_path(prefix, cn) && spec_lookup(table, prefix) is None && {
        let parent = prefix.drop_last();
        let last = prefix.last();
        match spec_lookup(table, parent) {
            Option::Some(m) => first_item_named(m.items, last) is None,
            Option::None => true,
        }
    } {
        seq![
            err_diag(
                file,
                use_span,
                "unresolved glob import `"@ + join_segments(prefix) + "::*`"@,
                "E0432"@,
                Option::None,
                Option::None,
            ),
        ]
    } else {
        Seq::empty()
    }
}

/// The diagnostics of one import tree, its leaves prefixed by `prefix`.
pub open spec fn spec_use_tree_diags(
    tree: UseTree,
    prefix: Seq<Seq<char>>,
    use_span: Span,
    file: Seq<char>,
    module: Seq<Seq<char>>,
    table: TableV,
    cn: Option<Seq<char>>,
) -> Seq<DiagV>
    decreases tree,
{
    match tree {
        UseTree::Prefix { segment, rest } => spec_use_tree_diags(
            *rest,
            prefix.push(segment@),
            use_span,
            file,
            module,
            table,
            cn,
        ),
        UseTree::Leaf { ident, span } => spec_use_leaf_diags(
            prefix.push(ident@),
            span,
            file,
            module,
            table,
            cn,
        ),
        UseTree::RenameLeaf { ident, span, .. } => spec_use_leaf_diags(
            prefix.push(ident@),
            span,
            file,
            module,
            table,
            cn,
        ),
        UseTree::Glob => spec_glob_diags(prefix, use_span, file, table, cn),
        UseTree::Group { trees } => spec_use_trees_diags(
            trees@,
            prefix,
            use_span,
            file,
            module,
            table,
            cn,
        ),
    }
}

/// The diagnostics of a group of import subtrees, in order.
pub open spec fn spec_use_trees_diags(
    trees: Seq<UseTree>,
    prefix: Seq<Seq<char>>,
    use_span: Span,
    file: Seq<char>,
    module: Seq<Seq<char>>,
    table: TableV,
    cn: Option<Seq<char>>,
) -> Seq<DiagV>
    decreases trees,
{
    if trees.len() == 0 {
        Seq::empty()
    } else {
        spec_use_trees_diags(trees.drop_last(), prefix, use_span, file, module, table, cn)
            + spec_use_tree_diags(trees.last(), prefix, use_span, file, module, table, cn)
    }
}

/// The diagnostics of the import check over a file's top-level items.
pub open spec fn spec_use_stmt_diags(
    items: Seq<AstItem>,
    file: Seq<char>,
    module: Seq<Seq<char>>,
    table: TableV,
    cn: Option<Seq<char>>,
) -> Seq<DiagV>
    decreases items.len(),
{
    if items.len() == 0 {
        Seq::empty()
    } else {
        spec_use_stmt_diags(items.drop_last(), file, module, table, cn) + match items.last() {
            AstItem::UseDecl { tree, span, .. } => spec_use_tree_diags(
                tree,
                Seq::empty(),
                span,
                file,
                module,
                table,
                cn,
            ),
            _ => Seq::empty(),
        }
    }
}

/// Check one import leaf.
fn check_use_leaf(
    path: &Vec<String>,
    sp: Span,
    file_path: &str,
    module: &ModulePath,
    symbols: &SymbolTable,
    crate_name: &Option<String>,
    out: &mut Vec<Diagnostic>,
)
    ensures
        final(out).deep_view() == old(out).deep_view() + spec_use_leaf_diags(
            path.deep_view(),
            sp,
            file_path@,
            module@,
            symbols@,
            crate_name.deep_view(),
        ),
{
    let ghost table = symbols@;
    let ghost cn = crate_name.deep_view();
    let ghost spec_result = spec_use_leaf_diags(path.deep_view(), sp, file_path@, module@, table, cn);
    if !crate::scope::is_crate_path(path, crate_name) || path.len() < 2 {
        proof {
            assert(out.deep_view() =~= old(out).deep_view() + spec_result);
        }
        return ;
    }
    let resolved = match crate::scope::resolve_use_path(path, module, symbols, crate_name) {
        Option::Some(v) => v,
        Option::None => {
            proof {
                assert(out.deep_view() =~= old(out).deep_view() + spec_result);
            }
            return ;
        },
    };
    let ghost rv = resolved.deep_view();
    let item_name = resolved[resolved.len() - 1].clone();
    let mut prefix = clone_strings(&resolved);
    prefix.pop();
    let mp = ModulePath { segments: prefix };
    proof {
        assert(item_name@ == rv.last());
        assert(mp@ =~= rv.drop_last());
    }

    if str_eq_str(&item_name, "self") && symbols.contains_key(&mp) {
        proof {
            assert(out.deep_view() =~= old(out).deep_view() + spec_result);
        }
        return ;
    }

    match symbols.get(&mp) {
        Option::Some(module_info) => {
            let ghost mi = module_info.deep_view();
            let item_found = symbols.find_in_module(&mp, item_name.as_str());
            let reexported = has_reexport_exec(module_info, item_name.as_str());
            let item_exists = item_found.is_some() || reexported;
            if !item_exists {
                let child_mod = mp.child(item_name.as_str());
                if symbols.contains_key(&child_mod) {
                    proof {
                        assert(out.deep_view() =~= old(out).deep_view() + spec_result);
                    }
                    return ;
                }
                let similar = find_similar_in_module(symbols, &mp, item_name.as_str());
                let joined = join_strings(path);
                let message = msg3("unresolved import `", joined.as_str(), "`");
                let (hint, fix): (Option<String>, Option<Fix>) = match similar {
                    Option::Some(correct) => {
                        let h = msg3("did you mean `", correct.as_str(), "`?");
                        let f = Fix::ReplaceLine {
                            file: file_path.to_owned(),
                            line: sp.line,
                            old_text: item_name.clone(),
                            new_text: correct,
                        };
                        (Option::Some(h), Option::Some(f))
                    },
                    Option::None => (Option::None, Option::None),
                };
                let d = mk_error(file_path, sp, message, "E0432", hint, fix);
                let ghost out0: Vec<Diagnostic> = *out;
                out.push(d);
                proof {
                    lemma_deep_push(out0, *out);
                    assert(out.deep_view() =~~= old(out).deep_view() + spec_result);
                }
            } else {
                match item_found {
                    Option::Some(item) => {
                        if !item.vis.accessible_from(&item.module, module) {
                            let joined = join_strings(path);
                            let message = msg3("`", joined.as_str(), "` is private");
                            let d = mk_error(
                                file_path,
                                sp,
                                message,
                                "E0603",
                                Option::None,
                                Option::None,
                            );
                            let ghost out0: Vec<Diagnostic> = *out;
                            out.push(d);
                            proof {
                                lemma_deep_push(out0, *out);
                                assert(out.deep_view() =~~= old(out).deep_view() + spec_result);
                            }
                        } else {
                            proof {
                                assert(out.deep_view() =~= old(out).deep_view() + spec_result);
                            }
                        }
                    },
                    Option::None => {
                        proof {
                            assert(out.deep_view() =~= old(out).deep_view() + spec_result);
                        }
                    },
                }
            }
        },
        Option::None => {
            let joined = join_strings(&mp.segments);
            let message = msg3("unresolved module `", joined.as_str(), "`");
            let d = mk_error(file_path, sp, message, "E0433", Option::None, Option::None);
            let ghost out0: Vec<Diagnostic> = *out;
            out.push(d);
            proof {
                lemma_deep_push(out0, *out);
                assert(out.deep_view() =~~= old(out).deep_view() + spec_result);
            }
        },
    }
}

/// Whether the module's imports re-export `name`.
fn has_reexport_exec(module_info: &crate::symbols::ModuleInfo, name: &str) -> (r: bool)
    ensures
        r == has_reexport(module_info.deep_view().uses, name@),
{
    let ghost uses = module_info.deep_view().uses;
    let mut i: usize = 0;
    while i < module_info.uses.len()
        invariant
            i <= module_info.uses@.len(),
            uses == module_info.deep_view().uses,
            forall|j: int|
                0 <= j < i ==> !(!(#[trigger] uses[j]).is_glob && uses[j].vis != Vis::Private
                    && uses[j].alias == name@),
        decreases module_info.uses@.len() - i,
    {
        proof {
            assert(uses[i as int] == module_info.uses@[i as int].deep_view());
        }
        let u = &module_info.uses[i];
        if !u.is_glob && !matches!(u.vis, Vis::Private) && str_eq_str(&u.alias, name) {
            proof {
                assert(has_reexport(uses, name@));
            }
            return true;
        }
        i += 1;
    }
    false
}

/// Check one import tree, leaves prefixed by `prefix`.
fn check_use_tree(
    tree: &UseTree,
    prefix: &Vec<String>,
    use_span: Span,
    file_path: &str,
    module: &ModulePath,
    symbols: &SymbolTable,
    crate_name: &Option<String>,
    out: &mut Vec<Diagnostic>,
)
    ensures
        final(out).deep_view() == old(out).deep_view() + spec_use_tree_diags(
            *tree,
            prefix.deep_view(),
            use_span,
            file_path@,
            module@,
            symbols@,
            crate_name.deep_view(),
        ),
    decreases *tree,
{
    let ghost table = symbols@;
    let ghost cn = crate_name.deep_view();
    match tree {
        UseTree::Prefix { segment, rest } => {
            let mut p2 = clone_strings(prefix);
            let ghost p2_before = p2;
            p2.push(segment.clone());
            proof {
                lemma_deep_push(p2_before, p2);
                assert(p2.deep_view() =~= prefix.deep_view().push(segment@));
            }
            check_use_tree(&**rest, &p2, use_span, file_path, module, symbols, crate_name, out);
        },
        UseTree::Leaf { ident, span } => {
            let mut full = clone_strings(prefix);
            let ghost f0 = full;
            full.push(ident.clone());
            proof {
                lemma_deep_push(f0, full);
                assert(full.deep_view() =~= prefix.deep_view().push(ident@));
            }
            check_use_leaf(&full, *span, file_path, module, symbols, crate_name, out);
        },
        UseTree::RenameLeaf { ident, span, .. } => {
            let mut full = clone_strings(prefix);
            let ghost f0 = full;
            full.push(ident.clone());
            proof {
                lemma_deep_push(f0, full);
                assert(full.deep_view() =~= prefix.deep_view().push(ident@));
            }
            check_use_leaf(&full, *span, file_path, module, symbols, crate_name, out);
        },
        UseTree::Glob => {
            let ghost spec_result = spec_glob_diags(
                prefix.deep_view(),
                use_span,
                file_path@,
                table,
                cn,
            );
            if crate::scope::is_crate_path(prefix, crate_name) {
                let mod_path = ModulePath { segments: clone_strings(prefix) };
                if !symbols.contains_key(&mod_path) {
                    let mut parent_segs = clone_strings(prefix);
                    let last_opt = parent_segs.pop();
                    let parent = ModulePath { segments: parent_segs };
                    let last = match last_opt {
                        Option::Some(l) => l,
                        Option::None => String::new(),
                    };
                    proof {
                        assert(prefix.deep_view().len() > 0);
                        assert(parent@ =~= prefix.deep_view().drop_last());
                        assert(last@ == prefix.deep_view().last());
                    }
                    if symbols.find_in_module(&parent, last.as_str()).is_none() {
                        let joined = join_strings(prefix);
                        let message = msg3("unresolved glob import `", joined.as_str(), "::*`");
                        let d = mk_error(
                            file_path,
                            use_span,
                            message,
                            "E0432",
                            Option::None,
                            Option::None,
                        );
                        let ghost out0: Vec<Diagnostic> = *out;
                        out.push(d);
                        proof {
                            lemma_deep_push(out0, *out);
                            assert(out.deep_view() =~~= old(out).deep_view() + spec_result);
                        }
                    } else {
                        proof {
                            assert(out.deep_view() =~= old(out).deep_view() + spec_result);
                        }
                    }
                } else {
                    proof {
                        assert(out.deep_view() =~= old(out).deep_view() + spec_result);
                    }
                }
            } else {
                proof {
                    assert(out.deep_view() =~= old(out).deep_view() + spec_result);
                }
            }
        },
        UseTree::Group { trees } => {
            let ghost out_base = out.deep_view();
            let mut i: usize = 0;
            while i < trees.len()
                invariant
                    i <= trees@.len(),
                    *tree == (UseTree::Group { trees: *trees }),
                    table == symbols@,
                    cn == crate_name.deep_view(),
                    out.deep_view() =~= out_base + spec_use_trees_diags(
                        trees@.take(i as int),
                        prefix.deep_view(),
                        use_span,
                        file_path@,
                        module@,
                        table,
                        cn,
                    ),
                decreases trees@.len() - i,
            {
                proof {
                    assert(decreases_to!(*tree => tree->trees));
                    assert(decreases_to!(*tree => tree->trees@[i as int]));
                }
                check_use_tree(
                    &trees[i],
                    prefix,
                    use_span,
                    file_path,
                    module,
                    symbols,
                    crate_name,
                    out,
                );
                proof {
                    let t1 = trees@.take(i + 1);
                    assert(t1.drop_last() =~= trees@.take(i as int));
                    assert(t1.last() == trees@[i as int]);
                }
                i += 1;
            }
            proof {
                assert(trees@.take(trees@.len() as int) =~= trees@);
            }
        },
    }
}

/// Check every top-level import declaration of the file.
fn check_use_statements(
    ast: &FileAst,
    file_path: &str,
    module: &ModulePath,
    symbols: &SymbolTable,
    crate_name: &Option<String>,
) -> (r: Vec<Diagnostic>)
    ensures
        r.deep_view() == spec_use_stmt_diags(
            ast.items@,
            file_path@,
            module@,
            symbols@,
            crate_name.deep_view(),
        ),
{
    let mut r: Vec<Diagnostic> = Vec::new();
    let mut i: usize = 0;
    while i < ast.items.len()
        invariant
            i <= ast.items@.len(),
            r.deep_view() =~= spec_use_stmt_diags(
                ast.items@.take(i as int),
                file_path@,
                module@,
                symbols@,
                crate_name.deep_view(),
            ),
        decreases ast.items@.len() - i,
    {
        proof {
            assert(ast.items@.take(i + 1).drop_last() =~= ast.items@.take(i as int));
            assert(ast.items@.take(i + 1).last() == ast.items@[i as int]);
        }
        match &ast.items[i] {
            AstItem::UseDecl { tree, span, .. } => {
                let prefix: Vec<String> = Vec::new();
                proof {
                    assert(prefix.deep_view() =~= Seq::<Seq<char>>::empty());
                }
                check_use_tree(tree, &prefix, *span, file_path, module, symbols, crate_name, &mut r);
            },
            _ => {},
        }
        i += 1;
    }
    proof {
        assert(ast.items@.take(ast.items@.len() as int) =~= ast.items@);
    }
    r
}

// ───────────────────────── checks 3-6: reference sites ─────────────────────────

/// Whether some supplied field bears `name`.
pub open spec fn provided_has(provided: Seq<ProvidedField>, name: Seq<char>) -> bool {
    exists|i: int| 0 <= i < provided.len() && (#[trigger] provided[i]).name@ == name
}

/// Whether some declared field bears `name`.
pub open spec fn fields_have(fields: Seq<FieldV>, name: Seq<char>) -> bool {
    exists|i: int| 0 <= i < fields.len() && (#[trigger] fields[i]).name == name
}

/// Whether some declared variant bears `name`.
pub open spec fn variants_have(variants: Seq<VariantV>, name: Seq<char>) -> bool {
    exists|i: int| 0 <= i < variants.len() && (#[trigger] variants[i]).name == name
}

/// Whether some inherent method of `ty_name` bears `member`.
pub open spec fn method_named_exists(t: TableV, ty_name: Seq<char>, member: Seq<char>) -> bool {
    exists|i: int|
        0 <= i < spec_find_methods(t, ty_name).len() && (#[trigger] spec_find_methods(t, ty_name)[i]).1.name
            == member
}

/// One missing-field error per declared field the literal leaves out.
pub open spec fn spec_missing_field_diags(
    fields: Seq<FieldV>,
    provided: Seq<ProvidedField>,
    ty_name: Seq<char>,
    sp: Span,
    file: Seq<char>,
) -> Seq<DiagV>
    decreases fields.len(),
{
    if fields.len() == 0 {
        Seq::empty()
    } else {
        spec_missing_field_diags(fields.drop_last(), provided, ty_name, sp, file) + if !provided_has(
            provided,
            fields.last().name,
        ) {
            seq![
                err_diag(
                    file,
                    sp,
                    "missing field `"@ + fields.last().name + "` in initializer of `"@ + ty_name
                        + "`"@,
                    "E0063"@,
                    Option::None,
                    Option::None,
                ),
            ]
        } else {
            Seq::empty()
        }
    }
}

/// One unknown-field error per supplied name the type does not declare.
pub open spec fn spec_unknown_field_diags(
    provided: Seq<ProvidedField>,
    fields: Seq<FieldV>,
    ty_name: Seq<char>,
    file: Seq<char>,
) -> Seq<DiagV>
    decreases provided.len(),
{
    if provided.len() == 0 {
        Seq::empty()
    } else {
        spec_unknown_field_diags(provided.drop_last(), fields, ty_name, file) + if !fields_have(
            fields,
            provided.last().name@,
        ) {
            seq![
                err_diag(
                    file,
                    provided.last().span,
                    "struct `"@ + ty_name + "` has no field named `"@ + provided.last().name@
                        + "`"@,
                    "E0609"@,
                    Option::None,
                    Option::None,
                ),
            ]
        } else {
            Seq::empty()
        }
    }
}

/// The diagnostics of one record literal: nothing when the type is not
/// a record type in scope or a rest-spread fills the gaps; otherwise the
/// missing-field errors, then the unknown-field errors.
pub open spec fn spec_record_lit_diags(
    ty_name: Seq<char>,
    provided: Seq<ProvidedField>,
    has_rest: bool,
    sp: Span,
    scope: Seq<(Seq<char>, ItemV)>,
    file: Seq<char>,
) -> Seq<DiagV> {
    match first_in_scope_with_kind(scope, ty_name, ItemKind::Struct) {
        Option::Some(item) => if has_rest {
            Seq::empty()
        } else {
            spec_missing_field_diags(item.fields, provided, ty_name, sp, file)
                + spec_unknown_field_diags(provided, item.fields, ty_name, file)
        },
        Option::None => Seq::empty(),
    }
}

/// The diagnostics of one direct call: an arity error when the callee
/// is a function in scope with a known parameter count that differs
/// from the supplied argument count.
pub open spec fn spec_call_diags(
    callee: Seq<char>,
    arg_count: usize,
    sp: Span,
    scope: Seq<(Seq<char>, ItemV)>,
    file: Seq<char>,
) -> Seq<DiagV> {
    match first_in_scope_with_kind(scope, callee, ItemKind::Function) {
        Option::Some(item) => match item.param_count {
            Option::Some(expected) => if arg_count != expected {
                seq![
                    err_diag(
                        file,
                        sp,
                        "function `"@ + callee + "` takes "@ + dec_str(expected as int)
                            + " argument(s) but "@ + dec_str(arg_count as int)
                            + " were supplied"@,
                        "E0061"@,
                        Option::None,
                        Option::None,
                    ),
                ]
            } else {
                Seq::empty()
            },
            Option::None => Seq::empty(),
        },
        Option::None => Seq::empty(),
    }
}

/// The diagnostics of one `Type::Member` access: an unknown-variant
/// error when the type is a sum type in scope, the member is none of
/// its variants, and no inherent method of that name exists either.
pub open spec fn spec_variant_diags(
    ty_name: Seq<char>,
    member: Seq<char>,
    sp: Span,
    scope: Seq<(Seq<char>, ItemV)>,
    table: TableV,
    file: Seq<char>,
) -> Seq<DiagV> {
    match first_in_scope_with_kind(scope, ty_name, ItemKind::Enum) {
        Option::Some(item) => if variants_have(item.variants, member) {
            Seq::empty()
        } else if method_named_exists(table, ty_name, member) {
            Seq::empty()
        } else {
            seq![
                err_diag(
                    file,
                    sp,
                    "no variant `"@ + member + "` in enum `"@ + ty_name + "`"@,
                    "E0599"@,
                    if variants_similar(item.variants, member).len() == 1 {
                        Option::Some(
                            "did you mean `"@ + variants_similar(item.variants, member)[0].name
                                + "`?"@,
                        )
                    } else {
                        Option::None
                    },
                    Option::None,
                ),
            ]
        },
        Option::None => Seq::empty(),
    }
}

/// The locations of candidate items, joined for a hint.
pub open spec fn joined_locations(cands: Seq<(Seq<Seq<char>>, ItemV)>) -> Seq<char>
    decreases cands.len(),
{
    if cands.len() == 0 {
        Seq::empty()
    } else if cands.len() == 1 {
        join_segments(cands[0].0)
    } else {
        joined_locations(cands.drop_last()) + "` or `"@ + join_segments(cands.last().0)
    }
}

/// The diagnostics of one capitalized single-segment name that is not
/// in scope: silence when the package declares no item of that name; a
/// suggestion with an import fix when it declares exactly one; a
/// suggestion listing the candidates when it declares several.
pub open spec fn spec_name_diags(
    name: Seq<char>,
    sp: Span,
    scope: Seq<(Seq<char>, ItemV)>,
    table: TableV,
    file: Seq<char>,
    insert_line: usize,
) -> Seq<DiagV> {
    if in_scope_any(scope, name) {
        Seq::empty()
    } else {
        let cands = spec_find_anywhere(table, name);
        if cands.len() == 0 {
            Seq::empty()
        } else if cands.len() == 1 {
            seq![
                sugg_diag(
                    file,
                    sp,
                    "cannot find `"@ + name + "` in this scope"@,
                    "E0412"@,
                    Option::Some(
                        "add `use "@ + join_segments(cands[0].0) + "::"@ + name + ";`"@,
                    ),
                    Option::Some(
                        FixV::InsertLine {
                            file: file,
                            line: insert_line,
                            content: "use "@ + join_segments(cands[0].0) + "::"@ + name + ";\n"@,
                        },
                    ),
                ),
            ]
        } else {
            seq![
                sugg_diag(
                    file,
                    sp,
                    "cannot find `"@ + name + "` in this scope"@,
                    "E0412"@,
                    Option::Some(
                        "did you mean `"@ + name + "` from `"@ + joined_locations(cands) + "`?"@,
                    ),
                    Option::None,
                ),
            ]
        }
    }
}

/// The diagnostics of one reference site.
pub open spec fn spec_site_diags(
    site: RefSite,
    scope: Seq<(Seq<char>, ItemV)>,
    table: TableV,
    file: Seq<char>,
    insert_line: usize,
) -> Seq<DiagV> {
    match site {
        RefSite::RecordLit { ty_name, provided, has_rest, span } => spec_record_lit_diags(
            ty_name@,
            provided@,
            has_rest,
            span,
            scope,
            file,
        ),
        RefSite::CallExpr { callee, arg_count, span } => spec_call_diags(
            callee@,
            arg_count,
            span,
            scope,
            file,
        ),
        RefSite::PathExprRef { segments, spans } => (
        if segments@.len() == 2 && spans@.len() == 2 {
            spec_variant_diags(segments@[0]@, segments@[1]@, spans@[1], scope, table, file)
        } else {
            Seq::empty()
        }) + (if segments@.len() == 1 && spans@.len() == 1 && starts_uppercase(segments@[0]@) {
            spec_name_diags(segments@[0]@, spans@[0], scope, table, file, insert_line)
        } else {
            Seq::empty()
        }),
        RefSite::TypePathRef { name, span } => if starts_uppercase(name@) {
            spec_name_diags(name@, span, scope, table, file, insert_line)
        } else {
            Seq::empty()
        },
    }
}

/// The diagnostics of every reference site of the file, in order.
pub open spec fn spec_ref_diags(
    refs: Seq<RefSite>,
    scope: Seq<(Seq<char>, ItemV)>,
    table: TableV,
    file: Seq<char>,
    insert_line: usize,
) -> Seq<DiagV>
    decreases refs.len(),
{
    if refs.len() == 0 {
        Seq::empty()
    } else {
        spec_ref_diags(refs.drop_last(), scope, table, file, insert_line) + spec_site_diags(
            refs.last(),
            scope,
            table,
            file,
            insert_line,
        )
    }
}

// ───────────────────────── laws of the checks ─────────────────────────

/// A literal that supplies every declared field is never missing one.
proof fn lemma_missing_empty(
    fields: Seq<FieldV>,
    provided: Seq<ProvidedField>,
    ty_name: Seq<char>,
    sp: Span,
    file: Seq<char>,
)
    requires
        forall|i: int| 0 <= i < fields.len() ==> provided_has(provided, (#[trigger] fields[i]).name),
    ensures
        spec_missing_field_diags(fields, provided, ty_name, sp, file) == Seq::<DiagV>::empty(),
    decreases fields.len(),
{
    if fields.len() > 0 {
        lemma_missing_empty(fields.drop_last(), provided, ty_name, sp, file);
        assert(provided_has(provided, fields.last().name));
        assert(spec_missing_field_diags(fields, provided, ty_name, sp, file) =~= Seq::<
            DiagV,
        >::empty());
    }
}

/// A literal that supplies only declared fields never names an unknown
/// one.
proof fn lemma_unknown_empty(
    provided: Seq<ProvidedField>,
    fields: Seq<FieldV>,
    ty_name: Seq<char>,
    file: Seq<char>,
)
    requires
        forall|i: int|
            0 <= i < provided.len() ==> fields_have(fields, (#[trigger] provided[i]).name@),
    ensures
        spec_unknown_field_diags(provided, fields, ty_name, file) == Seq::<DiagV>::empty(),
    decreases provided.len(),
{
    if provided.len() > 0 {
        lemma_unknown_empty(provided.drop_last(), fields, ty_name, file);
        assert(fields_have(fields, provided.last().name@));
        assert(spec_unknown_field_diags(provided, fields, ty_name, file) =~= Seq::<
            DiagV,
        >::empty());
    }
}

/// Constructing a record type with exactly its declared fields — each
/// declared field supplied, nothing else supplied, in any order —
/// produces no missing-field and no unknown-field diagnostic.
pub proof fn lemma_exact_fields_silent(
    ty_name: Seq<char>,
    provided: Seq<ProvidedField>,
    has_rest: bool,
    sp: Span,
    scope: Seq<(Seq<char>, ItemV)>,
    file: Seq<char>,
)
    requires
        match first_in_scope_with_kind(scope, ty_name, ItemKind::Struct) {
            Option::Some(item) => {
                &&& forall|i: int|
                    0 <= i < item.fields.len() ==> provided_has(
                        provided,
                        (#[trigger] item.fields[i]).name,
                    )
                &&& forall|i: int|
                    0 <= i < provided.len() ==> fields_have(
                        item.fields,
                        (#[trigger] provided[i]).name@,
                    )
            },
            Option::None => true,
        },
    ensures
        spec_record_lit_diags(ty_name, provided, has_rest, sp, scope, file) == Seq::<
            DiagV,
        >::empty(),
{
    match first_in_scope_with_kind(scope, ty_name, ItemKind::Struct) {
        Option::Some(item) => {
            if !has_rest {
                lemma_missing_empty(item.fields, provided, ty_name, sp, file);
                lemma_unknown_empty(provided, item.fields, ty_name, file);
                assert(spec_record_lit_diags(ty_name, provided, has_rest, sp, scope, file) =~= Seq::<
                    DiagV,
                >::empty());
            }
        },
        Option::None => {},
    }
}

/// A literal with a rest-spread produces no field diagnostic at all —
/// no missing-field one in particular — even when it supplies nothing.
pub proof fn lemma_rest_spread_silent(
    ty_name: Seq<char>,
    provided: Seq<ProvidedField>,
    sp: Span,
    scope: Seq<(Seq<char>, ItemV)>,
    file: Seq<char>,
)
    ensures
        spec_record_lit_diags(ty_name, provided, true, sp, scope, file) == Seq::<DiagV>::empty(),
{
}

/// The wrong-arity error fires exactly when the callee resolves in
/// scope to a function of known parameter count and the supplied
/// argument count differs from it — whatever the declared count. A call
/// with exactly the declared count never fires it.
pub proof fn lemma_arity_iff(
    callee: Seq<char>,
    arg_count: usize,
    sp: Span,
    scope: Seq<(Seq<char>, ItemV)>,
    file: Seq<char>,
)
    ensures
        spec_call_diags(callee, arg_count, sp, scope, file).len() != 0 <==> (match first_in_scope_with_kind(
            scope,
            callee,
            ItemKind::Function,
        ) {
            Option::Some(item) => match item.param_count {
                Option::Some(expected) => arg_count != expected,
                Option::None => false,
            },
            Option::None => false,
        }),
        (match first_in_scope_with_kind(scope, callee, ItemKind::Function) {
            Option::Some(item) => item.param_count == Option::Some(arg_count),
            Option::None => false,
        }) ==> spec_call_diags(callee, arg_count, sp, scope, file) == Seq::<DiagV>::empty(),
{
    match first_in_scope_with_kind(scope, callee, ItemKind::Function) {
        Option::Some(item) => {
            match item.param_count {
                Option::Some(expected) => {
                    if arg_count == expected {
                        assert(spec_call_diags(callee, arg_count, sp, scope, file) =~= Seq::<
                            DiagV,
                        >::empty());
                    }
                },
                Option::None => {},
            }
        },
        Option::None => {},
    }
}

/// The external-and-macro-silence guarantee: a capitalized single name
/// that matches no item anywhere in the package produces no diagnostic,
/// whether or not it is in scope.
pub proof fn lemma_unknown_name_silent(
    name: Seq<char>,
    sp: Span,
    scope: Seq<(Seq<char>, ItemV)>,
    table: TableV,
    file: Seq<char>,
    insert_line: usize,
)
    requires
        spec_find_anywhere(table, name) == Seq::<(Seq<Seq<char>>, ItemV)>::empty(),
    ensures
        spec_name_diags(name, sp, scope, table, file, insert_line) == Seq::<DiagV>::empty(),
{
}

/// Every similar item is one of the items.
proof fn lemma_similar_is_member(items: Seq<ItemV>, name: Seq<char>, k: int)
    requires
        0 <= k < items_similar(items, name).len(),
    ensures
        exists|i: int|
            0 <= i < items.len() && #[trigger] items[i] == items_similar(items, name)[k],
    decreases items.len(),
{
    if items.len() > 0 {
        let filtered = items_similar(items, name);
        let prev = items_similar(items.drop_last(), name);
        if k < prev.len() {
            lemma_similar_is_member(items.drop_last(), name, k);
            let i = choose|i: int|
                0 <= i < items.drop_last().len() && #[trigger] items.drop_last()[i] == prev[k];
            assert(items[i] == prev[k]);
        } else {
            assert(items[items.len() - 1] == filtered[k]);
        }
    }
}

/// A name some item bears is always found.
proof fn lemma_first_named_some(items: Seq<ItemV>, name: Seq<char>)
    requires
        exists|i: int| 0 <= i < items.len() && (#[trigger] items[i]).name == name,
    ensures
        first_item_named(items, name) is Some,
    decreases items.len(),
{
    if items.len() > 0 {
        if items[0].name == name {
        } else {
            let i = choose|i: int| 0 <= i < items.len() && (#[trigger] items[i]).name == name;
            assert(items.drop_first()[i - 1].name == name);
            lemma_first_named_some(items.drop_first(), name);
        }
    }
}

/// Renaming an import path's leaf resolves through the same module.
proof fn lemma_resolve_update_last(
    path: Seq<Seq<char>>,
    n: Seq<char>,
    module: Seq<Seq<char>>,
    table: TableV,
    cn: Option<Seq<char>>,
)
    requires
        path.len() >= 2,
        module.len() >= 1,
        spec_resolve_use_path(path, module, table, cn) is Some,
    ensures
        ({
            let updated = path.update(path.len() - 1, n);
            let r = spec_resolve_use_path(path, module, table, cn)->0;
            let r2 = spec_resolve_use_path(updated, module, table, cn);
            &&& r2 is Some
            &&& r2->0.len() >= 2
            &&& r2->0.drop_last() == r.drop_last()
            &&& r2->0.last() == n
        }),
{
    let updated = path.update(path.len() - 1, n);
    let r = spec_resolve_use_path(path, module, table, cn)->0;
    assert(updated[0] == path[0]);
    assert(updated.len() == path.len());
    assert(updated.last() == n);
    assert(updated.drop_first() =~= path.drop_first().update(path.len() - 2, n));
    assert(updated.drop_first().last() == n);
    let first = path[0];
    let is_own = cn is Some && cn->0 == first;
    if first == "crate"@ || is_own {
        if is_own {
            let r2 = seq!["crate"@] + updated.drop_first();
            assert(r2.drop_last() =~= r.drop_last());
            assert(r2.last() == n);
        } else {
            assert(updated.drop_last() =~= r.drop_last());
        }
    } else if first == "self"@ {
        let r2 = module + updated.drop_first();
        assert(r2.drop_last() =~= r.drop_last());
        assert(r2.last() == n);
    } else if first == "super"@ {
        let r2 = module.drop_last() + updated.drop_first();
        assert(r2.drop_last() =~= r.drop_last());
        assert(r2.last() == n);
    } else {
        let cand = module.push(first);
        let r2 = cand + updated.drop_first();
        assert(r2.drop_last() =~= r.drop_last());
        assert(r2.last() == n);
    }
}

/// One direction of fix idempotence, for the rename repair: when an
/// import's leaf fails to resolve and exactly one similar item `n`
/// exists — the case in which the check attaches its replace-fix —
/// the same import with its leaf renamed to `n` resolves. Re-running
/// the check on the repaired import reports at worst that the item is
/// private, never again that it is unresolved.
pub proof fn lemma_rename_fix_resolves(
    path: Seq<Seq<char>>,
    n: Seq<char>,
    sp: Span,
    file: Seq<char>,
    module: Seq<Seq<char>>,
    table: TableV,
    cn: Option<Seq<char>>,
)
    requires
        path.len() >= 2,
        module.len() >= 1,
        match spec_resolve_use_path(path, module, table, cn) {
            Option::Some(resolved) => match spec_lookup(table, resolved.drop_last()) {
                Option::Some(mi) => items_similar(mi.items, resolved.last()).len() == 1 && n
                    == items_similar(mi.items, resolved.last())[0].name,
                Option::None => false,
            },
            Option::None => false,
        },
    ensures
        ({
            let repaired = spec_use_leaf_diags(
                path.update(path.len() - 1, n),
                sp,
                file,
                module,
                table,
                cn,
            );
            forall|i: int|
                0 <= i < repaired.len() ==> (#[trigger] repaired[i]).error_code == Option::Some(
                    "E0603"@,
                )
        }),
{
    let updated = path.update(path.len() - 1, n);
    let resolved = spec_resolve_use_path(path, module, table, cn)->0;
    let mi = spec_lookup(table, resolved.drop_last())->0;
    lemma_resolve_update_last(path, n, module, table, cn);
    let r2 = spec_resolve_use_path(updated, module, table, cn)->0;
    assert(spec_lookup(table, r2.drop_last()) == Option::Some(mi));
    lemma_similar_is_member(mi.items, resolved.last(), 0);
    let i = choose|i: int|
        0 <= i < mi.items.len() && #[trigger] mi.items[i] == items_similar(
            mi.items,
            resolved.last(),
        )[0];
    assert(mi.items[i].name == n);
    lemma_first_named_some(mi.items, n);
    assert(updated[0] == path[0]);
    if spec_is_crate_path(updated, cn) && updated.len() >= 2 {
        let repaired = spec_use_leaf_diags(updated, sp, file, module, table, cn);
        if n == "self"@ && spec_lookup(table, r2.drop_last()) is Some {
        } else {
            match first_item_named(mi.items, n) {
                Option::Some(it) => {
                    if !spec_accessible(it.vis, it.module, module) {
                        assert(repaired[0].error_code == Option::Some("E0603"@));
                    }
                },
                Option::None => {},
            }
        }
    }
}

// ───────────────────────── import-insertion position ─────────────────────────

/// Whether a line opens, whitespace ignored, with an import keyword.
pub open spec fn is_use_line(l: Seq<char>) -> bool {
    starts_with_chars(trim_start(l), "use "@)
}

/// Whether a line opens, whitespace ignored, with a module declaration.
pub open spec fn is_mod_line(l: Seq<char>) -> bool {
    starts_with_chars(trim_start(l), "mod "@) || starts_with_chars(trim_start(l), "pub mod "@)
}

/// The 1-indexed number of the last import line, or 0.
pub open spec fn last_use_line(lines: Seq<Seq<char>>) -> int
    decreases lines.len(),
{
    if lines.len() == 0 {
        0
    } else if is_use_line(lines.last()) {
        lines.len() as int
    } else {
        last_use_line(lines.drop_last())
    }
}

/// The 1-indexed number of the last module-declaration line, or 0.
pub open spec fn last_mod_line(lines: Seq<Seq<char>>) -> int
    decreases lines.len(),
{
    if lines.len() == 0 {
        0
    } else if is_mod_line(lines.last()) {
        lines.len() as int
    } else {
        last_mod_line(lines.drop_last())
    }
}

/// Where a new import line belongs: after the last import, else after
/// the last module declaration, else at the top of the file.
pub open spec fn spec_insert_line(lines: Seq<Seq<char>>) -> int {
    if last_use_line(lines) > 0 {
        last_use_line(lines) + 1
    } else if last_mod_line(lines) > 0 {
        last_mod_line(lines) + 1
    } else {
        1
    }
}

/// Compute where a new import line belongs in the file.
pub fn find_use_insert_line(source_lines: &Vec<String>) -> (r: usize)
    requires
        source_lines@.len() < usize::MAX,
    ensures
        r == spec_insert_line(source_lines.deep_view()),
{
    let ghost lines = source_lines.deep_view();
    let mut last_use: usize = 0;
    let mut last_mod: usize = 0;
    let mut i: usize = 0;
    while i < source_lines.len()
        invariant
            i <= source_lines@.len(),
            lines == source_lines.deep_view(),
            source_lines@.len() < usize::MAX,
            last_use == last_use_line(lines.take(i as int)),
            last_mod == last_mod_line(lines.take(i as int)),
            last_use <= i,
            last_mod <= i,
        decreases source_lines@.len() - i,
    {
        proof {
            assert(lines.take(i + 1).drop_last() =~= lines.take(i as int));
            assert(lines.take(i + 1).last() == source_lines@[i as int]@);
        }
        let line = &source_lines[i];
        if crate::text::line_starts_with_after_trim(line, "use ") {
            last_use = i + 1;
        }
        if crate::text::line_starts_with_after_trim(line, "mod ")
            || crate::text::line_starts_with_after_trim(line, "pub mod ") {
            last_mod = i + 1;
        }
        i += 1;
    }
    proof {
        assert(lines.take(lines.len() as int) =~= lines);
    }
    if last_use > 0 {
        last_use + 1
    } else if last_mod > 0 {
        last_mod + 1
    } else {
        1
    }
}

// ───────────────────────── executable reference checks ─────────────────────────

/// Whether the literal supplies a field named `name`.
fn provided_contains(provided: &Vec<ProvidedField>, name: &str) -> (r: bool)
    ensures
        r == provided_has(provided@, name@),
{
    let mut i: usize = 0;
    while i < provided.len()
        invariant
            i <= provided@.len(),
            forall|j: int| 0 <= j < i ==> (#[trigger] provided@[j]).name@ != name@,
        decreases provided@.len() - i,
    {
        if str_eq_str(&provided[i].name, name) {
            proof {
                assert(provided_has(provided@, name@));
            }
            return true;
        }
        i += 1;
    }
    false
}

/// Whether the declared fields include `name`.
fn fields_contain(fields: &Vec<crate::symbols::FieldInfo>, name: &String) -> (r: bool)
    ensures
        r == fields_have(fields.deep_view(), name@),
{
    let ghost fv = fields.deep_view();
    let mut i: usize = 0;
    while i < fields.len()
        invariant
            i <= fields@.len(),
            fv == fields.deep_view(),
            forall|j: int| 0 <= j < i ==> (#[trigger] fv[j]).name != name@,
        decreases fields@.len() - i,
    {
        proof {
            assert(fv[i as int] == fields@[i as int].deep_view());
        }
        if crate::paths::str_eq(&fields[i].name, name) {
            proof {
                assert(fields_have(fv, name@));
            }
            return true;
        }
        i += 1;
    }
    false
}

/// Whether the declared variants include `name`.
fn variants_contain(variants: &Vec<crate::symbols::VariantInfo>, name: &String) -> (r: bool)
    ensures
        r == variants_have(variants.deep_view(), name@),
{
    let ghost vv = variants.deep_view();
    let mut i: usize = 0;
    while i < variants.len()
        invariant
            i <= variants@.len(),
            vv == variants.deep_view(),
            forall|j: int| 0 <= j < i ==> (#[trigger] vv[j]).name != name@,
        decreases variants@.len() - i,
    {
        proof {
            assert(vv[i as int] == variants@[i as int].deep_view());
        }
        if crate::paths::str_eq(&variants[i].name, name) {
            proof {
                assert(variants_have(vv, name@));
            }
            return true;
        }
        i += 1;
    }
    false
}

/// Whether any inherent method of `ty_name` bears `member`.
fn method_exists(symbols: &SymbolTable, ty_name: &String, member: &String) -> (r: bool)
    ensures
        r == method_named_exists(symbols@, ty_name@, member@),
{
    let methods = symbols.find_methods(ty_name.as_str());
    let ghost ms = spec_find_methods(symbols@, ty_name@);
    let mut i: usize = 0;
    while i < methods.len()
        invariant
            i <= methods@.len(),
            ms == spec_find_methods(symbols@, ty_name@),
            methods.deep_view() == ms,
            forall|j: int| 0 <= j < i ==> (#[trigger] ms[j]).1.name != member@,
        decreases methods@.len() - i,
    {
        proof {
            assert(methods.deep_view().len() == methods@.len());
            assert(ms[i as int] == methods@[i as int].deep_view());
        }
        if crate::paths::str_eq(&methods[i].1.name, member) {
            proof {
                assert(spec_find_methods(symbols@, ty_name@)[i as int].1.name == member@);
                assert(method_named_exists(symbols@, ty_name@, member@));
            }
            return true;
        }
        i += 1;
    }
    false
}

/// The unique variant similar to `name`, if exactly one is.
fn variant_similar_unique(variants: &Vec<crate::symbols::VariantInfo>, name: &String) -> (r: Option<
    String,
>)
    ensures
        match r {
            Option::Some(s) => variants_similar(variants.deep_view(), name@).len() == 1
                && variants_similar(variants.deep_view(), name@)[0].name == s@,
            Option::None => variants_similar(variants.deep_view(), name@).len() != 1,
        },
{
    let ghost vv = variants.deep_view();
    let mut found: Vec<&crate::symbols::VariantInfo> = Vec::new();
    let mut i: usize = 0;
    while i < variants.len()
        invariant
            i <= variants@.len(),
            vv == variants.deep_view(),
            found.deep_view() =~= variants_similar(vv.take(i as int), name@),
        decreases variants@.len() - i,
    {
        proof {
            assert(vv.take(i + 1).drop_last() =~= vv.take(i as int));
            assert(vv.take(i + 1).last() == variants@[i as int].deep_view());
        }
        if crate::similarity::is_similar(variants[i].name.as_str(), name.as_str()) {
            let ghost f0 = found;
            found.push(&variants[i]);
            proof {
                lemma_deep_push(f0, found);
                assert(found.deep_view() =~= variants_similar(vv.take(i + 1), name@));
            }
        } else {
            proof {
                assert(variants_similar(vv.take(i + 1), name@) =~= variants_similar(
                    vv.take(i as int),
                    name@,
                ));
            }
        }
        i += 1;
    }
    proof {
        assert(vv.take(vv.len() as int) =~= vv);
    }
    if found.len() == 1 {
        proof {
            assert(found.deep_view()[0] == found@[0].deep_view());
        }
        Option::Some(found[0].name.clone())
    } else {
        Option::None
    }
}

/// Check one record literal against the record type in scope.
fn check_record_lit<'a>(
    ty_name: &String,
    provided: &Vec<ProvidedField>,
    has_rest: bool,
    sp: Span,
    scope: &Vec<(String, &'a ItemInfo)>,
    file_path: &str,
    out: &mut Vec<Diagnostic>,
)
    ensures
        final(out).deep_view() == old(out).deep_view() + spec_record_lit_diags(
            ty_name@,
            provided@,
            has_rest,
            sp,
            scope.deep_view(),
            file_path@,
        ),
{
    let ghost spec_result = spec_record_lit_diags(
        ty_name@,
        provided@,
        has_rest,
        sp,
        scope.deep_view(),
        file_path@,
    );
    let item = match scope_find_kind(scope, ty_name.as_str(), ItemKind::Struct) {
        Option::Some(it) => it,
        Option::None => {
            proof {
                assert(out.deep_view() =~= old(out).deep_view() + spec_result);
            }
            return ;
        },
    };
    if has_rest {
        proof {
            assert(out.deep_view() =~= old(out).deep_view() + spec_result);
        }
        return ;
    }
    let ghost iv = item.deep_view();
    let ghost missing = spec_missing_field_diags(iv.fields, provided@, ty_name@, sp, file_path@);
    let ghost unknown = spec_unknown_field_diags(provided@, iv.fields, ty_name@, file_path@);
    let mut i: usize = 0;
    while i < item.fields.len()
        invariant
            i <= item.fields@.len(),
            iv == item.deep_view(),
            out.deep_view() =~= old(out).deep_view() + spec_missing_field_diags(
                iv.fields.take(i as int),
                provided@,
                ty_name@,
                sp,
                file_path@,
            ),
        decreases item.fields@.len() - i,
    {
        proof {
            assert(iv.fields.take(i + 1).drop_last() =~= iv.fields.take(i as int));
            assert(iv.fields.take(i + 1).last() == item.fields@[i as int].deep_view());
        }
        let field_name = &item.fields[i].name;
        if !provided_contains(provided, field_name.as_str()) {
            let message = msg5(
                "missing field `",
                field_name.as_str(),
                "` in initializer of `",
                ty_name.as_str(),
                "`",
            );
            let d = mk_error(file_path, sp, message, "E0063", Option::None, Option::None);
            let ghost out0: Vec<Diagnostic> = *out;
            out.push(d);
            proof {
                lemma_deep_push(out0, *out);
                assert(out.deep_view() =~~= old(out).deep_view() + spec_missing_field_diags(
                    iv.fields.take(i + 1),
                    provided@,
                    ty_name@,
                    sp,
                    file_path@,
                ));
            }
        } else {
            proof {
                assert(spec_missing_field_diags(
                    iv.fields.take(i + 1),
                    provided@,
                    ty_name@,
                    sp,
                    file_path@,
                ) =~= spec_missing_field_diags(
                    iv.fields.take(i as int),
                    provided@,
                    ty_name@,
                    sp,
                    file_path@,
                ));
            }
        }
        i += 1;
    }
    proof {
        assert(iv.fields.take(iv.fields.len() as int) =~= iv.fields);
    }
    let mut k: usize = 0;
    while k < provided.len()
        invariant
            k <= provided@.len(),
            iv == item.deep_view(),
            out.deep_view() =~= old(out).deep_view() + missing + spec_unknown_field_diags(
                provided@.take(k as int),
                iv.fields,
                ty_name@,
                file_path@,
            ),
        decreases provided@.len() - k,
    {
        proof {
            assert(provided@.take(k + 1).drop_last() =~= provided@.take(k as int));
            assert(provided@.take(k + 1).last() == provided@[k as int]);
        }
        let p = &provided[k];
        if !fields_contain(&item.fields, &p.name) {
            let message = msg5(
                "struct `",
                ty_name.as_str(),
                "` has no field named `",
                p.name.as_str(),
                "`",
            );
            let d = mk_error(file_path, p.span, message, "E0609", Option::None, Option::None);
            let ghost out0: Vec<Diagnostic> = *out;
            out.push(d);
            proof {
                lemma_deep_push(out0, *out);
                assert(out.deep_view() =~~= old(out).deep_view() + missing
                    + spec_unknown_field_diags(
                    provided@.take(k + 1),
                    iv.fields,
                    ty_name@,
                    file_path@,
                ));
            }
        } else {
            proof {
                assert(spec_unknown_field_diags(
                    provided@.take(k + 1),
                    iv.fields,
                    ty_name@,
                    file_path@,
                ) =~= spec_unknown_field_diags(
                    provided@.take(k as int),
                    iv.fields,
                    ty_name@,
                    file_path@,
                ));
            }
        }
        k += 1;
    }
    proof {
        assert(provided@.take(provided@.len() as int) =~= provided@);
        assert(out.deep_view() =~= old(out).deep_view() + spec_result);
    }
}

/// Check one direct call's arity against the function in scope.
fn check_call<'a>(
    callee: &String,
    arg_count: usize,
    sp: Span,
    scope: &Vec<(String, &'a ItemInfo)>,
    file_path: &str,
    out: &mut Vec<Diagnostic>,
)
    ensures
        final(out).deep_view() == old(out).deep_view() + spec_call_diags(
            callee@,
            arg_count,
            sp,
            scope.deep_view(),
            file_path@,
        ),
{
    let ghost spec_result = spec_call_diags(callee@, arg_count, sp, scope.deep_view(), file_path@);
    let item = match scope_find_kind(scope, callee.as_str(), ItemKind::Function) {
        Option::Some(it) => it,
        Option::None => {
            proof {
                assert(out.deep_view() =~= old(out).deep_view() + spec_result);
            }
            return ;
        },
    };
    match item.param_count {
        Option::Some(expected) => {
            if arg_count != expected {
                let expected_str = usize_to_string(expected);
                let actual_str = usize_to_string(arg_count);
                let message = msg7(
                    "function `",
                    callee.as_str(),
                    "` takes ",
                    expected_str.as_str(),
                    " argument(s) but ",
                    actual_str.as_str(),
                    " were supplied",
                );
                let d = mk_error(file_path, sp, message, "E0061", Option::None, Option::None);
                let ghost out0: Vec<Diagnostic> = *out;
                out.push(d);
                proof {
                    lemma_deep_push(out0, *out);
                    assert(out.deep_view() =~~= old(out).deep_view() + spec_result);
                }
            } else {
                proof {
                    assert(out.deep_view() =~= old(out).deep_view() + spec_result);
                }
            }
        },
        Option::None => {
            proof {
                assert(out.deep_view() =~= old(out).deep_view() + spec_result);
            }
        },
    }
}

/// Check one `Type::Member` access against the sum type in scope.
fn check_variant_access<'a>(
    ty_name: &String,
    member: &String,
    sp: Span,
    scope: &Vec<(String, &'a ItemInfo)>,
    symbols: &SymbolTable,
    file_path: &str,
    out: &mut Vec<Diagnostic>,
)
    ensures
        final(out).deep_view() == old(out).deep_view() + spec_variant_diags(
            ty_name@,
            member@,
            sp,
            scope.deep_view(),
            symbols@,
            file_path@,
        ),
{
    let ghost spec_result = spec_variant_diags(
        ty_name@,
        member@,
        sp,
        scope.deep_view(),
        symbols@,
        file_path@,
    );
    let item = match scope_find_kind(scope, ty_name.as_str(), ItemKind::Enum) {
        Option::Some(it) => it,
        Option::None => {
            proof {
                assert(out.deep_view() =~= old(out).deep_view() + spec_result);
            }
            return ;
        },
    };
    if variants_contain(&item.variants, member) {
        proof {
            assert(out.deep_view() =~= old(out).deep_view() + spec_result);
        }
        return ;
    }
    if method_exists(symbols, ty_name, member) {
        proof {
            assert(out.deep_view() =~= old(out).deep_view() + spec_result);
        }
        return ;
    }
    let message = msg5("no variant `", member.as_str(), "` in enum `", ty_name.as_str(), "`");
    let hint: Option<String> = match variant_similar_unique(&item.variants, member) {
        Option::Some(s) => Option::Some(msg3("did you mean `", s.as_str(), "`?")),
        Option::None => Option::None,
    };
    let d = mk_error(file_path, sp, message, "E0599", hint, Option::None);
    let ghost out0: Vec<Diagnostic> = *out;
    out.push(d);
    proof {
        lemma_deep_push(out0, *out);
        assert(out.deep_view() =~~= old(out).deep_view() + spec_result);
    }
}

/// The candidate locations, joined for a hint.
fn join_locations(cands: &Vec<(&ModulePath, &ItemInfo)>) -> (r: String)
    ensures
        r@ == joined_locations(cands.deep_view()),
{
    let ghost cv = cands.deep_view();
    let mut out = String::new();
    let mut i: usize = 0;
    while i < cands.len()
        invariant
            i <= cands@.len(),
            cv == cands.deep_view(),
            out@ == joined_locations(cv.take(i as int)),
        decreases cands@.len() - i,
    {
        if i > 0 {
            out.append("` or `");
        }
        let d = cands[i].0.display();
        out.append(d.as_str());
        proof {
            let t = cv.take(i + 1);
            assert(t.drop_last() =~= cv.take(i as int));
            assert(t.last() == cands@[i as int].deep_view());
            assert(cands@[i as int].deep_view().0 == cands@[i as int].0@);
            if i == 0 {
                assert(out@ =~= joined_locations(cv.take(1)));
            }
        }
        i += 1;
    }
    proof {
        assert(cv.take(cv.len() as int) =~= cv);
    }
    out
}

/// Check one capitalized single-segment name that may be out of scope.
fn check_name_in_scope<'a>(
    name: &String,
    sp: Span,
    scope: &Vec<(String, &'a ItemInfo)>,
    symbols: &SymbolTable,
    file_path: &str,
    insert_line: usize,
    out: &mut Vec<Diagnostic>,
)
    ensures
        final(out).deep_view() == old(out).deep_view() + spec_name_diags(
            name@,
            sp,
            scope.deep_view(),
            symbols@,
            file_path@,
            insert_line,
        ),
{
    let ghost spec_result = spec_name_diags(
        name@,
        sp,
        scope.deep_view(),
        symbols@,
        file_path@,
        insert_line,
    );
    if scope_has_name(scope, name.as_str()) {
        proof {
            assert(out.deep_view() =~= old(out).deep_view() + spec_result);
        }
        return ;
    }
    let cands = find_anywhere(symbols, name.as_str());
    if cands.len() == 0 {
        proof {
            assert(out.deep_view() =~= old(out).deep_view() + spec_result);
        }
        return ;
    }
    let message = msg3("cannot find `", name.as_str(), "` in this scope");
    if cands.len() == 1 {
        let use_path = cands[0].0.display();
        proof {
            assert(cands.deep_view()[0] == cands@[0].deep_view());
            assert(use_path@ == join_segments(cands.deep_view()[0].0));
        }
        let hint = msg5("add `use ", use_path.as_str(), "::", name.as_str(), ";`");
        let content = msg5("use ", use_path.as_str(), "::", name.as_str(), ";\n");
        let fix = Fix::InsertLine { file: file_path.to_owned(), line: insert_line, content };
        let d = mk_suggestion(
            file_path,
            sp,
            message,
            "E0412",
            Option::Some(hint),
            Option::Some(fix),
        );
        let ghost out0: Vec<Diagnostic> = *out;
        out.push(d);
        proof {
            lemma_deep_push(out0, *out);
            assert(out.deep_view() =~~= old(out).deep_view() + spec_result);
        }
    } else {
        let locations = join_locations(&cands);
        let hint = msg5("did you mean `", name.as_str(), "` from `", locations.as_str(), "`?");
        let d = mk_suggestion(file_path, sp, message, "E0412", Option::Some(hint), Option::None);
        let ghost out0: Vec<Diagnostic> = *out;
        out.push(d);
        proof {
            lemma_deep_push(out0, *out);
            assert(out.deep_view() =~~= old(out).deep_view() + spec_result);
        }
    }
}

/// Walk the file's reference sites, in order, and run checks 3 to 6.
fn check_references<'a>(
    ast: &FileAst,
    scope: &Vec<(String, &'a ItemInfo)>,
    symbols: &SymbolTable,
    file_path: &str,
    insert_line: usize,
) -> (r: Vec<Diagnostic>)
    ensures
        r.deep_view() == spec_ref_diags(
            ast.refs@,
            scope.deep_view(),
            symbols@,
            file_path@,
            insert_line,
        ),
{
    let mut r: Vec<Diagnostic> = Vec::new();
    let mut i: usize = 0;
    while i < ast.refs.len()
        invariant
            i <= ast.refs@.len(),
            r.deep_view() =~= spec_ref_diags(
                ast.refs@.take(i as int),
                scope.deep_view(),
                symbols@,
                file_path@,
                insert_line,
            ),
        decreases ast.refs@.len() - i,
    {
        proof {
            assert(ast.refs@.take(i + 1).drop_last() =~= ast.refs@.take(i as int));
            assert(ast.refs@.take(i + 1).last() == ast.refs@[i as int]);
        }
        let ghost site = ast.refs@[i as int];
        let ghost site_result = spec_site_diags(
            site,
            scope.deep_view(),
            symbols@,
            file_path@,
            insert_line,
        );
        let ghost before = r.deep_view();
        match &ast.refs[i] {
            RefSite::RecordLit { ty_name, provided, has_rest, span } => {
                check_record_lit(ty_name, provided, *has_rest, *span, scope, file_path, &mut r);
            },
            RefSite::CallExpr { callee, arg_count, span } => {
                check_call(callee, *arg_count, *span, scope, file_path, &mut r);
            },
            RefSite::PathExprRef { segments, spans } => {
                if segments.len() == 2 && spans.len() == 2 {
                    proof {
                        assert(segments@[0]@ == segments.deep_view()[0]);
                        assert(segments@[1]@ == segments.deep_view()[1]);
                    }
                    check_variant_access(
                        &segments[0],
                        &segments[1],
                        spans[1],
                        scope,
                        symbols,
                        file_path,
                        &mut r,
                    );
                }
                if segments.len() == 1 && spans.len() == 1 {
                    if crate::text::is_capitalized(segments[0].as_str()) {
                        check_name_in_scope(
                            &segments[0],
                            spans[0],
                            scope,
                            symbols,
                            file_path,
                            insert_line,
                            &mut r,
                        );
                    } else {
                        proof {
                            assert(site_result =~= Seq::<DiagV>::empty());
                        }
                    }
                }
                proof {
                    assert(r.deep_view() =~= before + site_result);
                }
            },
            RefSite::TypePathRef { name, span } => {
                if crate::text::is_capitalized(name.as_str()) {
                    check_name_in_scope(
                        name,
                        *span,
                        scope,
                        symbols,
                        file_path,
                        insert_line,
                        &mut r,
                    );
                } else {
                    proof {
                        assert(site_result =~= Seq::<DiagV>::empty());
                        assert(r.deep_view() =~= before + site_result);
                    }
                }
            },
        }
        proof {
            assert(r.deep_view() =~= spec_ref_diags(
                ast.refs@.take(i + 1),
                scope.deep_view(),
                symbols@,
                file_path@,
                insert_line,
            ));
        }
        i += 1;
    }
    proof {
        assert(ast.refs@.take(ast.refs@.len() as int) =~= ast.refs@);
    }
    r
}

// ───────────────────────── the whole file check ─────────────────────────

/// Every diagnostic of one file, in check order: module declarations,
/// then imports, then reference sites.
pub open spec fn spec_validate_file(
    items: Seq<AstItem>,
    refs: Seq<RefSite>,
    file: Seq<char>,
    module: Seq<Seq<char>>,
    table: TableV,
    cn: Option<Seq<char>>,
    lines: Seq<Seq<char>>,
    src_dir: Seq<char>,
    existing: Seq<Seq<char>>,
) -> Seq<DiagV> {
    spec_mod_decl_diags(items, file, module, src_dir, existing) + spec_use_stmt_diags(
        items,
        file,
        module,
        table,
        cn,
    ) + spec_ref_diags(
        refs,
        spec_names_in_scope(module, table, cn),
        table,
        file,
        spec_insert_line(lines) as usize,
    )
}

/// Validate one file's references against the package symbol table.
/// `source_lines` are the file's own lines, for placing import fixes;
/// `existing_files` lists the files under `src_dir`, for resolving
/// child-module declarations.
pub fn validate_file(
    ast: &FileAst,
    file_path: &str,
    mod_path: &ModulePath,
    symbols: &SymbolTable,
    src_dir: &str,
    crate_name: &Option<String>,
    source_lines: &Vec<String>,
    existing_files: &Vec<String>,
) -> (r: Vec<Diagnostic>)
    requires
        source_lines@.len() < usize::MAX,
    ensures
        r.deep_view() == spec_validate_file(
            ast.items@,
            ast.refs@,
            file_path@,
            mod_path@,
            symbols@,
            crate_name.deep_view(),
            source_lines.deep_view(),
            src_dir@,
            existing_files.deep_view(),
        ),
{
    let mut r = check_mod_declarations(ast, file_path, mod_path, src_dir, existing_files);
    let mut use_diags = check_use_statements(ast, file_path, mod_path, symbols, crate_name);
    let ghost r0 = r;
    let ghost u0 = use_diags;
    r.append(&mut use_diags);
    proof {
        lemma_deep_append(r0, u0, r);
    }
    let scope = names_in_scope(mod_path, symbols, crate_name);
    let insert_line = find_use_insert_line(source_lines);
    let mut ref_diags = check_references(ast, &scope, symbols, file_path, insert_line);
    let ghost r1 = r;
    let ghost f0 = ref_diags;
    r.append(&mut ref_diags);
    proof {
        lemma_deep_append(r1, f0, r);
        assert(r.deep_view() =~= spec_validate_file(
            ast.items@,
            ast.refs@,
            file_path@,
            mod_path@,
            symbols@,
            crate_name.deep_view(),
            source_lines.deep_view(),
            src_dir@,
            existing_files.deep_view(),
        ));
    }
    r
}

} // verus!
