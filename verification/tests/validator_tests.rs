use rustpeek::analysis::analyze;
use rustpeek::analysis::ParseOutcome;
use rustpeek::analysis::SourceFile;
use rustpeek::ast::AstField;
use rustpeek::ast::AstItem;
use rustpeek::ast::AstMethod;
use rustpeek::ast::AstVariant;
use rustpeek::ast::FileAst;
use rustpeek::ast::ProvidedField;
use rustpeek::ast::RefSite;
use rustpeek::ast::Span;
use rustpeek::ast::UseTree;
use rustpeek::diagnostics::AnalysisResult;
use rustpeek::diagnostics::Fix;
use rustpeek::diagnostics::Severity;
use rustpeek::paths::ModulePath;
use rustpeek::paths::Vis;

fn sp(line: usize, col: usize) -> Span {
    Span { line, col }
}

fn field(name: &str) -> AstField {
    AstField { name: name.to_string(), vis: Vis::Public }
}

fn unit_variant(name: &str) -> AstVariant {
    AstVariant { name: name.to_string(), field_count: 0, is_named_fields: false, fields: vec![] }
}

fn provided(name: &str, line: usize) -> ProvidedField {
    ProvidedField { name: name.to_string(), span: sp(line, 5) }
}

fn root_file(items: Vec<AstItem>, refs: Vec<RefSite>, lines: Vec<&str>) -> SourceFile {
    SourceFile {
        module: ModulePath::root(),
        path: "src/lib.rs".to_string(),
        requested: true,
        outcome: ParseOutcome::Parsed(FileAst { items, refs }),
        lines: lines.iter().map(|l| l.to_string()).collect(),
    }
}

fn util_file(items: Vec<AstItem>) -> SourceFile {
    SourceFile {
        module: ModulePath::root().child("util"),
        path: "src/util.rs".to_string(),
        requested: false,
        outcome: ParseOutcome::Parsed(FileAst { items, refs: vec![] }),
        lines: vec![],
    }
}

fn run(files: Vec<SourceFile>) -> AnalysisResult {
    let existing = vec!["src/lib.rs".to_string(), "src/util.rs".to_string()];
    analyze(&files, "src", &None, &existing)
}

fn codes(result: &AnalysisResult) -> Vec<String> {
    result.diagnostics.iter().filter_map(|d| d.error_code.clone()).collect()
}

fn config_struct() -> AstItem {
    AstItem::StructDecl {
        name: "Config".to_string(),
        vis: Vis::Public,
        fields: vec![field("host"), field("port"), field("debug")],
    }
}

#[test]
fn record_with_only_host_yields_two_missing_fields() {
    let refs = vec![
        RefSite::RecordLit {
            ty_name: "Config".to_string(),
            provided: vec![provided("host", 10)],
            has_rest: false,
            span: sp(10, 9),
        },
    ];
    let result = run(vec![root_file(vec![config_struct()], refs, vec![])]);
    assert_eq!(result.error_count(), 2);
    assert_eq!(result.suggestion_count(), 0);
    let messages: Vec<&str> = result.diagnostics.iter().map(|d| d.message.as_str()).collect();
    assert_eq!(messages[0], "missing field `port` in initializer of `Config`");
    assert_eq!(messages[1], "missing field `debug` in initializer of `Config`");
    assert_eq!(codes(&result), vec!["E0063".to_string(), "E0063".to_string()]);
}

#[test]
fn record_with_exactly_its_fields_is_silent_in_any_order() {
    let refs = vec![
        RefSite::RecordLit {
            ty_name: "Config".to_string(),
            provided: vec![provided("debug", 10), provided("host", 11), provided("port", 12)],
            has_rest: false,
            span: sp(10, 9),
        },
    ];
    let result = run(vec![root_file(vec![config_struct()], refs, vec![])]);
    assert!(result.diagnostics.is_empty());
}

#[test]
fn rest_spread_suppresses_missing_fields_even_with_none_supplied() {
    let refs = vec![
        RefSite::RecordLit {
            ty_name: "Config".to_string(),
            provided: vec![],
            has_rest: true,
            span: sp(10, 9),
        },
    ];
    let result = run(vec![root_file(vec![config_struct()], refs, vec![])]);
    assert!(result.diagnostics.is_empty());
}

#[test]
fn unknown_field_is_reported_at_its_own_span() {
    let refs = vec![
        RefSite::RecordLit {
            ty_name: "Config".to_string(),
            provided: vec![
                provided("host", 10),
                provided("port", 11),
                provided("debug", 12),
                provided("hostt", 13),
            ],
            has_rest: false,
            span: sp(9, 9),
        },
    ];
    let result = run(vec![root_file(vec![config_struct()], refs, vec![])]);
    assert_eq!(result.error_count(), 1);
    assert_eq!(result.diagnostics[0].message, "struct `Config` has no field named `hostt`");
    assert_eq!(result.diagnostics[0].error_code.as_deref(), Some("E0609"));
    assert_eq!(result.diagnostics[0].line, 13);
}

fn color_enum() -> AstItem {
    AstItem::EnumDecl {
        name: "Color".to_string(),
        vis: Vis::Public,
        variants: vec![
            unit_variant("Red"),
            unit_variant("Green"),
            unit_variant("Blue"),
            AstVariant {
                name: "Custom".to_string(),
                field_count: 3,
                is_named_fields: false,
                fields: vec![],
            },
        ],
    }
}

#[test]
fn unknown_variant_without_a_close_name_has_no_hint() {
    let refs = vec![
        RefSite::PathExprRef {
            segments: vec!["Color".to_string(), "Yellow".to_string()],
            spans: vec![sp(4, 1), sp(4, 8)],
        },
    ];
    let result = run(vec![root_file(vec![color_enum()], refs, vec![])]);
    assert_eq!(result.error_count(), 1);
    assert_eq!(result.diagnostics[0].message, "no variant `Yellow` in enum `Color`");
    assert_eq!(result.diagnostics[0].error_code.as_deref(), Some("E0599"));
    assert!(result.diagnostics[0].hint.is_none());
    assert_eq!(result.diagnostics[0].line, 4);
    assert_eq!(result.diagnostics[0].column, 8);
}

#[test]
fn misspelled_variant_gets_a_hint() {
    let refs = vec![
        RefSite::PathExprRef {
            segments: vec!["Color".to_string(), "Gren".to_string()],
            spans: vec![sp(4, 1), sp(4, 8)],
        },
    ];
    let result = run(vec![root_file(vec![color_enum()], refs, vec![])]);
    assert_eq!(result.error_count(), 1);
    assert_eq!(result.diagnostics[0].hint.as_deref(), Some("did you mean `Green`?"));
}

#[test]
fn declared_variants_and_associated_functions_pass() {
    let items = vec![
        color_enum(),
        AstItem::ImplDecl {
            self_ty: Some("Color".to_string()),
            is_trait_impl: false,
            methods: vec![
                AstMethod {
                    name: "parse".to_string(),
                    vis: Vis::Public,
                    param_count: 1,
                    has_self: false,
                },
            ],
        },
    ];
    let refs = vec![
        RefSite::PathExprRef {
            segments: vec!["Color".to_string(), "Red".to_string()],
            spans: vec![sp(4, 1), sp(4, 8)],
        },
        RefSite::PathExprRef {
            segments: vec!["Color".to_string(), "parse".to_string()],
            spans: vec![sp(5, 1), sp(5, 8)],
        },
    ];
    let result = run(vec![root_file(items, refs, vec![])]);
    assert!(result.diagnostics.is_empty());
}

#[test]
fn calling_a_zero_parameter_function_with_one_argument() {
    let items = vec![
        AstItem::FnDecl { name: "no_args".to_string(), vis: Vis::Public, param_count: 0 },
    ];
    let refs = vec![
        RefSite::CallExpr { callee: "no_args".to_string(), arg_count: 1, span: sp(7, 5) },
    ];
    let result = run(vec![root_file(items, refs, vec![])]);
    assert_eq!(result.error_count(), 1);
    assert_eq!(
        result.diagnostics[0].message,
        "function `no_args` takes 0 argument(s) but 1 were supplied",
    );
    assert_eq!(result.diagnostics[0].error_code.as_deref(), Some("E0061"));
}

#[test]
fn calling_with_the_declared_count_never_fires() {
    let items = vec![
        AstItem::FnDecl { name: "zero".to_string(), vis: Vis::Public, param_count: 0 },
        AstItem::FnDecl { name: "three".to_string(), vis: Vis::Public, param_count: 3 },
    ];
    let refs = vec![
        RefSite::CallExpr { callee: "zero".to_string(), arg_count: 0, span: sp(7, 5) },
        RefSite::CallExpr { callee: "three".to_string(), arg_count: 3, span: sp(8, 5) },
    ];
    let result = run(vec![root_file(items, refs, vec![])]);
    assert!(result.diagnostics.is_empty());
}

#[test]
fn a_name_matching_nothing_anywhere_stays_silent() {
    let refs = vec![
        RefSite::TypePathRef { name: "ExternalThing".to_string(), span: sp(3, 1) },
        RefSite::PathExprRef { segments: vec!["AlsoOutside".to_string()], spans: vec![sp(4, 1)] },
    ];
    let result = run(vec![root_file(vec![config_struct()], refs, vec![])]);
    assert!(result.diagnostics.is_empty());
}

#[test]
fn lower_case_single_names_are_never_flagged() {
    let refs = vec![
        RefSite::PathExprRef { segments: vec!["some_value".to_string()], spans: vec![sp(4, 1)] },
    ];
    let result = run(vec![root_file(vec![], refs, vec![])]);
    assert!(result.diagnostics.is_empty());
}

#[test]
fn a_unique_candidate_yields_a_suggestion_with_an_import_fix() {
    let helper = AstItem::StructDecl {
        name: "Helper".to_string(),
        vis: Vis::Public,
        fields: vec![],
    };
    let lib = root_file(
        vec![
            AstItem::ModDecl {
                name: "util".to_string(),
                vis: Vis::Public,
                body: None,
                span: sp(1, 1),
            },
        ],
        vec![RefSite::TypePathRef { name: "Helper".to_string(), span: sp(5, 9) }],
        vec!["mod util;", "", "fn main() {}"],
    );
    let result = run(vec![lib, util_file(vec![helper])]);
    assert_eq!(result.error_count(), 0);
    assert_eq!(result.suggestion_count(), 1);
    let d = &result.diagnostics[0];
    assert_eq!(d.severity, Severity::Suggestion);
    assert_eq!(d.message, "cannot find `Helper` in this scope");
    assert_eq!(d.error_code.as_deref(), Some("E0412"));
    assert_eq!(d.hint.as_deref(), Some("add `use crate::util::Helper;`"));
    match &d.fix {
        Some(Fix::InsertLine { file, line, content }) => {
            assert_eq!(file, "src/lib.rs");
            // inserted after the last module declaration on line 1
            assert_eq!(*line, 2);
            assert_eq!(content, "use crate::util::Helper;\n");
        },
        other => panic!("expected an insert fix, got {:?}", other.is_some()),
    }
}

#[test]
fn several_candidates_yield_a_hint_but_no_fix() {
    let mk = |module: ModulePath, path: &str| SourceFile {
        module,
        path: path.to_string(),
        requested: false,
        outcome: ParseOutcome::Parsed(FileAst {
            items: vec![
                AstItem::StructDecl {
                    name: "Helper".to_string(),
                    vis: Vis::Public,
                    fields: vec![],
                },
            ],
            refs: vec![],
        }),
        lines: vec![],
    };
    let lib = root_file(
        vec![],
        vec![RefSite::TypePathRef { name: "Helper".to_string(), span: sp(5, 9) }],
        vec![],
    );
    let a = mk(ModulePath::root().child("a"), "src/a.rs");
    let b = mk(ModulePath::root().child("b"), "src/b.rs");
    let result = run(vec![lib, a, b]);
    assert_eq!(result.suggestion_count(), 1);
    let d = &result.diagnostics[0];
    assert_eq!(d.hint.as_deref(), Some("did you mean `Helper` from `crate::a` or `crate::b`?"));
    assert!(d.fix.is_none());
}

fn use_leaf(segments: &[&str], line: usize) -> AstItem {
    // build use tree right-to-left: the last segment is the leaf
    let mut tree = UseTree::Leaf {
        ident: segments[segments.len() - 1].to_string(),
        span: sp(line, 5),
    };
    for segment in segments[..segments.len() - 1].iter().rev() {
        tree = UseTree::Prefix { segment: segment.to_string(), rest: Box::new(tree) };
    }
    AstItem::UseDecl { tree, vis: Vis::Private, span: sp(line, 1) }
}

#[test]
fn a_misspelled_import_gets_a_replace_fix() {
    let helper = AstItem::StructDecl {
        name: "Helper".to_string(),
        vis: Vis::Public,
        fields: vec![],
    };
    let lib = root_file(
        vec![use_leaf(&["crate", "util", "Helprr"], 1)],
        vec![],
        vec!["use crate::util::Helprr;"],
    );
    let result = run(vec![lib, util_file(vec![helper])]);
    assert_eq!(result.error_count(), 1);
    let d = &result.diagnostics[0];
    assert_eq!(d.message, "unresolved import `crate::util::Helprr`");
    assert_eq!(d.error_code.as_deref(), Some("E0432"));
    assert_eq!(d.hint.as_deref(), Some("did you mean `Helper`?"));
    match &d.fix {
        Some(Fix::ReplaceLine { file, line, old_text, new_text }) => {
            assert_eq!(file, "src/lib.rs");
            assert_eq!(*line, 1);
            assert_eq!(old_text, "Helprr");
            assert_eq!(new_text, "Helper");
        },
        _ => panic!("expected a replace fix"),
    }
}

#[test]
fn importing_a_private_item_is_an_error() {
    // a sibling module cannot see into `util`'s private items
    let secret = AstItem::StructDecl {
        name: "Secret".to_string(),
        vis: Vis::Private,
        fields: vec![],
    };
    let other = SourceFile {
        module: ModulePath::root().child("other"),
        path: "src/other.rs".to_string(),
        requested: true,
        outcome: ParseOutcome::Parsed(FileAst {
            items: vec![use_leaf(&["crate", "util", "Secret"], 1)],
            refs: vec![],
        }),
        lines: vec!["use crate::util::Secret;".to_string()],
    };
    let result = run(vec![other, util_file(vec![secret])]);
    assert_eq!(result.error_count(), 1);
    assert_eq!(result.diagnostics[0].message, "`crate::util::Secret` is private");
    assert_eq!(result.diagnostics[0].error_code.as_deref(), Some("E0603"));
}

#[test]
fn an_enclosing_module_sees_into_its_childs_private_items() {
    let secret = AstItem::StructDecl {
        name: "Secret".to_string(),
        vis: Vis::Private,
        fields: vec![],
    };
    let lib = root_file(
        vec![use_leaf(&["crate", "util", "Secret"], 1)],
        vec![],
        vec!["use crate::util::Secret;"],
    );
    let result = run(vec![lib, util_file(vec![secret])]);
    assert!(result.diagnostics.is_empty());
}

#[test]
fn importing_from_a_missing_module_is_an_error() {
    let lib = root_file(
        vec![use_leaf(&["crate", "nope", "Thing"], 1)],
        vec![],
        vec!["use crate::nope::Thing;"],
    );
    let result = run(vec![lib]);
    assert_eq!(result.error_count(), 1);
    assert_eq!(result.diagnostics[0].message, "unresolved module `crate::nope`");
    assert_eq!(result.diagnostics[0].error_code.as_deref(), Some("E0433"));
}

#[test]
fn imports_of_other_packages_are_never_checked() {
    let lib = root_file(
        vec![use_leaf(&["serde", "Deserialize"], 1)],
        vec![],
        vec!["use serde::Deserialize;"],
    );
    let result = run(vec![lib]);
    assert!(result.diagnostics.is_empty());
}

#[test]
fn a_wildcard_import_of_a_missing_module_is_an_error() {
    let tree = UseTree::Prefix {
        segment: "crate".to_string(),
        rest: Box::new(UseTree::Prefix {
            segment: "nothere".to_string(),
            rest: Box::new(UseTree::Glob),
        }),
    };
    let lib = root_file(
        vec![AstItem::UseDecl { tree, vis: Vis::Private, span: sp(1, 1) }],
        vec![],
        vec!["use crate::nothere::*;"],
    );
    let result = run(vec![lib]);
    assert_eq!(result.error_count(), 1);
    assert_eq!(result.diagnostics[0].message, "unresolved glob import `crate::nothere::*`");
}

#[test]
fn wildcard_imports_bring_visible_names_into_scope() {
    let helper = AstItem::StructDecl {
        name: "Helper".to_string(),
        vis: Vis::Public,
        fields: vec![field("x")],
    };
    let tree = UseTree::Prefix {
        segment: "crate".to_string(),
        rest: Box::new(UseTree::Prefix {
            segment: "util".to_string(),
            rest: Box::new(UseTree::Glob),
        }),
    };
    let lib = root_file(
        vec![AstItem::UseDecl { tree, vis: Vis::Private, span: sp(1, 1) }],
        vec![
            RefSite::RecordLit {
                ty_name: "Helper".to_string(),
                provided: vec![],
                has_rest: false,
                span: sp(3, 9),
            },
        ],
        vec!["use crate::util::*;"],
    );
    let result = run(vec![lib, util_file(vec![helper])]);
    // Helper resolved through the wildcard import, so its field check ran
    assert_eq!(result.error_count(), 1);
    assert_eq!(result.diagnostics[0].message, "missing field `x` in initializer of `Helper`");
}

#[test]
fn the_packages_own_name_counts_as_the_root_marker() {
    let helper = AstItem::StructDecl {
        name: "Helper".to_string(),
        vis: Vis::Public,
        fields: vec![],
    };
    let lib = root_file(
        vec![use_leaf(&["demo", "util", "Helprr"], 1)],
        vec![],
        vec!["use demo::util::Helprr;"],
    );
    let files = vec![lib, util_file(vec![helper])];
    let existing = vec!["src/lib.rs".to_string(), "src/util.rs".to_string()];
    let result = analyze(&files, "src", &Some("demo".to_string()), &existing);
    assert_eq!(result.error_count(), 1);
    assert_eq!(result.diagnostics[0].message, "unresolved import `demo::util::Helprr`");
}

#[test]
fn a_module_declaration_without_a_backing_file_is_an_error() {
    let lib = root_file(
        vec![
            AstItem::ModDecl {
                name: "missing".to_string(),
                vis: Vis::Public,
                body: None,
                span: sp(2, 5),
            },
        ],
        vec![],
        vec!["", "mod missing;"],
    );
    let result = run(vec![lib]);
    assert_eq!(result.error_count(), 1);
    let d = &result.diagnostics[0];
    assert_eq!(d.message, "file not found for module `missing`");
    assert_eq!(d.error_code.as_deref(), Some("E0583"));
    assert_eq!(d.hint.as_deref(), Some("expected `missing.rs` or `missing/mod.rs`"));
    assert_eq!(d.line, 2);
}

#[test]
fn a_backed_module_declaration_passes() {
    let lib = root_file(
        vec![
            AstItem::ModDecl {
                name: "util".to_string(),
                vis: Vis::Public,
                body: None,
                span: sp(1, 5),
            },
        ],
        vec![],
        vec!["mod util;"],
    );
    let result = run(vec![lib, util_file(vec![])]);
    assert!(result.diagnostics.is_empty());
}

#[test]
fn a_syntax_error_in_a_requested_file_aborts_validation() {
    let broken = SourceFile {
        module: ModulePath::root().child("bad"),
        path: "src/bad.rs".to_string(),
        requested: true,
        outcome: ParseOutcome::SyntaxError {
            line: 3,
            col: 7,
            message: "expected `;`".to_string(),
        },
        lines: vec![],
    };
    // the other file would report a missing field, but must not get to
    let refs = vec![
        RefSite::RecordLit {
            ty_name: "Config".to_string(),
            provided: vec![],
            has_rest: false,
            span: sp(5, 9),
        },
    ];
    let result = run(vec![root_file(vec![config_struct()], refs, vec![]), broken]);
    assert_eq!(result.diagnostics.len(), 1);
    assert_eq!(result.diagnostics[0].message, "syntax error: expected `;`");
    assert_eq!(result.diagnostics[0].line, 3);
    assert_eq!(result.diagnostics[0].column, 7);
    assert!(result.has_errors());
}

#[test]
fn an_unreadable_file_degrades_to_one_error_and_the_run_goes_on() {
    let unreadable = SourceFile {
        module: ModulePath::root().child("gone"),
        path: "src/gone.rs".to_string(),
        requested: true,
        outcome: ParseOutcome::Unreadable { message: "permission denied".to_string() },
        lines: vec![],
    };
    let refs = vec![
        RefSite::CallExpr { callee: "no_args".to_string(), arg_count: 2, span: sp(7, 5) },
    ];
    let items = vec![
        AstItem::FnDecl { name: "no_args".to_string(), vis: Vis::Public, param_count: 0 },
    ];
    let result = run(vec![unreadable, root_file(items, refs, vec![])]);
    assert_eq!(result.error_count(), 2);
    assert_eq!(result.diagnostics[0].message, "could not read file: permission denied");
    assert_eq!(result.diagnostics[1].error_code.as_deref(), Some("E0061"));
}

#[test]
fn importing_a_module_itself_is_valid_when_it_exists() {
    // `use crate::util::self;` imports the module itself
    let lib = root_file(
        vec![use_leaf(&["crate", "util", "self"], 1)],
        vec![],
        vec!["use crate::util::self;"],
    );
    let result = run(vec![lib, util_file(vec![])]);
    assert!(result.diagnostics.is_empty());
}

#[test]
fn importing_a_child_module_by_name_is_valid() {
    // `use crate::util;` names a module, not an item of the root
    let lib = root_file(
        vec![use_leaf(&["crate", "util"], 1)],
        vec![],
        vec!["use crate::util;"],
    );
    let result = run(vec![lib, util_file(vec![])]);
    assert!(result.diagnostics.is_empty());
}

#[test]
fn a_bare_first_segment_is_not_checked_but_still_fills_the_scope() {
    // `use util::Helper;` does not open with a package marker, so the
    // import check stays silent on it; scope resolution still follows
    // it into the child module, as the record check shows
    let helper = AstItem::StructDecl {
        name: "Helper".to_string(),
        vis: Vis::Public,
        fields: vec![field("x")],
    };
    let lib = root_file(
        vec![use_leaf(&["util", "Helper"], 1)],
        vec![
            RefSite::RecordLit {
                ty_name: "Helper".to_string(),
                provided: vec![],
                has_rest: false,
                span: sp(3, 9),
            },
        ],
        vec!["use util::Helper;"],
    );
    let result = run(vec![lib, util_file(vec![helper])]);
    assert_eq!(result.error_count(), 1);
    assert_eq!(result.diagnostics[0].message, "missing field `x` in initializer of `Helper`");
}

#[test]
fn re_exported_names_satisfy_the_import_check() {
    // util re-exports Helper from a sibling; importing it through util passes
    let deep = SourceFile {
        module: ModulePath::root().child("deep"),
        path: "src/deep.rs".to_string(),
        requested: false,
        outcome: ParseOutcome::Parsed(FileAst {
            items: vec![
                AstItem::StructDecl {
                    name: "Helper".to_string(),
                    vis: Vis::Public,
                    fields: vec![],
                },
            ],
            refs: vec![],
        }),
        lines: vec![],
    };
    let reexport = AstItem::UseDecl {
        tree: UseTree::Prefix {
            segment: "crate".to_string(),
            rest: Box::new(UseTree::Prefix {
                segment: "deep".to_string(),
                rest: Box::new(UseTree::Leaf { ident: "Helper".to_string(), span: sp(1, 5) }),
            }),
        },
        vis: Vis::Public,
        span: sp(1, 1),
    };
    let lib = root_file(
        vec![use_leaf(&["crate", "util", "Helper"], 1)],
        vec![],
        vec!["use crate::util::Helper;"],
    );
    let result = run(vec![lib, util_file(vec![reexport]), deep]);
    assert!(result.diagnostics.is_empty());
}

#[test]
fn wildcard_imports_filter_by_visibility() {
    // a private item of a sibling module does not come in by wildcard,
    // so the capitalized reference turns into an import suggestion
    let hidden = AstItem::StructDecl {
        name: "Hidden".to_string(),
        vis: Vis::Private,
        fields: vec![],
    };
    let tree = UseTree::Prefix {
        segment: "crate".to_string(),
        rest: Box::new(UseTree::Prefix {
            segment: "util".to_string(),
            rest: Box::new(UseTree::Glob),
        }),
    };
    let other = SourceFile {
        module: ModulePath::root().child("other"),
        path: "src/other.rs".to_string(),
        requested: true,
        outcome: ParseOutcome::Parsed(FileAst {
            items: vec![AstItem::UseDecl { tree, vis: Vis::Private, span: sp(1, 1) }],
            refs: vec![RefSite::TypePathRef { name: "Hidden".to_string(), span: sp(3, 9) }],
        }),
        lines: vec!["use crate::util::*;".to_string()],
    };
    let result = run(vec![other, util_file(vec![hidden])]);
    // not in scope; one candidate exists in the package, so a
    // suggestion appears rather than silence
    assert_eq!(result.suggestion_count(), 1);
    assert_eq!(result.diagnostics[0].message, "cannot find `Hidden` in this scope");
}

#[test]
fn counting_helpers_agree_with_the_diagnostics() {
    let refs = vec![
        RefSite::RecordLit {
            ty_name: "Config".to_string(),
            provided: vec![provided("host", 10)],
            has_rest: false,
            span: sp(10, 9),
        },
    ];
    let result = run(vec![root_file(vec![config_struct()], refs, vec![])]);
    assert!(result.has_errors());
    assert_eq!(result.error_count(), 2);
    assert_eq!(result.suggestion_count(), 0);
    assert_eq!(result.fixable_count(), 0);
    assert!(result.fixes().is_empty());
}
