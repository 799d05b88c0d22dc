use rustpeek::ast::AstField;
use rustpeek::ast::AstItem;
use rustpeek::ast::AstMethod;
use rustpeek::ast::AstVariant;
use rustpeek::ast::FileAst;
use rustpeek::ast::Span;
use rustpeek::ast::UseTree;
use rustpeek::indexer::index_file;
use rustpeek::paths::ModulePath;
use rustpeek::paths::Vis;
use rustpeek::symbols::ItemKind;

fn sp() -> Span {
    Span { line: 1, col: 1 }
}

fn field(name: &str) -> AstField {
    AstField { name: name.to_string(), vis: Vis::Private }
}

#[test]
fn indexes_record_types_with_their_fields() {
    let ast = FileAst {
        items: vec![
            AstItem::StructDecl {
                name: "Config".to_string(),
                vis: Vis::Public,
                fields: vec![field("host"), field("port")],
            },
        ],
        refs: vec![],
    };
    let info = index_file(&ast, &ModulePath::root(), "src/lib.rs");
    assert_eq!(info.items.len(), 1);
    assert_eq!(info.items[0].name, "Config");
    assert_eq!(info.items[0].kind, ItemKind::Struct);
    assert_eq!(info.items[0].fields.len(), 2);
    assert_eq!(info.items[0].fields[0].name, "host");
    assert_eq!(info.file_path, "src/lib.rs");
}

#[test]
fn indexes_sum_types_and_functions() {
    let ast = FileAst {
        items: vec![
            AstItem::EnumDecl {
                name: "Color".to_string(),
                vis: Vis::Public,
                variants: vec![
                    AstVariant {
                        name: "Red".to_string(),
                        field_count: 0,
                        is_named_fields: false,
                        fields: vec![],
                    },
                    AstVariant {
                        name: "Custom".to_string(),
                        field_count: 3,
                        is_named_fields: false,
                        fields: vec![],
                    },
                ],
            },
            AstItem::FnDecl { name: "mix".to_string(), vis: Vis::Public, param_count: 2 },
        ],
        refs: vec![],
    };
    let info = index_file(&ast, &ModulePath::root(), "src/lib.rs");
    assert_eq!(info.items.len(), 2);
    assert_eq!(info.items[0].variants.len(), 2);
    assert_eq!(info.items[0].variants[1].name, "Custom");
    assert_eq!(info.items[0].variants[1].field_count, 3);
    assert_eq!(info.items[1].kind, ItemKind::Function);
    assert_eq!(info.items[1].param_count, Some(2));
}

#[test]
fn inline_modules_merge_into_the_parent_record() {
    let inner = vec![
        AstItem::StructDecl { name: "Inner".to_string(), vis: Vis::Public, fields: vec![] },
    ];
    let ast = FileAst {
        items: vec![
            AstItem::ModDecl {
                name: "sub".to_string(),
                vis: Vis::Public,
                body: Some(inner),
                span: sp(),
            },
        ],
        refs: vec![],
    };
    let info = index_file(&ast, &ModulePath::root(), "src/lib.rs");
    // the module item itself, then the child's item, kept in one record
    assert_eq!(info.items.len(), 2);
    assert_eq!(info.items[0].name, "sub");
    assert_eq!(info.items[0].kind, ItemKind::Module);
    assert_eq!(info.items[1].name, "Inner");
    // the child's item remembers the child module's path
    assert_eq!(info.items[1].module.display(), "crate::sub");
    assert_eq!(info.child_modules, vec!["sub".to_string()]);
}

#[test]
fn file_backed_module_declarations_are_recorded() {
    let ast = FileAst {
        items: vec![
            AstItem::ModDecl {
                name: "parser".to_string(),
                vis: Vis::Public,
                body: None,
                span: sp(),
            },
        ],
        refs: vec![],
    };
    let info = index_file(&ast, &ModulePath::root(), "src/lib.rs");
    assert_eq!(info.items.len(), 1);
    assert_eq!(info.items[0].kind, ItemKind::Module);
    assert_eq!(info.child_modules, vec!["parser".to_string()]);
}

#[test]
fn use_trees_flatten_to_one_import_per_leaf() {
    let tree = UseTree::Prefix {
        segment: "crate".to_string(),
        rest: Box::new(UseTree::Group {
            trees: vec![
                UseTree::Leaf { ident: "Parser".to_string(), span: sp() },
                UseTree::RenameLeaf {
                    ident: "Lexer".to_string(),
                    alias: "Tok".to_string(),
                    span: sp(),
                },
                UseTree::Prefix {
                    segment: "util".to_string(),
                    rest: Box::new(UseTree::Glob),
                },
            ],
        }),
    };
    let ast = FileAst {
        items: vec![AstItem::UseDecl { tree, vis: Vis::Private, span: sp() }],
        refs: vec![],
    };
    let info = index_file(&ast, &ModulePath::root(), "src/lib.rs");
    assert_eq!(info.uses.len(), 3);
    assert_eq!(info.uses[0].path, vec!["crate".to_string(), "Parser".to_string()]);
    assert_eq!(info.uses[0].alias, "Parser");
    assert!(!info.uses[0].is_glob);
    assert_eq!(info.uses[1].alias, "Tok");
    assert_eq!(info.uses[1].path, vec!["crate".to_string(), "Lexer".to_string()]);
    assert!(info.uses[2].is_glob);
    assert_eq!(info.uses[2].path, vec!["crate".to_string(), "util".to_string()]);
}

#[test]
fn interface_impls_are_skipped_and_inherent_ones_kept() {
    let ast = FileAst {
        items: vec![
            AstItem::ImplDecl {
                self_ty: Some("Thing".to_string()),
                is_trait_impl: true,
                methods: vec![
                    AstMethod {
                        name: "fmt".to_string(),
                        vis: Vis::Private,
                        param_count: 1,
                        has_self: true,
                    },
                ],
            },
            AstItem::ImplDecl {
                self_ty: Some("Thing".to_string()),
                is_trait_impl: false,
                methods: vec![
                    AstMethod {
                        name: "create".to_string(),
                        vis: Vis::Public,
                        param_count: 0,
                        has_self: false,
                    },
                ],
            },
        ],
        refs: vec![],
    };
    let info = index_file(&ast, &ModulePath::root(), "src/lib.rs");
    assert_eq!(info.impls.len(), 1);
    assert_eq!(info.impls[0].owner_type, "Thing");
    assert_eq!(info.impls[0].methods.len(), 1);
    assert_eq!(info.impls[0].methods[0].name, "create");
    assert!(!info.impls[0].methods[0].has_self);
}

#[test]
fn unsupported_declarations_are_ignored_silently() {
    let ast = FileAst {
        items: vec![
            AstItem::OtherItem,
            AstItem::MacroDecl { name: None },
            AstItem::ImplDecl { self_ty: None, is_trait_impl: false, methods: vec![] },
        ],
        refs: vec![],
    };
    let info = index_file(&ast, &ModulePath::root(), "src/lib.rs");
    assert!(info.items.is_empty());
    assert!(info.uses.is_empty());
    assert!(info.impls.is_empty());
}

#[test]
fn nested_inline_modules_merge_transitively() {
    let innermost = vec![
        AstItem::FnDecl { name: "deep_fn".to_string(), vis: Vis::Public, param_count: 0 },
    ];
    let inner = vec![
        AstItem::ModDecl {
            name: "b".to_string(),
            vis: Vis::Public,
            body: Some(innermost),
            span: sp(),
        },
    ];
    let ast = FileAst {
        items: vec![
            AstItem::ModDecl { name: "a".to_string(), vis: Vis::Public, body: Some(inner), span: sp() },
        ],
        refs: vec![],
    };
    let info = index_file(&ast, &ModulePath::root(), "src/lib.rs");
    assert_eq!(info.items.len(), 3);
    assert_eq!(info.items[2].name, "deep_fn");
    assert_eq!(info.items[2].module.display(), "crate::a::b");
    // only the file's own level contributes declared child modules
    assert_eq!(info.child_modules, vec!["a".to_string()]);
}

#[test]
fn named_macros_index_as_private_items() {
    let ast = FileAst {
        items: vec![AstItem::MacroDecl { name: Some("make_thing".to_string()) }],
        refs: vec![],
    };
    let info = index_file(&ast, &ModulePath::root(), "src/lib.rs");
    assert_eq!(info.items.len(), 1);
    assert_eq!(info.items[0].kind, ItemKind::Macro);
    assert_eq!(info.items[0].vis, Vis::Private);
}
