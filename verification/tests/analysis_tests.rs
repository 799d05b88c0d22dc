use rustpeek::analysis::analyze;
use rustpeek::analysis::ParseOutcome;
use rustpeek::analysis::SourceFile;
use rustpeek::ast::AstField;
use rustpeek::ast::AstItem;
use rustpeek::ast::FileAst;
use rustpeek::ast::RefSite;
use rustpeek::ast::Span;
use rustpeek::diagnostics::AnalysisResult;
use rustpeek::paths::ModulePath;
use rustpeek::paths::Vis;
use rustpeek::text::replace_all;
use rustpeek::text::str_contains;
use rustpeek::text::strip_trailing_newlines;
use rustpeek::text::usize_to_string;

fn sp(line: usize, col: usize) -> Span {
    Span { line, col }
}

fn bad_call_file(module: ModulePath, path: &str, requested: bool) -> SourceFile {
    SourceFile {
        module,
        path: path.to_string(),
        requested,
        outcome: ParseOutcome::Parsed(FileAst {
            items: vec![
                AstItem::FnDecl { name: "f".to_string(), vis: Vis::Public, param_count: 1 },
            ],
            refs: vec![
                RefSite::CallExpr { callee: "f".to_string(), arg_count: 3, span: sp(2, 5) },
            ],
        }),
        lines: vec![],
    }
}

fn run(files: Vec<SourceFile>) -> AnalysisResult {
    let existing = vec!["src/lib.rs".to_string(), "src/other.rs".to_string()];
    analyze(&files, "src", &None, &existing)
}

#[test]
fn only_requested_files_are_validated() {
    let checked = bad_call_file(ModulePath::root(), "src/lib.rs", true);
    let skipped = bad_call_file(ModulePath::root().child("other"), "src/other.rs", false);
    let result = run(vec![checked, skipped]);
    assert_eq!(result.error_count(), 1);
    assert_eq!(result.diagnostics[0].file, "src/lib.rs");
}

#[test]
fn every_file_is_indexed_even_when_not_validated() {
    // the requested file names a type that only the unrequested file declares
    let lib = SourceFile {
        module: ModulePath::root(),
        path: "src/lib.rs".to_string(),
        requested: true,
        outcome: ParseOutcome::Parsed(FileAst {
            items: vec![],
            refs: vec![RefSite::TypePathRef { name: "Helper".to_string(), span: sp(3, 9) }],
        }),
        lines: vec![],
    };
    let other = SourceFile {
        module: ModulePath::root().child("other"),
        path: "src/other.rs".to_string(),
        requested: false,
        outcome: ParseOutcome::Parsed(FileAst {
            items: vec![
                AstItem::StructDecl {
                    name: "Helper".to_string(),
                    vis: Vis::Public,
                    fields: vec![AstField { name: "x".to_string(), vis: Vis::Public }],
                },
            ],
            refs: vec![],
        }),
        lines: vec![],
    };
    let result = run(vec![lib, other]);
    assert_eq!(result.suggestion_count(), 1);
    assert_eq!(
        result.diagnostics[0].hint.as_deref(),
        Some("add `use crate::other::Helper;`"),
    );
}

#[test]
fn a_later_record_for_the_same_module_replaces_the_earlier_one() {
    // two files mapping to one module path: the later one wins,
    // as a fresh build of the table would have it
    let first = SourceFile {
        module: ModulePath::root().child("other"),
        path: "src/other.rs".to_string(),
        requested: false,
        outcome: ParseOutcome::Parsed(FileAst {
            items: vec![
                AstItem::FnDecl { name: "f".to_string(), vis: Vis::Public, param_count: 5 },
            ],
            refs: vec![],
        }),
        lines: vec![],
    };
    let second = SourceFile {
        module: ModulePath::root().child("other"),
        path: "src/other.rs".to_string(),
        requested: false,
        outcome: ParseOutcome::Parsed(FileAst {
            items: vec![
                AstItem::FnDecl { name: "f".to_string(), vis: Vis::Public, param_count: 1 },
            ],
            refs: vec![],
        }),
        lines: vec![],
    };
    let lib = SourceFile {
        module: ModulePath::root(),
        path: "src/lib.rs".to_string(),
        requested: true,
        outcome: ParseOutcome::Parsed(FileAst {
            items: vec![AstItem::UseDecl {
                tree: rustpeek::ast::UseTree::Prefix {
                    segment: "crate".to_string(),
                    rest: Box::new(rustpeek::ast::UseTree::Prefix {
                        segment: "other".to_string(),
                        rest: Box::new(rustpeek::ast::UseTree::Leaf {
                            ident: "f".to_string(),
                            span: sp(1, 5),
                        }),
                    }),
                },
                vis: Vis::Private,
                span: sp(1, 1),
            }],
            refs: vec![
                RefSite::CallExpr { callee: "f".to_string(), arg_count: 1, span: sp(3, 5) },
            ],
        }),
        lines: vec!["use crate::other::f;".to_string()],
    };
    let result = run(vec![lib, first, second]);
    // against the later record the call arity of one is right
    assert!(result.diagnostics.is_empty());
}

#[test]
fn decimal_rendering_is_exact() {
    assert_eq!(usize_to_string(0), "0");
    assert_eq!(usize_to_string(7), "7");
    assert_eq!(usize_to_string(10), "10");
    assert_eq!(usize_to_string(90210), "90210");
}

#[test]
fn substring_search_and_replacement_behave_like_text_edits_need() {
    assert!(str_contains("use crate::util::Helper;", "::Helper;"));
    assert!(!str_contains("use crate::util::Helper;", "::Helprr;"));
    assert!(str_contains("anything", ""));
    assert_eq!(replace_all("aaa", "a", "b"), "bbb");
    assert_eq!(replace_all("aaa", "aa", "b"), "ba");
    assert_eq!(replace_all("nothing", "x", "y"), "nothing");
    assert_eq!(strip_trailing_newlines("use x;\n\n"), "use x;");
    assert_eq!(strip_trailing_newlines("plain"), "plain");
}
