use rustpeek::analysis::analyze;
use rustpeek::analysis::ParseOutcome;
use rustpeek::analysis::SourceFile;
use rustpeek::ast::AstItem;
use rustpeek::ast::FileAst;
use rustpeek::ast::RefSite;
use rustpeek::ast::Span;
use rustpeek::ast::UseTree;
use rustpeek::diagnostics::AnalysisResult;
use rustpeek::diagnostics::Diagnostic;
use rustpeek::diagnostics::Fix;
use rustpeek::diagnostics::Severity;
use rustpeek::fixer::apply_file_fixes;
use rustpeek::fixer::apply_fixes;
use rustpeek::fixer::FileText;
use rustpeek::fixer::make_apply_result;
use rustpeek::fixer::plan_fix_files;
use rustpeek::paths::ModulePath;
use rustpeek::paths::Vis;

fn sp(line: usize, col: usize) -> Span {
    Span { line, col }
}

fn strings(items: &[&str]) -> Vec<String> {
    items.iter().map(|s| s.to_string()).collect()
}

fn diag_with_fix(fix: Option<Fix>) -> Diagnostic {
    Diagnostic {
        severity: Severity::Error,
        file: "src/lib.rs".to_string(),
        line: 1,
        column: 1,
        message: "test diagnostic".to_string(),
        error_code: None,
        hint: None,
        fix,
    }
}

fn result_of(fixes: Vec<Option<Fix>>) -> AnalysisResult {
    AnalysisResult { diagnostics: fixes.into_iter().map(diag_with_fix).collect() }
}

fn insert(line: usize, content: &str) -> Fix {
    Fix::InsertLine {
        file: "src/lib.rs".to_string(),
        line,
        content: content.to_string(),
    }
}

fn replace(line: usize, old_text: &str, new_text: &str) -> Fix {
    Fix::ReplaceLine {
        file: "src/lib.rs".to_string(),
        line,
        old_text: old_text.to_string(),
        new_text: new_text.to_string(),
    }
}

#[test]
fn replacement_rewrites_every_occurrence_on_the_line() {
    let result = result_of(vec![Some(replace(1, "old", "new"))]);
    let lines = strings(&["old old", "old"]);
    let (out, applied) = apply_file_fixes(&result, &"src/lib.rs".to_string(), lines);
    assert_eq!(applied, 1);
    assert_eq!(out, strings(&["new new", "old"]));
}

#[test]
fn a_stale_replacement_is_skipped() {
    let result = result_of(vec![Some(replace(1, "gone", "new"))]);
    let lines = strings(&["nothing here"]);
    let (out, applied) = apply_file_fixes(&result, &"src/lib.rs".to_string(), lines);
    assert_eq!(applied, 0);
    assert_eq!(out, strings(&["nothing here"]));
}

#[test]
fn inserting_at_line_zero_appends_to_the_end() {
    let result = result_of(vec![Some(insert(0, "tail\n"))]);
    let lines = strings(&["a", "b"]);
    let (out, applied) = apply_file_fixes(&result, &"src/lib.rs".to_string(), lines);
    assert_eq!(applied, 1);
    assert_eq!(out, strings(&["a", "b", "tail"]));
}

#[test]
fn inserting_beyond_the_file_clamps_to_its_length() {
    let result = result_of(vec![Some(insert(99, "tail\n"))]);
    let lines = strings(&["a"]);
    let (out, _) = apply_file_fixes(&result, &"src/lib.rs".to_string(), lines);
    assert_eq!(out, strings(&["a", "tail"]));
}

#[test]
fn removal_deletes_the_addressed_line() {
    let fix = Fix::RemoveLine { file: "src/lib.rs".to_string(), line: 2 };
    let result = result_of(vec![Some(fix)]);
    let lines = strings(&["a", "b", "c"]);
    let (out, applied) = apply_file_fixes(&result, &"src/lib.rs".to_string(), lines);
    assert_eq!(applied, 1);
    assert_eq!(out, strings(&["a", "c"]));
}

#[test]
fn edits_apply_bottom_up_so_line_numbers_stay_valid() {
    let result = result_of(vec![
        Some(insert(1, "first\n")),
        Some(insert(3, "third\n")),
    ]);
    let lines = strings(&["a", "b", "c"]);
    let (out, applied) = apply_file_fixes(&result, &"src/lib.rs".to_string(), lines);
    assert_eq!(applied, 2);
    assert_eq!(out, strings(&["first", "a", "b", "third", "c"]));
}

#[test]
fn identical_insertions_are_applied_once() {
    let result = result_of(vec![
        Some(insert(1, "use crate::util::Helper;\n")),
        Some(insert(1, "use crate::util::Helper;\n")),
    ]);
    let lines = strings(&["fn main() {}"]);
    let (out, applied) = apply_file_fixes(&result, &"src/lib.rs".to_string(), lines);
    assert_eq!(applied, 1);
    assert_eq!(out, strings(&["use crate::util::Helper;", "fn main() {}"]));
}

#[test]
fn an_insert_made_redundant_by_a_replacement_is_dropped() {
    let result = result_of(vec![
        Some(replace(1, "Helprr", "Helper")),
        Some(insert(2, "use crate::util::Helper;\n")),
    ]);
    let lines = strings(&["use crate::util::Helprr;", "fn main() {}"]);
    let (out, applied) = apply_file_fixes(&result, &"src/lib.rs".to_string(), lines);
    assert_eq!(applied, 1);
    assert_eq!(out, strings(&["use crate::util::Helper;", "fn main() {}"]));
}

#[test]
fn fixes_touch_only_their_own_file() {
    let other = Fix::InsertLine {
        file: "src/other.rs".to_string(),
        line: 1,
        content: "x\n".to_string(),
    };
    let result = result_of(vec![Some(other), Some(replace(1, "a", "b"))]);
    let lines = strings(&["a"]);
    let (out, applied) = apply_file_fixes(&result, &"src/lib.rs".to_string(), lines);
    assert_eq!(applied, 1);
    assert_eq!(out, strings(&["b"]));
    let files = plan_fix_files(&result);
    assert_eq!(files, strings(&["src/other.rs", "src/lib.rs"]));
}

#[test]
fn apply_fixes_sums_the_counts_across_files_and_keeps_the_rest() {
    let other = Fix::ReplaceLine {
        file: "src/other.rs".to_string(),
        line: 1,
        old_text: "x".to_string(),
        new_text: "y".to_string(),
    };
    let result = result_of(vec![Some(replace(1, "a", "b")), Some(other), None]);
    let files = vec![
        FileText { path: "src/lib.rs".to_string(), lines: strings(&["a"]) },
        FileText { path: "src/other.rs".to_string(), lines: strings(&["x x"]) },
    ];
    let (outcome, rewritten) = apply_fixes(&result, &files);
    assert_eq!(outcome.fixes_applied, 2);
    assert_eq!(outcome.remaining.diagnostics.len(), 1);
    assert_eq!(rewritten.len(), 2);
    assert_eq!(rewritten[0].lines, strings(&["b"]));
    assert_eq!(rewritten[1].lines, strings(&["y y"]));
}

#[test]
fn the_remainder_keeps_exactly_the_fixless_diagnostics() {
    let result = result_of(vec![Some(replace(1, "a", "b")), None, None]);
    let outcome = make_apply_result(1, &result);
    assert_eq!(outcome.fixes_applied, 1);
    assert_eq!(outcome.remaining.diagnostics.len(), 2);
    assert!(outcome.remaining.diagnostics.iter().all(|d| d.fix.is_none()));
}

// ── the end-to-end fix scenarios, through a real analysis ──

fn use_leaf(segments: &[&str], line: usize) -> AstItem {
    let mut tree = UseTree::Leaf {
        ident: segments[segments.len() - 1].to_string(),
        span: sp(line, 5),
    };
    for segment in segments[..segments.len() - 1].iter().rev() {
        tree = UseTree::Prefix { segment: segment.to_string(), rest: Box::new(tree) };
    }
    AstItem::UseDecl { tree, vis: Vis::Private, span: sp(line, 1) }
}

fn util_file() -> SourceFile {
    SourceFile {
        module: ModulePath::root().child("util"),
        path: "src/util.rs".to_string(),
        requested: false,
        outcome: ParseOutcome::Parsed(FileAst {
            items: vec![
                AstItem::StructDecl {
                    name: "Helper".to_string(),
                    vis: Vis::Public,
                    fields: vec![],
                },
            ],
            refs: vec![],
        }),
        lines: vec![],
    }
}

fn lib_with(items: Vec<AstItem>, refs: Vec<RefSite>, lines: &[&str]) -> SourceFile {
    SourceFile {
        module: ModulePath::root(),
        path: "src/lib.rs".to_string(),
        requested: true,
        outcome: ParseOutcome::Parsed(FileAst { items, refs }),
        lines: strings(lines),
    }
}

fn run(files: Vec<SourceFile>) -> AnalysisResult {
    let existing = vec!["src/lib.rs".to_string(), "src/util.rs".to_string()];
    analyze(&files, "src", &None, &existing)
}

#[test]
fn a_rename_fix_wins_over_its_duplicate_import_insertion() {
    // the misspelled import carries a replace-fix; the unresolved name
    // would insert the very import that the rename already repairs
    let lib = lib_with(
        vec![use_leaf(&["crate", "util", "Helprr"], 1)],
        vec![RefSite::TypePathRef { name: "Helper".to_string(), span: sp(3, 9) }],
        &["use crate::util::Helprr;", "", "fn f(h: Helper) {}"],
    );
    let result = run(vec![lib, util_file()]);
    assert_eq!(result.fixable_count(), 2);
    let lines = strings(&["use crate::util::Helprr;", "", "fn f(h: Helper) {}"]);
    let (out, applied) = apply_file_fixes(&result, &"src/lib.rs".to_string(), lines);
    // only the replacement runs: no second import line appears
    assert_eq!(applied, 1);
    assert_eq!(out, strings(&["use crate::util::Helper;", "", "fn f(h: Helper) {}"]));
}

#[test]
fn analysis_after_the_fixes_reports_nothing_that_was_fixed() {
    let lib_before = lib_with(
        vec![use_leaf(&["crate", "util", "Helprr"], 1)],
        vec![RefSite::TypePathRef { name: "Helper".to_string(), span: sp(3, 9) }],
        &["use crate::util::Helprr;", "", "fn f(h: Helper) {}"],
    );
    let before = run(vec![lib_before, util_file()]);
    assert!(before.has_errors());
    assert_eq!(before.fixable_count(), 2);

    // the fixed file, as the parser reads it back after the rewrite
    let lib_after = lib_with(
        vec![use_leaf(&["crate", "util", "Helper"], 1)],
        vec![RefSite::TypePathRef { name: "Helper".to_string(), span: sp(3, 9) }],
        &["use crate::util::Helper;", "", "fn f(h: Helper) {}"],
    );
    let after = run(vec![lib_after, util_file()]);
    assert!(after.diagnostics.is_empty());
}
