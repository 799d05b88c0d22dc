//! The two-pass analysis pipeline.
//!
//! Pass 1 walks the files requested for validation: an unreadable file
//! yields one error and is skipped; any syntax error aborts before the
//! second pass. Pass 2 indexes every parseable file of the package into
//! one symbol table — requested or not — and then validates only the
//! requested files against it.

use vstd::prelude::*;
use vstd::string::*;

use crate::ast::FileAst;
use crate::diagnostics::AnalysisResult;
use crate::diagnostics::DiagV;
use crate::diagnostics::Diagnostic;
use crate::diagnostics::Severity;
use crate::indexer::index_file;
use crate::indexer::spec_child_modules;
use crate::indexer::spec_index_impls;
use crate::indexer::spec_index_items;
use crate::indexer::spec_index_uses;
use crate::paths::lemma_deep_append;
use crate::paths::lemma_deep_push;
use crate::paths::ModulePath;
use crate::symbols::spec_insert;
use crate::symbols::ModuleV;
use crate::symbols::SymbolTable;
use crate::symbols::TableV;
use crate::validator::spec_validate_file;
use crate::validator::validate_file;

verus! {

/// What the parser collaborator made of one source file.
pub enum ParseOutcome {
    /// The file parsed; its syntax model.
    Parsed(FileAst),
    /// The file did not parse; where and why.
    SyntaxError { line: usize, col: usize, message: String },
    /// The file could not be read; the reason.
    Unreadable { message: String },
}

/// One source file handed to the analysis: its module path, its file
/// path, whether it was requested for validation, the parse outcome,
/// and its text as lines.
pub struct SourceFile {
    pub module: ModulePath,
    pub path: String,
    pub requested: bool,
    pub outcome: ParseOutcome,
    pub lines: Vec<String>,
}

/// The error reported for an unreadable requested file.
pub open spec fn io_diag(file: Seq<char>, message: Seq<char>) -> DiagV {
    DiagV {
        severity: Severity::Error,
        file: file,
        line: 0,
        column: 0,
        message: "could not read file: "@ + message,
        error_code: Option::None,
        hint: Option::None,
        fix: Option::None,
    }
}

/// The error reported for a requested file that did not parse.
pub open spec fn syntax_diag(file: Seq<char>, line: usize, col: usize, message: Seq<char>) -> DiagV {
    DiagV {
        severity: Severity::Error,
        file: file,
        line: line,
        column: col,
        message: "syntax error: "@ + message,
        error_code: Option::None,
        hint: Option::None,
        fix: Option::None,
    }
}

/// The diagnostics of the first pass, in file order: one error per
/// requested file that could not be read or parsed.
pub open spec fn pass1_diags(files: Seq<SourceFile>) -> Seq<DiagV>
    decreases files.len(),
{
    if files.len() == 0 {
        Seq::empty()
    } else {
        pass1_diags(files.drop_last()) + {
            let f = files.last();
            if f.requested {
                match f.outcome {
                    ParseOutcome::Unreadable { message } => seq![io_diag(f.path@, message@)],
                    ParseOutcome::SyntaxError { line, col, message } => seq![
                        syntax_diag(f.path@, line, col, message@),
                    ],
                    ParseOutcome::Parsed(_) => Seq::empty(),
                }
            } else {
                Seq::empty()
            }
        }
    }
}

/// Whether any requested file failed to parse.
pub open spec fn has_syntax_errors(files: Seq<SourceFile>) -> bool {
    exists|i: int|
        0 <= i < files.len() && (#[trigger] files[i]).requested && files[i].outcome matches ParseOutcome::SyntaxError { .. }
}

/// The module record one parsed file indexes to.
pub open spec fn module_record(ast: FileAst, module: Seq<Seq<char>>, path: Seq<char>) -> ModuleV {
    ModuleV {
        items: spec_index_items(ast.items@, module),
        uses: spec_index_uses(ast.items@),
        impls: spec_index_impls(ast.items@),
        file_path: path,
        child_modules: spec_child_modules(ast.items@),
    }
}

/// The symbol table of the whole package: every parseable file's record
/// under its module path, later files replacing earlier ones of the
/// same path.
pub open spec fn spec_build_table(files: Seq<SourceFile>) -> TableV
    decreases files.len(),
{
    if files.len() == 0 {
        Seq::empty()
    } else {
        let t = spec_build_table(files.drop_last());
        let f = files.last();
        match f.outcome {
            ParseOutcome::Parsed(ast) => spec_insert(
                t,
                f.module@,
                module_record(ast, f.module@, f.path@),
            ),
            _ => t,
        }
    }
}

/// The diagnostics of the second pass: each requested, parsed file
/// validated against the full table, in file order.
pub open spec fn pass2_diags(
    files: Seq<SourceFile>,
    table: TableV,
    src_dir: Seq<char>,
    cn: Option<Seq<char>>,
    existing: Seq<Seq<char>>,
) -> Seq<DiagV>
    decreases files.len(),
{
    if files.len() == 0 {
        Seq::empty()
    } else {
        pass2_diags(files.drop_last(), table, src_dir, cn, existing) + {
            let f = files.last();
            if f.requested {
                match f.outcome {
                    ParseOutcome::Parsed(ast) => spec_validate_file(
                        ast.items@,
                        ast.refs@,
                        f.path@,
                        f.module@,
                        table,
                        cn,
                        f.lines.deep_view(),
                        src_dir,
                        existing,
                    ),
                    _ => Seq::empty(),
                }
            } else {
                Seq::empty()
            }
        }
    }
}

/// Everything one analysis run reports: the first pass's diagnostics,
/// and — only when no requested file failed to parse — the second
/// pass's, against the table built from every parseable file.
pub open spec fn spec_analyze(
    files: Seq<SourceFile>,
    src_dir: Seq<char>,
    cn: Option<Seq<char>>,
    existing: Seq<Seq<char>>,
) -> Seq<DiagV> {
    if has_syntax_errors(files) {
        pass1_diags(files)
    } else {
        pass1_diags(files) + pass2_diags(files, spec_build_table(files), src_dir, cn, existing)
    }
}

/// Two-part concatenation.
fn cat2(p: &str, m: &str) -> (r: String)
    ensures
        r@ == p@ + m@,
{
    let mut s = p.to_owned();
    s.append(m);
    s
}

/// Run the whole analysis over the package's files.
pub fn analyze(
    files: &Vec<SourceFile>,
    src_dir: &str,
    crate_name: &Option<String>,
    existing_files: &Vec<String>,
) -> (r: AnalysisResult)
    requires
        forall|i: int|
            0 <= i < files@.len() ==> (#[trigger] files@[i]).lines@.len() < usize::MAX,
    ensures
        r@ == spec_analyze(
            files@,
            src_dir@,
            crate_name.deep_view(),
            existing_files.deep_view(),
        ),
{
    let ghost cn = crate_name.deep_view();
    let ghost existing = existing_files.deep_view();

    let mut diags: Vec<Diagnostic> = Vec::new();
    let mut saw_syntax_error = false;
    let mut i: usize = 0;
    while i < files.len()
        invariant
            i <= files@.len(),
            diags.deep_view() =~= pass1_diags(files@.take(i as int)),
            saw_syntax_error == exists|j: int|
                0 <= j < i && (#[trigger] files@[j]).requested && files@[j].outcome matches ParseOutcome::SyntaxError { .. },
        decreases files@.len() - i,
    {
        proof {
            assert(files@.take(i + 1).drop_last() =~= files@.take(i as int));
            assert(files@.take(i + 1).last() == files@[i as int]);
        }
        let f = &files[i];
        if f.requested {
            match &f.outcome {
                ParseOutcome::Unreadable { message } => {
                    let text = cat2("could not read file: ", message.as_str());
                    let d = Diagnostic {
                        severity: Severity::Error,
                        file: f.path.clone(),
                        line: 0,
                        column: 0,
                        message: text,
                        error_code: Option::None,
                        hint: Option::None,
                        fix: Option::None,
                    };
                    let ghost d0 = diags;
                    diags.push(d);
                    proof {
                        lemma_deep_push(d0, diags);
                        assert(diags.deep_view() =~~= pass1_diags(files@.take(i + 1)));
                    }
                },
                ParseOutcome::SyntaxError { line, col, message } => {
                    let text = cat2("syntax error: ", message.as_str());
                    let d = Diagnostic {
                        severity: Severity::Error,
                        file: f.path.clone(),
                        line: *line,
                        column: *col,
                        message: text,
                        error_code: Option::None,
                        hint: Option::None,
                        fix: Option::None,
                    };
                    let ghost d0 = diags;
                    diags.push(d);
                    saw_syntax_error = true;
                    proof {
                        lemma_deep_push(d0, diags);
                        assert(diags.deep_view() =~~= pass1_diags(files@.take(i + 1)));
                        assert((files@[i as int]).requested
                            && files@[i as int].outcome matches ParseOutcome::SyntaxError { .. });
                    }
                },
                ParseOutcome::Parsed(_) => {
                    proof {
                        assert(pass1_diags(files@.take(i + 1)) =~= pass1_diags(
                            files@.take(i as int),
                        ));
                    }
                },
            }
        } else {
            proof {
                assert(pass1_diags(files@.take(i + 1)) =~= pass1_diags(files@.take(i as int)));
            }
        }
        i += 1;
    }
    proof {
        assert(files@.take(files@.len() as int) =~= files@);
    }

    if saw_syntax_error {
        proof {
            assert(has_syntax_errors(files@));
        }
        return AnalysisResult { diagnostics: diags };
    }
    proof {
        assert(!has_syntax_errors(files@));
    }

    let mut table = SymbolTable::new();
    let mut k: usize = 0;
    while k < files.len()
        invariant
            k <= files@.len(),
            table@ =~= spec_build_table(files@.take(k as int)),
        decreases files@.len() - k,
    {
        proof {
            assert(files@.take(k + 1).drop_last() =~= files@.take(k as int));
            assert(files@.take(k + 1).last() == files@[k as int]);
        }
        let f = &files[k];
        match &f.outcome {
            ParseOutcome::Parsed(ast) => {
                let info = index_file(ast, &f.module, f.path.as_str());
                proof {
                    assert(info.deep_view() =~~= module_record(
                        files@[k as int].outcome->Parsed_0,
                        files@[k as int].module@,
                        files@[k as int].path@,
                    ));
                }
                table.insert(f.module.clone_path(), info);
                proof {
                    assert(table@ =~= spec_build_table(files@.take(k + 1)));
                }
            },
            _ => {
                proof {
                    assert(spec_build_table(files@.take(k + 1)) =~= spec_build_table(
                        files@.take(k as int),
                    ));
                }
            },
        }
        k += 1;
    }
    proof {
        assert(files@.take(files@.len() as int) =~= files@);
    }
    let ghost full_table = table@;

    let mut v: usize = 0;
    while v < files.len()
        invariant
            v <= files@.len(),
            full_table == table@,
            cn == crate_name.deep_view(),
            existing == existing_files.deep_view(),
            forall|j: int|
                0 <= j < files@.len() ==> (#[trigger] files@[j]).lines@.len() < usize::MAX,
            diags.deep_view() =~= pass1_diags(files@) + pass2_diags(
                files@.take(v as int),
                full_table,
                src_dir@,
                cn,
                existing,
            ),
        decreases files@.len() - v,
    {
        proof {
            assert(files@.take(v + 1).drop_last() =~= files@.take(v as int));
            assert(files@.take(v + 1).last() == files@[v as int]);
        }
        let f = &files[v];
        if f.requested {
            match &f.outcome {
                ParseOutcome::Parsed(ast) => {
                    let mut file_diags = validate_file(
                        ast,
                        f.path.as_str(),
                        &f.module,
                        &table,
                        src_dir,
                        crate_name,
                        &f.lines,
                        existing_files,
                    );
                    let ghost d0 = diags;
                    let ghost fd0 = file_diags;
                    diags.append(&mut file_diags);
                    proof {
                        lemma_deep_append(d0, fd0, diags);
                        assert(diags.deep_view() =~= pass1_diags(files@) + pass2_diags(
                            files@.take(v + 1),
                            full_table,
                            src_dir@,
                            cn,
                            existing,
                        ));
                    }
                },
                _ => {
                    proof {
                        assert(pass2_diags(files@.take(v + 1), full_table, src_dir@, cn, existing)
                            =~= pass2_diags(
                            files@.take(v as int),
                            full_table,
                            src_dir@,
                            cn,
                            existing,
                        ));
                    }
                },
            }
        } else {
            proof {
                assert(pass2_diags(files@.take(v + 1), full_table, src_dir@, cn, existing)
                    =~= pass2_diags(files@.take(v as int), full_table, src_dir@, cn, existing));
            }
        }
        v += 1;
    }
    proof {
        assert(files@.take(files@.len() as int) =~= files@);
    }
    AnalysisResult { diagnostics: diags }
}

} // verus!
