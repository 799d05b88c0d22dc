//! The fixer: deterministically rewrites file lines from the fixes that
//! an analysis attached to its diagnostics.
//!
//! Within one file the fixes are sorted by line, highest first, so that
//! an edit never shifts the line numbers of the edits still to come;
//! redundant import insertions are dropped first: one whose inserted
//! text names an import that a replacement in the same batch already
//! repairs, and any duplicate of an earlier identical insertion.

use vstd::prelude::*;
use vstd::string::*;

use crate::diagnostics::fix_file;
use crate::diagnostics::fix_line;
use crate::diagnostics::spec_fix_line;
use crate::diagnostics::count_fixable;
use crate::diagnostics::AnalysisResult;
use crate::diagnostics::DiagV;
use crate::diagnostics::Diagnostic;
use crate::diagnostics::Fix;
use crate::diagnostics::FixV;
use crate::paths::lemma_deep_push;
use crate::paths::str_eq;
use crate::text::seq_contains;
use crate::text::spec_replace_all;
use crate::text::str_contains;
use crate::text::trim_trailing_newlines;

verus! {

/// The fixes of `diags` that edit `file`, in diagnostic order.
pub open spec fn fixes_for(diags: Seq<DiagV>, file: Seq<char>) -> Seq<FixV>
    decreases diags.len(),
{
    if diags.len() == 0 {
        Seq::empty()
    } else {
        fixes_for(diags.drop_last(), file) + match diags.last().fix {
            Option::Some(f) => if fix_file(f) == file {
                seq![f]
            } else {
                Seq::empty()
            },
            Option::None => Seq::empty(),
        }
    }
}

/// The files the diagnostics' fixes edit, first appearance first.
pub open spec fn distinct_fix_files(diags: Seq<DiagV>) -> Seq<Seq<char>>
    decreases diags.len(),
{
    if diags.len() == 0 {
        Seq::empty()
    } else {
        let rest = distinct_fix_files(diags.drop_last());
        match diags.last().fix {
            Option::Some(f) => if rest.contains(fix_file(f)) {
                rest
            } else {
                rest.push(fix_file(f))
            },
            Option::None => rest,
        }
    }
}

/// `x` inserted into `s` behind every entry whose line is at least as
/// high: the insertion step of a stable, descending sort by line.
pub open spec fn insert_desc(s: Seq<FixV>, x: FixV) -> Seq<FixV>
    decreases s.len(),
{
    if s.len() == 0 {
        seq![x]
    } else if spec_fix_line(s.last()) >= spec_fix_line(x) {
        s.push(x)
    } else {
        insert_desc(s.drop_last(), x).push(s.last())
    }
}

/// `s` sorted by line, highest first, equal lines keeping their order.
pub open spec fn sort_desc(s: Seq<FixV>) -> Seq<FixV>
    decreases s.len(),
{
    if s.len() == 0 {
        Seq::empty()
    } else {
        insert_desc(sort_desc(s.drop_last()), s.last())
    }
}

/// Whether an insertion's text names an import that some replacement of
/// the batch already repairs.
pub open spec fn insert_matches_target(s: Seq<FixV>, content: Seq<char>) -> bool {
    exists|j: int|
        0 <= j < s.len() && ((#[trigger] s[j]) matches FixV::ReplaceLine { new_text, .. }
            && seq_contains(content, "::"@ + new_text + ";"@))
}

/// Whether the fix at `i` survives the redundancy pass.
pub open spec fn keep_fix(s: Seq<FixV>, i: int) -> bool {
    match s[i] {
        FixV::InsertLine { content, .. } => !insert_matches_target(s, content) && !(exists|j: int|
            0 <= j < i && ((#[trigger] s[j]) matches FixV::InsertLine { content: c2, .. } && c2
                == content)),
        _ => true,
    }
}

/// The first `n` fixes of `s` that survive the redundancy pass.
pub open spec fn dedup_prefix(s: Seq<FixV>, n: int) -> Seq<FixV>
    decreases n,
{
    if n <= 0 {
        Seq::empty()
    } else {
        dedup_prefix(s, n - 1) + if keep_fix(s, n - 1) {
            seq![s[n - 1]]
        } else {
            Seq::empty()
        }
    }
}

/// The fixes of `s` that survive the redundancy pass, in order.
pub open spec fn dedup_fixes(s: Seq<FixV>) -> Seq<FixV> {
    dedup_prefix(s, s.len() as int)
}

/// One fix applied to the lines: the new lines, and whether the fix
/// took effect. Insertions clamp to the file's length and always apply;
/// replacements apply only where the old text still stands on the
/// addressed line; removals apply only inside the file.
pub open spec fn apply_fix(lines: Seq<Seq<char>>, f: FixV) -> (Seq<Seq<char>>, bool) {
    match f {
        FixV::InsertLine { line, content, .. } => {
            let idx = if line == 0 {
                lines.len() as int
            } else if line - 1 < lines.len() {
                line - 1
            } else {
                lines.len() as int
            };
            (lines.insert(idx, trim_trailing_newlines(content)), true)
        },
        FixV::ReplaceLine { line, old_text, new_text, .. } => {
            let idx = if line == 0 {
                0int
            } else {
                line - 1
            };
            if idx < lines.len() && seq_contains(lines[idx], old_text) {
                (lines.update(idx, spec_replace_all(lines[idx], old_text, new_text)), true)
            } else {
                (lines, false)
            }
        },
        FixV::RemoveLine { line, .. } => {
            let idx = if line == 0 {
                0int
            } else {
                line - 1
            };
            if idx < lines.len() {
                (lines.remove(idx), true)
            } else {
                (lines, false)
            }
        },
    }
}

/// A list of fixes applied in order: the final lines and how many fixes
/// took effect.
pub open spec fn apply_fix_list(lines: Seq<Seq<char>>, fixes: Seq<FixV>) -> (Seq<Seq<char>>, int)
    decreases fixes.len(),
{
    if fixes.len() == 0 {
        (lines, 0)
    } else {
        let first = apply_fix(lines, fixes.first());
        let rest = apply_fix_list(first.0, fixes.drop_first());
        (rest.0, rest.1 + if first.1 {
            1int
        } else {
            0int
        })
    }
}

/// Appending one fix applies it after the others.
pub proof fn lemma_apply_list_push(lines: Seq<Seq<char>>, s: Seq<FixV>, x: FixV)
    ensures
        apply_fix_list(lines, s.push(x)) == {
            let mid = apply_fix_list(lines, s);
            let last = apply_fix(mid.0, x);
            (last.0, mid.1 + if last.1 {
                1int
            } else {
                0int
            })
        },
    decreases s.len(),
{
    reveal_with_fuel(apply_fix_list, 3);
    if s.len() == 0 {
        assert(s.push(x).drop_first() =~= s);
        assert(s.push(x).first() == x);
    } else {
        assert(s.push(x).first() == s.first());
        assert(s.push(x).drop_first() =~= s.drop_first().push(x));
        lemma_apply_list_push(apply_fix(lines, s.first()).0, s.drop_first(), x);
    }
}

/// What applying an analysis's fixes does to one file: the file's fixes
/// are selected, sorted by line highest first, stripped of redundant
/// insertions, and applied in that order.
pub open spec fn spec_apply_file_fixes(diags: Seq<DiagV>, file: Seq<char>, lines: Seq<Seq<char>>) -> (
    Seq<Seq<char>>,
    int,
) {
    apply_fix_list(lines, dedup_fixes(sort_desc(fixes_for(diags, file))))
}

/// The diagnostics that carry no fix, in order.
pub open spec fn remaining_diags(s: Seq<DiagV>) -> Seq<DiagV>
    decreases s.len(),
{
    if s.len() == 0 {
        Seq::empty()
    } else {
        remaining_diags(s.drop_last()) + if s.last().fix is None {
            seq![s.last()]
        } else {
            Seq::empty()
        }
    }
}

/// What applying the fixes returned: how many edits took effect, and
/// the diagnostics that had no fix attached.
pub struct ApplyResult {
    pub fixes_applied: usize,
    pub remaining: AnalysisResult,
}

// ───────────────────────── bounds on the applied count ─────────────────────────

/// Applying a list of fixes applies at most one edit per fix.
pub proof fn lemma_apply_count_bound(lines: Seq<Seq<char>>, fixes: Seq<FixV>)
    ensures
        0 <= apply_fix_list(lines, fixes).1 <= fixes.len(),
    decreases fixes.len(),
{
    if fixes.len() > 0 {
        lemma_apply_count_bound(apply_fix(lines, fixes.first()).0, fixes.drop_first());
    }
}

/// The redundancy pass never adds fixes.
pub proof fn lemma_dedup_len_bound(s: Seq<FixV>, n: int)
    requires
        n <= s.len(),
    ensures
        dedup_prefix(s, n).len() <= if n >= 0 {
            n
        } else {
            0
        },
    decreases n,
{
    if n > 0 {
        lemma_dedup_len_bound(s, n - 1);
    }
}

/// Sorting keeps the number of fixes.
pub proof fn lemma_sort_len(s: Seq<FixV>)
    ensures
        sort_desc(s).len() == s.len(),
    decreases s.len(),
{
    if s.len() > 0 {
        lemma_sort_len(s.drop_last());
        lemma_insert_len(sort_desc(s.drop_last()), s.last());
    }
}

/// Inserting one fix grows the batch by one.
proof fn lemma_insert_len(s: Seq<FixV>, x: FixV)
    ensures
        insert_desc(s, x).len() == s.len() + 1,
    decreases s.len(),
{
    if s.len() > 0 && !(spec_fix_line(s.last()) >= spec_fix_line(x)) {
        lemma_insert_len(s.drop_last(), x);
    }
}

/// How many of `fs` equal `x`.
pub open spec fn occurrences(fs: Seq<Seq<char>>, x: Seq<char>) -> int
    decreases fs.len(),
{
    if fs.len() == 0 {
        0
    } else {
        occurrences(fs.drop_last(), x) + if fs.last() == x {
            1int
        } else {
            0int
        }
    }
}

/// In a duplicate-free list every value occurs at most once.
proof fn lemma_occurrences_distinct(fs: Seq<Seq<char>>, x: Seq<char>)
    requires
        forall|i: int, j: int| 0 <= i < j < fs.len() ==> fs[i] != fs[j],
    ensures
        0 <= occurrences(fs, x) <= 1,
    decreases fs.len(),
{
    if fs.len() > 0 {
        lemma_occurrences_distinct(fs.drop_last(), x);
        if fs.last() == x && occurrences(fs.drop_last(), x) > 0 {
            lemma_occurrence_witness(fs.drop_last(), x);
            let i = choose|i: int| 0 <= i < fs.drop_last().len() && fs.drop_last()[i] == x;
            assert(fs[i] == fs[fs.len() - 1]);
        }
    }
}

/// A positive occurrence count has a witness.
proof fn lemma_occurrence_witness(fs: Seq<Seq<char>>, x: Seq<char>)
    requires
        occurrences(fs, x) > 0,
    ensures
        exists|i: int| 0 <= i < fs.len() && fs[i] == x,
    decreases fs.len(),
{
    if fs.len() > 0 {
        if fs.last() == x {
            assert(fs[fs.len() - 1] == x);
        } else {
            lemma_occurrence_witness(fs.drop_last(), x);
            let i = choose|i: int| 0 <= i < fs.drop_last().len() && fs.drop_last()[i] == x;
            assert(fs[i] == x);
        }
    }
}

/// The number of fixes selected for each of the files `fs`, summed.
pub open spec fn sum_selected(diags: Seq<DiagV>, fs: Seq<Seq<char>>) -> int
    decreases fs.len(),
{
    if fs.len() == 0 {
        0
    } else {
        sum_selected(diags, fs.drop_last()) + fixes_for(diags, fs.last()).len()
    }
}

/// One more diagnostic grows each file's selection by its own fix at
/// most; summed over the files, by the fix's occurrence count.
proof fn lemma_sum_selected_step(diags: Seq<DiagV>, fs: Seq<Seq<char>>)
    requires
        diags.len() > 0,
    ensures
        sum_selected(diags, fs) == sum_selected(diags.drop_last(), fs) + match diags.last().fix {
            Option::Some(f) => occurrences(fs, fix_file(f)),
            Option::None => 0,
        },
    decreases fs.len(),
{
    if fs.len() > 0 {
        lemma_sum_selected_step(diags, fs.drop_last());
    }
}

/// Over duplicate-free files, the selections partition the fixes: their
/// sizes sum to at most the number of fixable diagnostics.
pub proof fn lemma_sum_selected_bound(diags: Seq<DiagV>, fs: Seq<Seq<char>>)
    requires
        forall|i: int, j: int| 0 <= i < j < fs.len() ==> fs[i] != fs[j],
    ensures
        0 <= sum_selected(diags, fs) <= count_fixable(diags),
    decreases diags.len(),
{
    if diags.len() == 0 {
        lemma_sum_selected_empty(diags, fs);
    } else {
        lemma_sum_selected_bound(diags.drop_last(), fs);
        lemma_sum_selected_step(diags, fs);
        match diags.last().fix {
            Option::Some(f) => {
                lemma_occurrences_distinct(fs, fix_file(f));
            },
            Option::None => {},
        }
    }
}

/// With no diagnostics nothing is selected.
proof fn lemma_sum_selected_empty(diags: Seq<DiagV>, fs: Seq<Seq<char>>)
    requires
        diags.len() == 0,
    ensures
        sum_selected(diags, fs) == 0,
    decreases fs.len(),
{
    if fs.len() > 0 {
        lemma_sum_selected_empty(diags, fs.drop_last());
    }
}

/// One file's text, for applying fixes: its path and its lines.
pub struct FileText {
    pub path: String,
    pub lines: Vec<String>,
}

/// The fixable diagnostics are no more than the diagnostics.
proof fn lemma_count_fixable_bound(s: Seq<DiagV>)
    ensures
        0 <= count_fixable(s) <= s.len(),
    decreases s.len(),
{
    if s.len() > 0 {
        lemma_count_fixable_bound(s.drop_last());
    }
}

/// One file's applied count never exceeds its selection.
proof fn lemma_file_applied_bound(diags: Seq<DiagV>, file: Seq<char>, lines: Seq<Seq<char>>)
    ensures
        0 <= spec_apply_file_fixes(diags, file, lines).1 <= fixes_for(diags, file).len(),
{
    let sel = fixes_for(diags, file);
    lemma_sort_len(sel);
    lemma_dedup_len_bound(sort_desc(sel), sort_desc(sel).len() as int);
    lemma_apply_count_bound(lines, dedup_fixes(sort_desc(sel)));
}

/// The edits applied across all the given files, summed.
pub open spec fn spec_total_applied(diags: Seq<DiagV>, files: Seq<FileText>) -> int
    decreases files.len(),
{
    if files.len() == 0 {
        0
    } else {
        spec_total_applied(diags, files.drop_last()) + spec_apply_file_fixes(
            diags,
            files.last().path@,
            files.last().lines.deep_view(),
        ).1
    }
}

/// The paths of the given files.
pub open spec fn paths_of(files: Seq<FileText>) -> Seq<Seq<char>> {
    files.map_values(|f: FileText| f.path@)
}

/// Across files with pairwise distinct paths, the total applied count
/// never exceeds the number of fixable diagnostics.
pub proof fn lemma_total_applied_bound(diags: Seq<DiagV>, files: Seq<FileText>)
    requires
        forall|i: int, j: int|
            0 <= i < j < files.len() ==> (#[trigger] files[i]).path@ != (#[trigger] files[j]).path@,
    ensures
        0 <= spec_total_applied(diags, files) <= count_fixable(diags),
{
    lemma_total_vs_sum(diags, files);
    assert(forall|i: int, j: int|
        0 <= i < j < paths_of(files).len() ==> paths_of(files)[i] != paths_of(files)[j]);
    lemma_sum_selected_bound(diags, paths_of(files));
}

/// The total applied count is bounded by the summed selections.
proof fn lemma_total_vs_sum(diags: Seq<DiagV>, files: Seq<FileText>)
    ensures
        0 <= spec_total_applied(diags, files) <= sum_selected(diags, paths_of(files)),
    decreases files.len(),
{
    if files.len() > 0 {
        lemma_total_vs_sum(diags, files.drop_last());
        lemma_file_applied_bound(diags, files.last().path@, files.last().lines.deep_view());
        assert(paths_of(files).drop_last() =~= paths_of(files.drop_last()));
        assert(paths_of(files).last() == files.last().path@);
    }
}

/// Apply every fix of `result` to the given files — one text per edited
/// file, paths pairwise distinct. Each file's fixes are sorted by line
/// highest first, stripped of redundant insertions and applied in that
/// order; the outcome counts the edits that took effect and keeps the
/// diagnostics that had no fix, and the rewritten texts come back in
/// the given order.
pub fn apply_fixes(result: &AnalysisResult, files: &Vec<FileText>) -> (r: (
    ApplyResult,
    Vec<FileText>,
))
    requires
        forall|i: int, j: int|
            0 <= i < j < files@.len() ==> (#[trigger] files@[i]).path@ != (
            #[trigger] files@[j]).path@,
    ensures
        r.0.fixes_applied == spec_total_applied(result@, files@),
        r.0.remaining@ == remaining_diags(result@),
        r.1@.len() == files@.len(),
        forall|i: int|
            0 <= i < files@.len() ==> (#[trigger] r.1@[i]).path@ == files@[i].path@
                && r.1@[i].lines.deep_view() == spec_apply_file_fixes(
                result@,
                files@[i].path@,
                files@[i].lines.deep_view(),
            ).0,
{
    let diag_count = result.diagnostics.len();
    proof {
        assert(result@.len() == diag_count);
    }
    let mut out: Vec<FileText> = Vec::new();
    let mut total: usize = 0;
    let mut i: usize = 0;
    while i < files.len()
        invariant
            i <= files@.len(),
            forall|a: int, b: int|
                0 <= a < b < files@.len() ==> (#[trigger] files@[a]).path@ != (
                #[trigger] files@[b]).path@,
            result@.len() == diag_count,
            total == spec_total_applied(result@, files@.take(i as int)),
            0 <= total <= diag_count,
            out@.len() == i,
            forall|j: int|
                0 <= j < i ==> (#[trigger] out@[j]).path@ == files@[j].path@
                    && out@[j].lines.deep_view() == spec_apply_file_fixes(
                    result@,
                    files@[j].path@,
                    files@[j].lines.deep_view(),
                ).0,
        decreases files@.len() - i,
    {
        proof {
            assert(files@.take(i + 1).drop_last() =~= files@.take(i as int));
            assert(files@.take(i + 1).last() == files@[i as int]);
        }
        let ft = &files[i];
        let lines = crate::paths::clone_strings(&ft.lines);
        let (new_lines, applied) = apply_file_fixes(result, &ft.path, lines);
        proof {
            assert(forall|a: int, b: int|
                0 <= a < b < files@.take(i + 1).len() ==> (#[trigger] files@.take(i + 1)[a]).path@
                    != (#[trigger] files@.take(i + 1)[b]).path@);
            lemma_total_applied_bound(result@, files@.take(i + 1));
            lemma_count_fixable_bound(result@);
        }
        total = total + applied;
        out.push(FileText { path: ft.path.clone(), lines: new_lines });
        i += 1;
    }
    proof {
        assert(files@.take(files@.len() as int) =~= files@);
    }
    let remainder = make_apply_result(total, result);
    (remainder, out)
}

/// The files that the fixes of `result` edit, in first-appearance
/// order: the fixer rewrites exactly these.
pub fn plan_fix_files(result: &AnalysisResult) -> (r: Vec<String>)
    ensures
        r.deep_view() == distinct_fix_files(result@),
{
    let mut r: Vec<String> = Vec::new();
    let mut i: usize = 0;
    while i < result.diagnostics.len()
        invariant
            i <= result@.len(),
            r.deep_view() =~= distinct_fix_files(result@.take(i as int)),
        decreases result@.len() - i,
    {
        proof {
            assert(result@.take(i + 1).drop_last() =~= result@.take(i as int));
            assert(result@.take(i + 1).last() == result.diagnostics@[i as int].deep_view());
        }
        match &result.diagnostics[i].fix {
            Option::Some(f) => {
                let file = f.file();
                if !crate::discovery::contains_string(&r, file) {
                    let ghost r0 = r;
                    r.push(file.clone());
                    proof {
                        lemma_deep_push(r0, r);
                        assert(r.deep_view() =~= distinct_fix_files(result@.take(i + 1)));
                    }
                } else {
                    proof {
                        assert(distinct_fix_files(result@.take(i + 1)) =~= distinct_fix_files(
                            result@.take(i as int),
                        ));
                    }
                }
            },
            Option::None => {
                proof {
                    assert(distinct_fix_files(result@.take(i + 1)) =~= distinct_fix_files(
                        result@.take(i as int),
                    ));
                }
            },
        }
        i += 1;
    }
    proof {
        assert(result@.take(result@.len() as int) =~= result@);
    }
    r
}

/// Insertion at the found position equals `insert_desc`.
proof fn lemma_insert_desc_at(s: Seq<FixV>, x: FixV, p: int)
    requires
        0 <= p <= s.len(),
        forall|j: int| p <= j < s.len() ==> spec_fix_line(#[trigger] s[j]) < spec_fix_line(x),
        p > 0 ==> spec_fix_line(s[p - 1]) >= spec_fix_line(x),
    ensures
        insert_desc(s, x) == s.take(p) + seq![x] + s.skip(p),
    decreases s.len() - p,
{
    if p == s.len() {
        if s.len() == 0 {
            assert(insert_desc(s, x) =~= s.take(p) + seq![x] + s.skip(p));
        } else {
            assert(insert_desc(s, x) =~= s.take(p) + seq![x] + s.skip(p));
        }
    } else {
        lemma_insert_desc_at(s.drop_last(), x, p);
        assert(s.drop_last().take(p) =~= s.take(p));
        assert(s.drop_last().skip(p) =~= s.skip(p).drop_last());
        assert(insert_desc(s, x) =~= (s.take(p) + seq![x] + s.skip(p).drop_last()).push(s.last()));
        assert((s.take(p) + seq![x] + s.skip(p).drop_last()).push(s.last()) =~= s.take(p) + seq![x]
            + s.skip(p));
    }
}

/// Select the fixes of `result` that edit `file`, in diagnostic order.
fn select_fixes<'a>(result: &'a AnalysisResult, file: &String) -> (r: Vec<&'a Fix>)
    ensures
        r.deep_view() == fixes_for(result@, file@),
{
    let mut r: Vec<&'a Fix> = Vec::new();
    let mut i: usize = 0;
    while i < result.diagnostics.len()
        invariant
            i <= result@.len(),
            r.deep_view() =~= fixes_for(result@.take(i as int), file@),
        decreases result@.len() - i,
    {
        proof {
            assert(result@.take(i + 1).drop_last() =~= result@.take(i as int));
            assert(result@.take(i + 1).last() == result.diagnostics@[i as int].deep_view());
        }
        match &result.diagnostics[i].fix {
            Option::Some(f) => {
                if str_eq(f.file(), file) {
                    let ghost r0 = r;
                    r.push(f);
                    proof {
                        lemma_deep_push(r0, r);
                        assert(r.deep_view() =~= fixes_for(result@.take(i + 1), file@));
                    }
                } else {
                    proof {
                        assert(fixes_for(result@.take(i + 1), file@) =~= fixes_for(
                            result@.take(i as int),
                            file@,
                        ));
                    }
                }
            },
            Option::None => {
                proof {
                    assert(fixes_for(result@.take(i + 1), file@) =~= fixes_for(
                        result@.take(i as int),
                        file@,
                    ));
                }
            },
        }
        i += 1;
    }
    proof {
        assert(result@.take(result@.len() as int) =~= result@);
    }
    r
}

/// Sort fixes by line, highest first, stably.
fn sort_fixes<'a>(fixes: Vec<&'a Fix>) -> (r: Vec<&'a Fix>)
    ensures
        r.deep_view() == sort_desc(fixes.deep_view()),
{
    let ghost fv = fixes.deep_view();
    let mut r: Vec<&'a Fix> = Vec::new();
    let mut i: usize = 0;
    while i < fixes.len()
        invariant
            i <= fixes@.len(),
            fv == fixes.deep_view(),
            r.deep_view() =~= sort_desc(fv.take(i as int)),
        decreases fixes@.len() - i,
    {
        proof {
            assert(fv.take(i + 1).drop_last() =~= fv.take(i as int));
            assert(fv.take(i + 1).last() == fixes@[i as int].deep_view());
        }
        let x = fixes[i];
        let x_line = fix_line(x);
        let mut pos: usize = r.len();
        while pos > 0 && fix_line(r[pos - 1]) < x_line
            invariant
                pos <= r@.len(),
                x_line == spec_fix_line(x.deep_view()),
                forall|j: int|
                    pos <= j < r@.len() ==> spec_fix_line(#[trigger] r.deep_view()[j])
                        < spec_fix_line(x.deep_view()),
            decreases pos,
        {
            proof {
                assert(r.deep_view()[pos - 1] == r@[pos - 1].deep_view());
            }
            pos -= 1;
        }
        proof {
            if pos > 0 {
                assert(r.deep_view()[pos - 1] == r@[pos - 1].deep_view());
            }
        }
        let ghost r_before = r.deep_view();
        r.insert(pos, x);
        proof {
            lemma_insert_desc_at(r_before, x.deep_view(), pos as int);
            assert forall|j: int| 0 <= j < r@.len() implies r.deep_view()[j] == (r_before.take(
                pos as int,
            ) + seq![x.deep_view()] + r_before.skip(pos as int))[j] by {
                assert(r.deep_view()[j] == r@[j].deep_view());
            }
            assert(r.deep_view() =~= insert_desc(r_before, x.deep_view()));
            assert(r.deep_view() =~= sort_desc(fv.take(i + 1)));
        }
        i += 1;
    }
    proof {
        assert(fv.take(fv.len() as int) =~= fv);
    }
    r
}

/// Whether `content` names an import some replacement already repairs.
fn matches_any_target(sorted: &Vec<&Fix>, content: &String) -> (r: bool)
    ensures
        r == insert_matches_target(sorted.deep_view(), content@),
{
    let ghost sv = sorted.deep_view();
    let mut j: usize = 0;
    while j < sorted.len()
        invariant
            j <= sorted@.len(),
            sv == sorted.deep_view(),
            forall|k: int|
                0 <= k < j ==> !(((#[trigger] sv[k]) matches FixV::ReplaceLine { new_text, .. }
                    && seq_contains(content@, "::"@ + new_text + ";"@))),
        decreases sorted@.len() - j,
    {
        proof {
            assert(sv[j as int] == sorted@[j as int].deep_view());
        }
        match sorted[j] {
            Fix::ReplaceLine { new_text, .. } => {
                let mut pattern = "::".to_owned();
                pattern.append(new_text.as_str());
                pattern.append(";");
                if str_contains(content.as_str(), pattern.as_str()) {
                    proof {
                        assert(pattern@ == "::"@ + new_text@ + ";"@);
                        assert(insert_matches_target(sv, content@));
                    }
                    return true;
                }
            },
            _ => {},
        }
        j += 1;
    }
    false
}

/// Whether an earlier insertion of the batch carries the same text.
fn earlier_insert_same(sorted: &Vec<&Fix>, upto: usize, content: &String) -> (r: bool)
    requires
        upto <= sorted@.len(),
    ensures
        r == exists|j: int|
            0 <= j < upto && ((#[trigger] sorted.deep_view()[j]) matches FixV::InsertLine {
                content: c2,
                ..
            } && c2 == content@),
{
    let ghost sv = sorted.deep_view();
    let mut j: usize = 0;
    while j < upto
        invariant
            j <= upto <= sorted@.len(),
            sv == sorted.deep_view(),
            forall|k: int|
                0 <= k < j ==> !(((#[trigger] sv[k]) matches FixV::InsertLine { content: c2, .. }
                    && c2 == content@)),
        decreases upto - j,
    {
        proof {
            assert(sv[j as int] == sorted@[j as int].deep_view());
        }
        match sorted[j] {
            Fix::InsertLine { content: c2, .. } => {
                if str_eq(c2, content) {
                    proof {
                        assert(((sv[j as int]) matches FixV::InsertLine { content: c2v, .. } && c2v
                            == content@));
                    }
                    return true;
                }
            },
            _ => {},
        }
        j += 1;
    }
    false
}

/// Drop redundant insertions from the sorted batch.
fn dedup_sorted<'a>(sorted: Vec<&'a Fix>) -> (r: Vec<&'a Fix>)
    ensures
        r.deep_view() == dedup_fixes(sorted.deep_view()),
{
    let ghost sv = sorted.deep_view();
    let mut r: Vec<&'a Fix> = Vec::new();
    let mut i: usize = 0;
    while i < sorted.len()
        invariant
            i <= sorted@.len(),
            sv == sorted.deep_view(),
            r.deep_view() =~= dedup_prefix(sv, i as int),
        decreases sorted@.len() - i,
    {
        proof {
            assert(sv[i as int] == sorted@[i as int].deep_view());
        }
        let keep: bool = match sorted[i] {
            Fix::InsertLine { content, .. } => {
                let target = matches_any_target(&sorted, content);
                if target {
                    false
                } else {
                    !earlier_insert_same(&sorted, i, content)
                }
            },
            _ => true,
        };
        proof {
            assert(keep == keep_fix(sv, i as int));
        }
        if keep {
            let ghost r0 = r;
            r.push(sorted[i]);
            proof {
                lemma_deep_push(r0, r);
                assert(r.deep_view() =~= dedup_prefix(sv, i + 1));
            }
        } else {
            proof {
                assert(dedup_prefix(sv, i + 1) =~= dedup_prefix(sv, i as int));
            }
        }
        i += 1;
    }
    r
}

/// Apply one batch of fixes to the lines, in order.
fn apply_batch(fixes: &Vec<&Fix>, lines: Vec<String>) -> (r: (Vec<String>, usize))
    ensures
        ({
            let spec = apply_fix_list(lines.deep_view(), fixes.deep_view());
            r.0.deep_view() == spec.0 && r.1 == spec.1
        }),
{
    let ghost fv = fixes.deep_view();
    let ghost lines0 = lines.deep_view();
    let mut out = lines;
    let mut applied: usize = 0;
    let mut i: usize = 0;
    while i < fixes.len()
        invariant
            i <= fixes@.len(),
            fv == fixes.deep_view(),
            applied <= i,
            ({
                let spec = apply_fix_list(lines0, fv.take(i as int));
                out.deep_view() == spec.0 && applied == spec.1
            }),
        decreases fixes@.len() - i,
    {
        proof {
            assert(fv.take(i + 1).drop_last() =~= fv.take(i as int));
            assert(fv.take(i + 1) =~= fv.take(i as int).push(fv[i as int]));
            assert(fv[i as int] == fixes@[i as int].deep_view());
            lemma_apply_list_push(lines0, fv.take(i as int), fv[i as int]);
        }
        match fixes[i] {
            Fix::InsertLine { line, content, .. } => {
                let idx: usize = if *line == 0 {
                    out.len()
                } else if *line - 1 < out.len() {
                    *line - 1
                } else {
                    out.len()
                };
                let text = crate::text::strip_trailing_newlines(content.as_str());
                let ghost o0 = out;
                out.insert(idx, text);
                applied += 1;
                proof {
                    assert forall|j: int| 0 <= j < out@.len() implies out.deep_view()[j] == (
                    o0.deep_view().insert(idx as int, trim_trailing_newlines(content@)))[j] by {
                        assert(out.deep_view()[j] == out@[j].deep_view());
                        if j < idx {
                            assert(out@[j] == o0@[j]);
                            assert(o0.deep_view()[j] == o0@[j].deep_view());
                        } else if j > idx {
                            assert(out@[j] == o0@[j - 1]);
                            assert(o0.deep_view()[j - 1] == o0@[j - 1].deep_view());
                        }
                    }
                    assert(out.deep_view() =~= o0.deep_view().insert(
                        idx as int,
                        trim_trailing_newlines(content@),
                    ));
                }
            },
            Fix::ReplaceLine { line, old_text, new_text, .. } => {
                let idx: usize = if *line == 0 {
                    0
                } else {
                    *line - 1
                };
                if idx < out.len() && str_contains(out[idx].as_str(), old_text.as_str()) {
                    let new_line = crate::text::replace_all(
                        out[idx].as_str(),
                        old_text.as_str(),
                        new_text.as_str(),
                    );
                    let ghost o0 = out;
                    out.remove(idx);
                    out.insert(idx, new_line);
                    applied += 1;
                    proof {
                        assert forall|j: int| 0 <= j < out@.len() implies out.deep_view()[j] == (
                        o0.deep_view().update(
                            idx as int,
                            spec_replace_all(o0.deep_view()[idx as int], old_text@, new_text@),
                        ))[j] by {
                            assert(out.deep_view()[j] == out@[j].deep_view());
                            if j != idx {
                                assert(out@[j] == o0@[j]);
                                assert(o0.deep_view()[j] == o0@[j].deep_view());
                            }
                        }
                        assert(out.deep_view() =~= o0.deep_view().update(
                            idx as int,
                            spec_replace_all(o0.deep_view()[idx as int], old_text@, new_text@),
                        ));
                    }
                } else {
                    proof {
                        assert(!(idx < out.deep_view().len() && seq_contains(
                            out.deep_view()[idx as int],
                            old_text@,
                        )));
                    }
                }
            },
            Fix::RemoveLine { line, .. } => {
                let idx: usize = if *line == 0 {
                    0
                } else {
                    *line - 1
                };
                if idx < out.len() {
                    let ghost o0 = out;
                    out.remove(idx);
                    applied += 1;
                    proof {
                        assert forall|j: int| 0 <= j < out@.len() implies out.deep_view()[j]
                            == o0.deep_view().remove(idx as int)[j] by {
                            assert(out.deep_view()[j] == out@[j].deep_view());
                            if j < idx {
                                assert(out@[j] == o0@[j]);
                                assert(o0.deep_view()[j] == o0@[j].deep_view());
                            } else {
                                assert(out@[j] == o0@[j + 1]);
                                assert(o0.deep_view()[j + 1] == o0@[j + 1].deep_view());
                            }
                        }
                        assert(out.deep_view() =~= o0.deep_view().remove(idx as int));
                    }
                }
            },
        }
        i += 1;
    }
    proof {
        assert(fv.take(fv.len() as int) =~= fv);
    }
    (out, applied)
}

/// Apply every fix of `result` that edits `file` to that file's lines:
/// the fixes are sorted by line, highest first, redundant insertions
/// are dropped, and the rest take effect in order. Returns the new
/// lines and how many fixes took effect.
pub fn apply_file_fixes(result: &AnalysisResult, file: &String, lines: Vec<String>) -> (r: (
    Vec<String>,
    usize,
))
    ensures
        ({
            let spec = spec_apply_file_fixes(result@, file@, lines.deep_view());
            r.0.deep_view() == spec.0 && r.1 == spec.1
        }),
{
    let selected = select_fixes(result, file);
    let sorted = sort_fixes(selected);
    let kept = dedup_sorted(sorted);
    apply_batch(&kept, lines)
}

/// Clone one fix, keeping its text.
fn clone_fix(f: &Fix) -> (r: Fix)
    ensures
        r.deep_view() == f.deep_view(),
{
    match f {
        Fix::InsertLine { file, line, content } => Fix::InsertLine {
            file: file.clone(),
            line: *line,
            content: content.clone(),
        },
        Fix::ReplaceLine { file, line, old_text, new_text } => Fix::ReplaceLine {
            file: file.clone(),
            line: *line,
            old_text: old_text.clone(),
            new_text: new_text.clone(),
        },
        Fix::RemoveLine { file, line } => Fix::RemoveLine { file: file.clone(), line: *line },
    }
}

/// Clone one diagnostic, keeping its text.
pub fn clone_diagnostic(d: &Diagnostic) -> (r: Diagnostic)
    ensures
        r.deep_view() == d.deep_view(),
{
    Diagnostic {
        severity: d.severity,
        file: d.file.clone(),
        line: d.line,
        column: d.column,
        message: d.message.clone(),
        error_code: match &d.error_code {
            Option::Some(c) => Option::Some(c.clone()),
            Option::None => Option::None,
        },
        hint: match &d.hint {
            Option::Some(h) => Option::Some(h.clone()),
            Option::None => Option::None,
        },
        fix: match &d.fix {
            Option::Some(f) => Option::Some(clone_fix(f)),
            Option::None => Option::None,
        },
    }
}

/// The apply outcome: `fixes_applied` as counted by the caller across
/// files, and the diagnostics of `result` that had no fix attached.
pub fn make_apply_result(fixes_applied: usize, result: &AnalysisResult) -> (r: ApplyResult)
    ensures
        r.fixes_applied == fixes_applied,
        r.remaining@ == remaining_diags(result@),
{
    let mut remaining: Vec<Diagnostic> = Vec::new();
    let mut i: usize = 0;
    while i < result.diagnostics.len()
        invariant
            i <= result@.len(),
            remaining.deep_view() =~= remaining_diags(result@.take(i as int)),
        decreases result@.len() - i,
    {
        proof {
            assert(result@.take(i + 1).drop_last() =~= result@.take(i as int));
            assert(result@.take(i + 1).last() == result.diagnostics@[i as int].deep_view());
        }
        if result.diagnostics[i].fix.is_none() {
            let d = clone_diagnostic(&result.diagnostics[i]);
            let ghost r0 = remaining;
            remaining.push(d);
            proof {
                lemma_deep_push(r0, remaining);
                assert(remaining.deep_view() =~= remaining_diags(result@.take(i + 1)));
            }
        } else {
            proof {
                assert(remaining_diags(result@.take(i + 1)) =~= remaining_diags(
                    result@.take(i as int),
                ));
            }
        }
        i += 1;
    }
    proof {
        assert(result@.take(result@.len() as int) =~= result@);
    }
    ApplyResult { fixes_applied, remaining: AnalysisResult { diagnostics: remaining } }
}

} // verus!
