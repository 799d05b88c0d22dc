//! Diagnostics and fixes: what the validation engine reports, and the
//! counting helpers over a whole analysis result.

use vstd::prelude::*;

verus! {

/// How severe a diagnostic is. Errors fail a run; suggestions do not.
#[derive(Clone, Copy, PartialEq, Eq, Structural, Debug)]
pub enum Severity {
    Error,
    Suggestion,
}

/// A structured, line-addressed text edit attached to a diagnostic.
/// Line numbers are 1-indexed and refer to the file as it stood when the
/// analysis ran.
pub enum Fix {
    /// Insert `content` before the 1-indexed `line`; 0 appends at the end.
    InsertLine { file: String, line: usize, content: String },
    /// Replace every occurrence of `old_text` within `line` by `new_text`.
    ReplaceLine { file: String, line: usize, old_text: String, new_text: String },
    /// Remove the 1-indexed `line` outright.
    RemoveLine { file: String, line: usize },
}

/// Ghost mirror of `Fix`.
#[verifier::ext_equal]
pub enum FixV {
    InsertLine { file: Seq<char>, line: usize, content: Seq<char> },
    ReplaceLine { file: Seq<char>, line: usize, old_text: Seq<char>, new_text: Seq<char> },
    RemoveLine { file: Seq<char>, line: usize },
}

impl DeepView for Fix {
    type V = FixV;

    open spec fn deep_view(&self) -> FixV {
        match self {
            Fix::InsertLine { file, line, content } => FixV::InsertLine {
                file: file@,
                line: *line,
                content: content@,
            },
            Fix::ReplaceLine { file, line, old_text, new_text } => FixV::ReplaceLine {
                file: file@,
                line: *line,
                old_text: old_text@,
                new_text: new_text@,
            },
            Fix::RemoveLine { file, line } => FixV::RemoveLine { file: file@, line: *line },
        }
    }
}

impl View for Fix {
    type V = FixV;

    open spec fn view(&self) -> FixV {
        self.deep_view()
    }
}

/// The file a fix edits.
pub open spec fn fix_file(f: FixV) -> Seq<char> {
    match f {
        FixV::InsertLine { file, .. } => file,
        FixV::ReplaceLine { file, .. } => file,
        FixV::RemoveLine { file, .. } => file,
    }
}

/// The line a fix addresses.
pub open spec fn spec_fix_line(f: FixV) -> usize {
    match f {
        FixV::InsertLine { line, .. } => line,
        FixV::ReplaceLine { line, .. } => line,
        FixV::RemoveLine { line, .. } => line,
    }
}

impl Fix {
    /// The file this fix edits.
    pub fn file(&self) -> (r: &String)
        ensures
            r@ == fix_file(self@),
    {
        match self {
            Fix::InsertLine { file, .. } => file,
            Fix::ReplaceLine { file, .. } => file,
            Fix::RemoveLine { file, .. } => file,
        }
    }
}

/// The line a fix addresses.
pub fn fix_line(fix: &Fix) -> (r: usize)
    ensures
        r == spec_fix_line(fix@),
{
    match fix {
        Fix::InsertLine { line, .. } => *line,
        Fix::ReplaceLine { line, .. } => *line,
        Fix::RemoveLine { line, .. } => *line,
    }
}

/// One reported issue: severity, place, message, optional taxonomy code,
/// optional hint and optional fix. Line and column are 1-indexed.
pub struct Diagnostic {
    pub severity: Severity,
    pub file: String,
    pub line: usize,
    pub column: usize,
    pub message: String,
    pub error_code: Option<String>,
    pub hint: Option<String>,
    pub fix: Option<Fix>,
}

/// Ghost mirror of `Diagnostic`.
#[verifier::ext_equal]
pub struct DiagV {
    pub severity: Severity,
    pub file: Seq<char>,
    pub line: usize,
    pub column: usize,
    pub message: Seq<char>,
    pub error_code: Option<Seq<char>>,
    pub hint: Option<Seq<char>>,
    pub fix: Option<FixV>,
}

impl DeepView for Diagnostic {
    type V = DiagV;

    open spec fn deep_view(&self) -> DiagV {
        DiagV {
            severity: self.severity,
            file: self.file@,
            line: self.line,
            column: self.column,
            message: self.message@,
            error_code: self.error_code.deep_view(),
            hint: self.hint.deep_view(),
            fix: self.fix.deep_view(),
        }
    }
}

impl View for Diagnostic {
    type V = DiagV;

    open spec fn view(&self) -> DiagV {
        self.deep_view()
    }
}

/// How many diagnostics of `s` are errors.
pub open spec fn count_errors(s: Seq<DiagV>) -> int
    decreases s.len(),
{
    if s.len() == 0 {
        0
    } else {
        count_errors(s.drop_last()) + if s.last().severity is Error {
            1int
        } else {
            0int
        }
    }
}

/// How many diagnostics of `s` are suggestions.
pub open spec fn count_suggestions(s: Seq<DiagV>) -> int
    decreases s.len(),
{
    if s.len() == 0 {
        0
    } else {
        count_suggestions(s.drop_last()) + if s.last().severity is Suggestion {
            1int
        } else {
            0int
        }
    }
}

/// How many diagnostics of `s` carry a fix.
pub open spec fn count_fixable(s: Seq<DiagV>) -> int
    decreases s.len(),
{
    if s.len() == 0 {
        0
    } else {
        count_fixable(s.drop_last()) + if s.last().fix is Some {
            1int
        } else {
            0int
        }
    }
}

/// The fixes attached to the diagnostics of `s`, in order.
pub open spec fn spec_fixes(s: Seq<DiagV>) -> Seq<FixV>
    decreases s.len(),
{
    if s.len() == 0 {
        Seq::empty()
    } else {
        spec_fixes(s.drop_last()) + match s.last().fix {
            Option::Some(f) => seq![f],
            Option::None => Seq::empty(),
        }
    }
}

/// The outcome of one analysis run: every diagnostic it produced, in
/// the order the checks emitted them.
pub struct AnalysisResult {
    pub diagnostics: Vec<Diagnostic>,
}

impl View for AnalysisResult {
    type V = Seq<DiagV>;

    open spec fn view(&self) -> Seq<DiagV> {
        self.diagnostics.deep_view()
    }
}

impl AnalysisResult {
    /// Whether any diagnostic is an error.
    pub fn has_errors(&self) -> (r: bool)
        ensures
            r == exists|i: int| 0 <= i < self@.len() && (#[trigger] self@[i]).severity is Error,
    {
        let mut i: usize = 0;
        while i < self.diagnostics.len()
            invariant
                i <= self@.len(),
                forall|j: int| 0 <= j < i ==> !((#[trigger] self@[j]).severity is Error),
            decreases self@.len() - i,
        {
            if matches!(self.diagnostics[i].severity, Severity::Error) {
                proof {
                    assert((self@[i as int]).severity is Error);
                }
                return true;
            }
            proof {
                assert(self@[i as int] == self.diagnostics@[i as int].deep_view());
            }
            i += 1;
        }
        false
    }

    /// The number of error diagnostics.
    pub fn error_count(&self) -> (r: usize)
        ensures
            r == count_errors(self@),
    {
        let mut count: usize = 0;
        let mut i: usize = 0;
        while i < self.diagnostics.len()
            invariant
                i <= self@.len(),
                count == count_errors(self@.take(i as int)),
                count <= i,
            decreases self@.len() - i,
        {
            proof {
                assert(self@.take(i + 1).drop_last() =~= self@.take(i as int));
                assert(self@.take(i + 1).last() == self.diagnostics@[i as int].deep_view());
            }
            if matches!(self.diagnostics[i].severity, Severity::Error) {
                count += 1;
            }
            i += 1;
        }
        proof {
            assert(self@.take(self@.len() as int) =~= self@);
        }
        count
    }

    /// The number of suggestion diagnostics.
    pub fn suggestion_count(&self) -> (r: usize)
        ensures
            r == count_suggestions(self@),
    {
        let mut count: usize = 0;
        let mut i: usize = 0;
        while i < self.diagnostics.len()
            invariant
                i <= self@.len(),
                count == count_suggestions(self@.take(i as int)),
                count <= i,
            decreases self@.len() - i,
        {
            proof {
                assert(self@.take(i + 1).drop_last() =~= self@.take(i as int));
                assert(self@.take(i + 1).last() == self.diagnostics@[i as int].deep_view());
            }
            if matches!(self.diagnostics[i].severity, Severity::Suggestion) {
                count += 1;
            }
            i += 1;
        }
        proof {
            assert(self@.take(self@.len() as int) =~= self@);
        }
        count
    }

    /// The number of diagnostics that carry a fix.
    pub fn fixable_count(&self) -> (r: usize)
        ensures
            r == count_fixable(self@),
    {
        let mut count: usize = 0;
        let mut i: usize = 0;
        while i < self.diagnostics.len()
            invariant
                i <= self@.len(),
                count == count_fixable(self@.take(i as int)),
                count <= i,
            decreases self@.len() - i,
        {
            proof {
                assert(self@.take(i + 1).drop_last() =~= self@.take(i as int));
                assert(self@.take(i + 1).last() == self.diagnostics@[i as int].deep_view());
            }
            if self.diagnostics[i].fix.is_some() {
                count += 1;
            }
            i += 1;
        }
        proof {
            assert(self@.take(self@.len() as int) =~= self@);
        }
        count
    }

    /// The fixes attached to the diagnostics, in order.
    pub fn fixes(&self) -> (r: Vec<&Fix>)
        ensures
            r.deep_view() == spec_fixes(self@),
    {
        let mut r: Vec<&Fix> = Vec::new();
        let mut i: usize = 0;
        while i < self.diagnostics.len()
            invariant
                i <= self@.len(),
                r.deep_view() =~= spec_fixes(self@.take(i as int)),
            decreases self@.len() - i,
        {
            proof {
                assert(self@.take(i + 1).drop_last() =~= self@.take(i as int));
                assert(self@.take(i + 1).last() == self.diagnostics@[i as int].deep_view());
            }
            match &self.diagnostics[i].fix {
                Option::Some(f) => {
                    let ghost r0 = r;
                    r.push(f);
                    proof {
                        crate::paths::lemma_deep_push(r0, r);
                        assert(r.deep_view() =~= spec_fixes(self@.take(i + 1)));
                    }
                },
                Option::None => {
                    proof {
                        assert(spec_fixes(self@.take(i + 1)) =~= spec_fixes(self@.take(i as int)));
                    }
                },
            }
            i += 1;
        }
        proof {
            assert(self@.take(self@.len() as int) =~= self@);
        }
        r
    }
}

} // verus!
