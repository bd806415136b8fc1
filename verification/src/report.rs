//! Diagnostics and the analysis report.

use vstd::prelude::*;

verus! {

/// Appends one character; the string's text grows by that character.
///
/// Specifies `std::string::String::push`, whose documentation says that it
/// appends the given `char` to the end of the `String`.
pub assume_specification[ String::push ](string: &mut String, ch: char)
    ensures
        final(string)@ == old(string)@.push(ch),
;

/// One finding: a code such as `E0382`, a 1-based line and byte column, and a message.
#[derive(Debug, Clone, PartialEq, Eq)]
pub struct Diagnostic {
    pub code: &'static str,
    pub line: usize,
    pub column: usize,
    pub message: String,
}

/// A diagnostic as values.
pub struct DiagnosticView {
    pub code: Seq<char>,
    pub line: int,
    pub column: int,
    pub message: Seq<char>,
}

impl View for Diagnostic {
    type V = DiagnosticView;

    open spec fn view(&self) -> DiagnosticView {
        DiagnosticView {
            code: self.code@,
            line: self.line as int,
            column: self.column as int,
            message: self.message@,
        }
    }
}

/// The diagnostics of one source text together with adoption statistics:
/// how many ownership contracts and borrows it declares.
#[derive(Debug, Clone, PartialEq, Eq)]
pub struct AnalysisReport {
    pub diagnostics: Vec<Diagnostic>,
    pub tracked_owners: usize,
    pub tracked_borrows: usize,
}

/// An analysis report as values.
pub struct ReportView {
    pub diagnostics: Seq<DiagnosticView>,
    pub tracked_owners: int,
    pub tracked_borrows: int,
}

/// The views of a sequence of diagnostics.
pub open spec fn diagnostics_view(d: Seq<Diagnostic>) -> Seq<DiagnosticView> {
    Seq::new(d.len(), |i: int| d[i]@)
}

impl View for AnalysisReport {
    type V = ReportView;

    open spec fn view(&self) -> ReportView {
        ReportView {
            diagnostics: diagnostics_view(self.diagnostics@),
            tracked_owners: self.tracked_owners as int,
            tracked_borrows: self.tracked_borrows as int,
        }
    }
}

pub open spec fn diag(code: Seq<char>, line: int, column: int, message: Seq<char>) -> DiagnosticView {
    DiagnosticView { code, line, column, message }
}

/// A message that names one value between two fixed texts.
pub open spec fn msg(before: Seq<char>, name: Seq<char>, after: Seq<char>) -> Seq<char> {
    before + name + after
}

/// Appends the characters of `chars` to `s`.
pub fn push_chars(s: &mut String, chars: &Vec<char>)
    ensures
        final(s)@ == old(s)@ + chars@,
{
    let mut i: usize = 0;
    while i < chars.len()
        invariant
            i <= chars.len(),
            s@ == old(s)@ + chars@.take(i as int),
        decreases chars.len() - i,
    {
        s.push(chars[i]);
        assert(chars@.take(i + 1) =~= chars@.take(i as int).push(chars@[i as int]));
        i += 1;
    }
    assert(chars@.take(i as int) =~= chars@);
}

/// A diagnostic whose message names `name` between `before` and `after`.
pub fn diagnostic(
    code: &'static str,
    line: usize,
    column: usize,
    before: &str,
    name: &Vec<char>,
    after: &str,
) -> (d: Diagnostic)
    ensures
        d@ == diag(code@, line as int, column as int, msg(before@, name@, after@)),
{
    let mut message = String::new();
    message.append(before);
    push_chars(&mut message, name);
    message.append(after);
    Diagnostic { code, line, column, message }
}

/// Appends one diagnostic.
pub fn push_diagnostic(diagnostics: &mut Vec<Diagnostic>, d: Diagnostic)
    ensures
        diagnostics_view(final(diagnostics)@) == diagnostics_view(old(diagnostics)@) + seq![d@],
{
    diagnostics.push(d);
    assert(diagnostics_view(diagnostics@) =~= diagnostics_view(old(diagnostics)@) + seq![d@]);
}

} // verus!
