//! The errors of a document, as an editor draws them.

use crate::compile_recovering;
use crate::compiled;
use crate::error::{errs_v, ErrV, QuinceError};
use crate::law_reading_on_agrees_with_compiling;
use crate::lsp::position::{range_of, span_to_range, Range};
use crate::recovered;
use crate::syntax::resolve::{check, mistaken};
use crate::text::cat3;
use vstd::prelude::*;

verus! {

/// How an editor draws a report.
#[derive(Clone, Copy, Debug, PartialEq, Eq, Structural)]
pub enum Severity {
    Error,
    Warning,
    Information,
    Hint,
}

/// An error drawn under a part of a document.
#[derive(Debug)]
pub struct Diagnostic {
    pub range: Range,
    pub severity: Severity,
    pub message: String,
}

/// The model of a [`Diagnostic`].
pub struct DiagnosticV {
    pub range: Range,
    pub severity: Severity,
    pub message: Seq<char>,
}

impl View for Diagnostic {
    type V = DiagnosticV;

    open spec fn view(&self) -> DiagnosticV {
        DiagnosticV { range: self.range, severity: self.severity, message: self.message@ }
    }
}

pub open spec fn diagnostics_v(s: Seq<Diagnostic>) -> Seq<DiagnosticV> {
    Seq::new(s.len(), |i: int| s[i]@)
}

/// An error as it is drawn: with its help behind its message. Whatever is drawn is certain,
/// so it is drawn as an error.
pub open spec fn drawn(source: Seq<char>, e: ErrV) -> DiagnosticV {
    DiagnosticV {
        range: range_of(source, e.span),
        severity: Severity::Error,
        message: match e.help {
            Some(help) => e.message + "\nhelp: "@ + help,
            None => e.message,
        },
    }
}

/// The first `n` of some errors as they are drawn.
pub open spec fn all_drawn(source: Seq<char>, errors: Seq<ErrV>, n: int) -> Seq<DiagnosticV>
    decreases n,
{
    if 0 < n <= errors.len() {
        all_drawn(source, errors, n - 1).push(drawn(source, errors[n - 1]))
    } else {
        Seq::empty()
    }
}

/// The errors of a text: every one that stops it from running, and then every mistake that
/// what can be read of it is certain to fail on.
pub open spec fn errors_of(source: Seq<char>) -> Seq<DiagnosticV> {
    let (program, errors) = recovered(source);
    let all = errors + mistaken(program);
    all_drawn(source, all, all.len() as int)
}

/// An error of a document as an editor draws it.
pub fn quince_error_to_diagnostic(source: &str, err: &QuinceError) -> (r: Diagnostic)
    ensures
        r@ == drawn(source@, err@),
{
    let range = span_to_range(source, err.span);
    let message = match &err.help {
        Some(help) => cat3(err.message.as_str(), "\nhelp: ", help.as_str()),
        None => err.message.as_str().to_owned(),
    };
    Diagnostic { range, severity: Severity::Error, message }
}

/// The errors of a document.
pub fn get_diagnostics(source: &str) -> (r: Vec<Diagnostic>)
    ensures
        diagnostics_v(r@) == errors_of(source@),
{
    let (program, mut errors) = compile_recovering(source);
    let ghost before = errs_v(errors@);
    let mut mistakes = check(&program);
    let ghost added = errs_v(mistakes@);
    errors.append(&mut mistakes);
    let ghost all = errs_v(errors@);
    assert(all =~= before + added);
    assert(all.len() == errors@.len());
    let mut out: Vec<Diagnostic> = Vec::new();
    let mut i: usize = 0;
    assert(diagnostics_v(out@) =~= Seq::empty());
    while i < errors.len()
        invariant
            i <= errors@.len(),
            all == errs_v(errors@),
            diagnostics_v(out@) == all_drawn(source@, all, i as int),
        decreases errors@.len() - i,
    {
        assert(all[i as int] == errors@[i as int]@);
        let ghost so_far = diagnostics_v(out@);
        let one = quince_error_to_diagnostic(source, &errors[i]);
        out.push(one);
        assert(diagnostics_v(out@) =~= so_far.push(one@));
        i += 1;
    }
    out
}

/// A text draws no error just where it compiles and nothing in it is certain to fail.
pub proof fn law_no_error_is_drawn_where_none_is_known(source: Seq<char>)
    ensures
        errors_of(source).len() == 0 <==> compiled(source) is Ok && mistaken(
            compiled(source)->Ok_0,
        ).len() == 0,
{
    law_reading_on_agrees_with_compiling(source);
    let (program, errors) = recovered(source);
    let all = errors + mistaken(program);
    lemma_all_drawn(source, all, all.len() as int);
}

proof fn lemma_all_drawn(source: Seq<char>, errors: Seq<ErrV>, n: int)
    requires
        0 <= n <= errors.len(),
    ensures
        all_drawn(source, errors, n).len() == n,
    decreases n,
{
    if n > 0 {
        lemma_all_drawn(source, errors, n - 1);
    }
}

} // verus!
