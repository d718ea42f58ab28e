//! What the compiler reports of a program.

use vstd::prelude::*;

use crate::order::texts;
use crate::protocol::{opt_text, Severity};
use crate::syntax::{copy_opt_text, copy_texts};
use crate::text::Span;

verus! {

/// The errors that the editor features tell apart.
#[derive(Debug)]
pub enum ErrorKind {
    MainRequired,
    CannotParse(String),
    FunctionRedefined(String),
    Other,
}

/// What an [`ErrorKind`] says.
pub enum ErrorKindView {
    MainRequired,
    CannotParse(Seq<char>),
    FunctionRedefined(Seq<char>),
    Other,
}

impl View for ErrorKind {
    type V = ErrorKindView;

    open spec fn view(&self) -> ErrorKindView {
        match self {
            ErrorKind::MainRequired => ErrorKindView::MainRequired,
            ErrorKind::CannotParse(message) => ErrorKindView::CannotParse(message@),
            ErrorKind::FunctionRedefined(name) => ErrorKindView::FunctionRedefined(name@),
            ErrorKind::Other => ErrorKindView::Other,
        }
    }
}

/// What a diagnostic points at: a span of code, a whole source or the whole program.
#[derive(Clone, Copy, Debug, PartialEq, Eq, Structural)]
pub enum Place {
    Code(Span),
    File(usize),
    Global,
}

/// A remark on a second span.
#[derive(Debug)]
pub struct Label {
    pub span: Span,
    pub message: String,
}

/// What a [`Label`] says.
pub struct LabelView {
    pub span: Span,
    pub message: Seq<char>,
}

impl View for Label {
    type V = LabelView;

    open spec fn view(&self) -> LabelView {
        LabelView { span: self.span, message: self.message@ }
    }
}

/// What a list of labels says.
pub open spec fn label_views(labels: Seq<Label>) -> Seq<LabelView> {
    Seq::new(labels.len(), |i: int| labels[i]@)
}

/// A diagnostic of the compiler.
#[derive(Debug)]
pub struct CompilerDiagnostic {
    pub kind: ErrorKind,
    pub message: String,
    pub severity: Severity,
    pub place: Place,
    pub secondary: Vec<Label>,
    pub notes: Vec<String>,
    pub help: Option<String>,
}

/// What a [`CompilerDiagnostic`] says.
#[verifier::ext_equal]
pub struct ReportView {
    pub kind: ErrorKindView,
    pub message: Seq<char>,
    pub severity: Severity,
    pub place: Place,
    pub secondary: Seq<LabelView>,
    pub notes: Seq<Seq<char>>,
    pub help: Option<Seq<char>>,
}

impl View for CompilerDiagnostic {
    type V = ReportView;

    open spec fn view(&self) -> ReportView {
        ReportView {
            kind: self.kind@,
            message: self.message@,
            severity: self.severity,
            place: self.place,
            secondary: label_views(self.secondary@),
            notes: texts(self.notes@),
            help: opt_text(self.help),
        }
    }
}

/// What a list of compiler diagnostics says.
pub open spec fn report_views(list: Seq<CompilerDiagnostic>) -> Seq<ReportView> {
    Seq::new(list.len(), |i: int| list[i]@)
}

/// A copy of a list of labels.
pub(crate) fn copy_labels(labels: &Vec<Label>) -> (r: Vec<Label>)
    ensures
        label_views(r@) == label_views(labels@),
{
    let mut r: Vec<Label> = Vec::new();
    let mut i: usize = 0;
    while i < labels.len()
        invariant
            i <= labels@.len(),
            r@.len() == i,
            forall|k: int| 0 <= k < i ==> (#[trigger] r@[k])@ == labels@[k]@,
        decreases labels@.len() - i,
    {
        r.push(Label { span: labels[i].span, message: labels[i].message.clone() });
        i = i + 1;
    }
    assert(label_views(r@) =~= label_views(labels@));
    r
}

impl ErrorKind {
    /// A copy of this kind.
    pub fn copy(&self) -> (r: ErrorKind)
        ensures
            r@ == self@,
    {
        match self {
            ErrorKind::MainRequired => ErrorKind::MainRequired,
            ErrorKind::CannotParse(message) => ErrorKind::CannotParse(message.clone()),
            ErrorKind::FunctionRedefined(name) => ErrorKind::FunctionRedefined(name.clone()),
            ErrorKind::Other => ErrorKind::Other,
        }
    }
}

impl CompilerDiagnostic {
    /// A copy of this diagnostic.
    pub fn copy(&self) -> (r: CompilerDiagnostic)
        ensures
            r@ == self@,
    {
        let r = CompilerDiagnostic {
            kind: self.kind.copy(),
            message: self.message.clone(),
            severity: self.severity,
            place: self.place,
            secondary: copy_labels(&self.secondary),
            notes: copy_texts(&self.notes),
            help: copy_opt_text(&self.help),
        };
        assert(r@ =~= self@);
        r
    }
}

/// A copy of a list of compiler diagnostics.
pub fn copy_reports(list: &Vec<CompilerDiagnostic>) -> (r: Vec<CompilerDiagnostic>)
    ensures
        report_views(r@) == report_views(list@),
{
    let mut r: Vec<CompilerDiagnostic> = Vec::new();
    let mut i: usize = 0;
    while i < list.len()
        invariant
            i <= list@.len(),
            r@.len() == i,
            forall|k: int| 0 <= k < i ==> (#[trigger] r@[k])@ == list@[k]@,
        decreases list@.len() - i,
    {
        let copied: CompilerDiagnostic = list[i].copy();
        r.push(copied);
        i = i + 1;
    }
    assert(report_views(r@) =~= report_views(list@));
    r
}

} // verus!
