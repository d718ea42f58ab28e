//! Positions, ranges and locations as an editor counts them.

use vstd::prelude::*;

use crate::chars::same;

verus! {

/// A place in a document: a line and a column in UTF-16 code units, both counted from zero.
#[derive(Clone, Copy, Debug, PartialEq, Eq, Structural)]
pub struct Position {
    pub line: u32,
    pub character: u32,
}

impl Position {
    pub fn new(line: u32, character: u32) -> (r: Position)
        ensures
            r == (Position { line, character }),
    {
        Position { line, character }
    }
}

/// Whether `a` is `b` or stands before it.
pub open spec fn position_le(a: Position, b: Position) -> bool {
    a.line < b.line || (a.line == b.line && a.character <= b.character)
}

impl Position {
    /// Whether this position is `other` or stands before it.
    pub fn not_after(&self, other: &Position) -> (r: bool)
        ensures
            r == position_le(*self, *other),
    {
        self.line < other.line || (self.line == other.line && self.character <= other.character)
    }
}

/// The text from `start` up to `end`.
#[derive(Clone, Copy, Debug, PartialEq, Eq, Structural)]
pub struct Range {
    pub start: Position,
    pub end: Position,
}

impl Range {
    pub fn new(start: Position, end: Position) -> (r: Range)
        ensures
            r == (Range { start, end }),
    {
        Range { start, end }
    }
}

/// The empty range at the beginning of a document.
pub open spec fn origin() -> Range {
    Range {
        start: Position { line: 0, character: 0 },
        end: Position { line: 0, character: 0 },
    }
}

impl Default for Range {
    fn default() -> (r: Range)
        ensures
            r == origin(),
    {
        Range {
            start: Position { line: 0, character: 0 },
            end: Position { line: 0, character: 0 },
        }
    }
}

/// How grave a diagnostic is.
#[derive(Clone, Copy, Debug, PartialEq, Eq, Structural)]
pub enum Severity {
    Error,
    Warning,
}

/// A range in a document.
#[derive(Debug)]
pub struct Location {
    pub uri: String,
    pub range: Range,
}

/// What a [`Location`] says.
pub struct LocationView {
    pub uri: Seq<char>,
    pub range: Range,
}

impl View for Location {
    type V = LocationView;

    open spec fn view(&self) -> LocationView {
        LocationView { uri: self.uri@, range: self.range }
    }
}

impl Location {
    pub fn new(uri: String, range: Range) -> (r: Location)
        ensures
            r@ == (LocationView { uri: uri@, range }),
    {
        Location { uri, range }
    }

    /// A copy of this location.
    pub fn copy(&self) -> (r: Location)
        ensures
            r@ == self@,
    {
        Location { uri: self.uri.clone(), range: self.range }
    }

    /// Whether two locations are the same range of the same document.
    pub fn same(&self, other: &Location) -> (r: bool)
        ensures
            r == (self@ == other@),
    {
        self.range == other.range && same(self.uri.as_str(), other.uri.as_str())
    }
}

/// A place that helps to understand a diagnostic.
#[derive(Debug)]
pub struct RelatedInformation {
    pub location: Location,
    pub message: String,
}

/// What a [`RelatedInformation`] says.
pub struct RelatedView {
    pub location: LocationView,
    pub message: Seq<char>,
}

impl View for RelatedInformation {
    type V = RelatedView;

    open spec fn view(&self) -> RelatedView {
        RelatedView { location: self.location@, message: self.message@ }
    }
}

/// A message about a range of a document.
#[derive(Debug)]
pub struct Diagnostic {
    pub range: Range,
    pub severity: Option<Severity>,
    pub source: Option<String>,
    pub message: String,
    pub related_information: Vec<RelatedInformation>,
}

/// What a [`Diagnostic`] says.
#[verifier::ext_equal]
pub struct DiagnosticView {
    pub range: Range,
    pub severity: Option<Severity>,
    pub source: Option<Seq<char>>,
    pub message: Seq<char>,
    pub related_information: Seq<RelatedView>,
}

/// The text of an optional string.
pub open spec fn opt_text(text: Option<String>) -> Option<Seq<char>> {
    match text {
        Some(text) => Some(text@),
        None => None,
    }
}

/// The text of an optional string slice.
pub open spec fn opt_str(text: Option<&str>) -> Option<Seq<char>> {
    match text {
        Some(text) => Some(text@),
        None => None,
    }
}

/// What a list of related places says.
pub open spec fn related_views(list: Seq<RelatedInformation>) -> Seq<RelatedView> {
    Seq::new(list.len(), |i: int| list[i]@)
}

impl View for Diagnostic {
    type V = DiagnosticView;

    open spec fn view(&self) -> DiagnosticView {
        DiagnosticView {
            range: self.range,
            severity: self.severity,
            source: opt_text(self.source),
            message: self.message@,
            related_information: related_views(self.related_information@),
        }
    }
}

/// What a list of diagnostics says.
pub open spec fn diagnostic_views(list: Seq<Diagnostic>) -> Seq<DiagnosticView> {
    Seq::new(list.len(), |i: int| list[i]@)
}

/// The diagnostic that has a range and a message and nothing else.
pub open spec fn simple_diagnostic(range: Range, message: Seq<char>) -> DiagnosticView {
    DiagnosticView {
        range,
        severity: None,
        source: None,
        message,
        related_information: Seq::empty(),
    }
}

impl Diagnostic {
    pub fn new_simple(range: Range, message: String) -> (r: Diagnostic)
        ensures
            r@ == simple_diagnostic(range, message@),
    {
        let r = Diagnostic {
            range,
            severity: None,
            source: None,
            message,
            related_information: Vec::new(),
        };
        assert(r@ =~= simple_diagnostic(range, message@));
        r
    }
}

/// A copy of a list of related places.
fn copy_related(list: &Vec<RelatedInformation>) -> (r: Vec<RelatedInformation>)
    ensures
        related_views(r@) == related_views(list@),
{
    let mut r: Vec<RelatedInformation> = Vec::new();
    let mut i: usize = 0;
    while i < list.len()
        invariant
            i <= list@.len(),
            r@.len() == i,
            forall|k: int| 0 <= k < i ==> (#[trigger] r@[k])@ == list@[k]@,
        decreases list@.len() - i,
    {
        r.push(
            RelatedInformation {
                location: list[i].location.copy(),
                message: list[i].message.clone(),
            },
        );
        i = i + 1;
    }
    assert(related_views(r@) =~= related_views(list@));
    r
}

/// Whether two lists of related places say the same.
fn same_related(a: &Vec<RelatedInformation>, b: &Vec<RelatedInformation>) -> (r: bool)
    ensures
        r == (related_views(a@) == related_views(b@)),
{
    let ghost x = related_views(a@);
    let ghost y = related_views(b@);
    if a.len() != b.len() {
        assert(x.len() != y.len());
        return false;
    }
    let mut i: usize = 0;
    while i < a.len()
        invariant
            i <= a@.len() == b@.len(),
            x == related_views(a@),
            y == related_views(b@),
            forall|k: int| 0 <= k < i ==> x[k] == y[k],
        decreases a@.len() - i,
    {
        if !a[i].location.same(&b[i].location) || !same(
            a[i].message.as_str(),
            b[i].message.as_str(),
        ) {
            assert(x[i as int] != y[i as int]);
            return false;
        }
        assert(x[i as int] == y[i as int]);
        i = i + 1;
    }
    assert(x =~= y);
    true
}

/// Whether two optional texts are the same.
fn same_opt(a: &Option<String>, b: &Option<String>) -> (r: bool)
    ensures
        r == (opt_text(*a) == opt_text(*b)),
{
    match (a, b) {
        (Some(a), Some(b)) => same(a.as_str(), b.as_str()),
        (None, None) => true,
        _ => false,
    }
}

impl Diagnostic {
    /// A copy of this diagnostic.
    pub fn copy(&self) -> (r: Diagnostic)
        ensures
            r@ == self@,
    {
        let source: Option<String> = match &self.source {
            Some(source) => Some(source.clone()),
            None => None,
        };
        Diagnostic {
            range: self.range,
            severity: self.severity,
            source,
            message: self.message.clone(),
            related_information: copy_related(&self.related_information),
        }
    }

    /// Whether two diagnostics say the same.
    pub fn same(&self, other: &Diagnostic) -> (r: bool)
        ensures
            r == (self@ == other@),
    {
        let severity: bool = match (self.severity, other.severity) {
            (Some(a), Some(b)) => a == b,
            (None, None) => true,
            _ => false,
        };
        self.range == other.range && severity && same_opt(&self.source, &other.source) && same(
            self.message.as_str(),
            other.message.as_str(),
        ) && same_related(&self.related_information, &other.related_information)
    }
}

} // verus!
