//! The diagnostics of one analysis, each with the document that it belongs to.

use vstd::prelude::*;
use vstd::string::StringExecFns;

use crate::analysis::{AnalysisSnapshot, SnapshotView};
use crate::chars::same;
use crate::compiler::{main_out_of_entry, main_out_of_entry_text};
use crate::navigation::references::location_of;
use crate::order::{ascending, insert_text, texts};
use crate::protocol::{
    origin, related_views, Diagnostic, DiagnosticView, Location, Range, RelatedInformation,
    RelatedView,
};
use crate::report::{
    label_views, report_views, CompilerDiagnostic, ErrorKind, ErrorKindView, Label, LabelView, Place,
    ReportView,
};
use crate::text::span_to_positions;

verus! {

/// A diagnostic and the document that it belongs to.
#[derive(Debug)]
pub struct OwnedDiagnostic {
    pub uri: String,
    pub diagnostic: Diagnostic,
}

/// The diagnostics of one analysis, in the order in which they were found.
#[derive(Debug)]
pub struct DiagnosticBundle {
    pub entries: Vec<OwnedDiagnostic>,
}

impl View for DiagnosticBundle {
    type V = Seq<(Seq<char>, DiagnosticView)>;

    open spec fn view(&self) -> Seq<(Seq<char>, DiagnosticView)> {
        owned_views(self.entries@)
    }
}

/// What a list of owned diagnostics says.
pub open spec fn owned_views(list: Seq<OwnedDiagnostic>) -> Seq<(Seq<char>, DiagnosticView)> {
    Seq::new(list.len(), |i: int| (list[i].uri@, list[i].diagnostic@))
}

/// Whether a diagnostic is not shown: a library has no `main` function, and may well hold one of
/// its own.
pub open spec fn is_hidden(report: ReportView) -> bool {
    match report.kind {
        ErrorKindView::MainRequired => true,
        ErrorKindView::CannotParse(message) => message == main_out_of_entry_text(),
        _ => false,
    }
}

/// The notes of a diagnostic, each in a paragraph of its own.
pub open spec fn notes_text(notes: Seq<Seq<char>>) -> Seq<char>
    decreases notes.len(),
{
    if notes.len() == 0 {
        Seq::empty()
    } else {
        notes_text(notes.drop_last()) + "\n\nNote: "@ + notes.last()
    }
}

/// The message of a diagnostic with its notes and its help.
pub open spec fn full_message(report: ReportView) -> Seq<char> {
    report.message + notes_text(report.notes) + (match report.help {
        Some(help) => "\n\nHelp: "@ + help,
        None => Seq::empty(),
    })
}

/// The document that a diagnostic belongs to, and the range it is about.
pub open spec fn owner_of(snapshot: SnapshotView, report: ReportView) -> Option<
    (Seq<char>, Range),
> {
    match report.place {
        Place::Code(span) => if snapshot.sources.dom().contains(span.file_id as nat) {
            match location_of(snapshot.sources[span.file_id as nat], span) {
                Some(location) => Some((location.uri, location.range)),
                None => None,
            }
        } else {
            None
        },
        Place::File(file_id) => if snapshot.sources.dom().contains(file_id as nat) {
            Some((snapshot.sources[file_id as nat].uri, origin()))
        } else {
            None
        },
        Place::Global => Some((snapshot.sources[0].uri, origin())),
    }
}

/// The labels that have a place in a known document.
pub open spec fn related_places(snapshot: SnapshotView, labels: Seq<LabelView>) -> Seq<RelatedView>
    decreases labels.len(),
{
    if labels.len() == 0 {
        Seq::empty()
    } else {
        let before = related_places(snapshot, labels.drop_last());
        let label = labels.last();
        if snapshot.sources.dom().contains(label.span.file_id as nat) {
            match location_of(snapshot.sources[label.span.file_id as nat], label.span) {
                Some(location) => before.push(RelatedView { location, message: label.message }),
                None => before,
            }
        } else {
            before
        }
    }
}

/// A diagnostic as the editor shows it, with the document that it belongs to.
pub open spec fn shown_report(snapshot: SnapshotView, report: ReportView) -> Option<
    (Seq<char>, DiagnosticView),
> {
    if is_hidden(report) {
        None
    } else {
        match owner_of(snapshot, report) {
            Some((uri, range)) => Some(
                (
                    uri,
                    DiagnosticView {
                        range,
                        severity: Some(report.severity),
                        source: Some("simplicityhl"@),
                        message: full_message(report),
                        related_information: related_places(snapshot, report.secondary),
                    },
                ),
            ),
            None => None,
        }
    }
}

/// The diagnostics that are shown, in the order in which they were found.
pub open spec fn shown_reports(snapshot: SnapshotView, reports: Seq<ReportView>) -> Seq<
    (Seq<char>, DiagnosticView),
>
    decreases reports.len(),
{
    if reports.len() == 0 {
        Seq::empty()
    } else {
        let before = shown_reports(snapshot, reports.drop_last());
        match shown_report(snapshot, reports.last()) {
            Some(shown) => before.push(shown),
            None => before,
        }
    }
}

/// The diagnostics of an analysis, each with the document that it belongs to.
pub open spec fn owned_diagnostics(snapshot: SnapshotView) -> Seq<(Seq<char>, DiagnosticView)> {
    shown_reports(snapshot, snapshot.compiler_diagnostics)
}

/// The diagnostics of a document among others.
pub open spec fn diagnostics_of(owned: Seq<(Seq<char>, DiagnosticView)>, uri: Seq<char>) -> Seq<
    DiagnosticView,
>
    decreases owned.len(),
{
    if owned.len() == 0 {
        Seq::empty()
    } else {
        let before = diagnostics_of(owned.drop_last(), uri);
        if owned.last().0 == uri {
            before.push(owned.last().1)
        } else {
            before
        }
    }
}

/// The documents that some diagnostics belong to.
pub open spec fn owners(owned: Seq<(Seq<char>, DiagnosticView)>) -> Set<Seq<char>> {
    Set::new(
        |uri: Seq<char>| exists|i: int| 0 <= i < owned.len() && (#[trigger] owned[i]).0 == uri,
    )
}

/// Everything that is shown comes of a diagnostic that is not hidden, and belongs to a document
/// that the analysis knows.
pub proof fn law_shown_reports_are_not_hidden(
    snapshot: SnapshotView,
    reports: Seq<ReportView>,
    shown: (Seq<char>, DiagnosticView),
)
    requires
        snapshot.sources.dom().contains(0),
        shown_reports(snapshot, reports).contains(shown),
    ensures
        exists|i: int|
            0 <= i < reports.len() && !is_hidden(#[trigger] reports[i]) && shown_report(
                snapshot,
                reports[i],
            ) == Some(shown),
        exists|file_id: nat| #[trigger]
            snapshot.sources.dom().contains(file_id) && snapshot.sources[file_id].uri == shown.0,
    decreases reports.len(),
{
    if reports.len() > 0 {
        let before = shown_reports(snapshot, reports.drop_last());
        let after = shown_reports(snapshot, reports);
        let k = choose|k: int| 0 <= k < after.len() && after[k] == shown;
        if k < before.len() {
            assert(before[k] == shown);
            law_shown_reports_are_not_hidden(snapshot, reports.drop_last(), shown);
            let i = choose|i: int|
                0 <= i < reports.drop_last().len() && !is_hidden(
                    #[trigger] reports.drop_last()[i],
                ) && shown_report(snapshot, reports.drop_last()[i]) == Some(shown);
            assert(reports[i] == reports.drop_last()[i]);
        } else {
            let last = reports[reports.len() - 1];
            assert(shown_report(snapshot, last) == Some(shown));
            match last.place {
                Place::Code(span) => {
                    assert(snapshot.sources.dom().contains(span.file_id as nat));
                },
                Place::File(file_id) => {
                    assert(snapshot.sources.dom().contains(file_id as nat));
                },
                Place::Global => {
                    assert(snapshot.sources.dom().contains(0nat));
                },
            }
        }
    }
}

/// Whether a diagnostic is not shown.
pub fn hidden(report: &CompilerDiagnostic) -> (r: bool)
    ensures
        r == is_hidden(report@),
{
    match &report.kind {
        ErrorKind::MainRequired => true,
        ErrorKind::CannotParse(message) => same(message.as_str(), main_out_of_entry().as_str()),
        _ => false,
    }
}

/// The message of a diagnostic with its notes and its help.
pub fn message(report: &CompilerDiagnostic) -> (r: String)
    ensures
        r@ == full_message(report@),
{
    let ghost notes = texts(report.notes@);
    let mut text: String = report.message.clone();
    let mut i: usize = 0;
    assert(text@ =~= report.message@ + notes_text(notes.take(0)));
    while i < report.notes.len()
        invariant
            i <= report.notes@.len(),
            notes == texts(report.notes@),
            text@ == report.message@ + notes_text(notes.take(i as int)),
        decreases report.notes@.len() - i,
    {
        assert(notes.take(i + 1).drop_last() == notes.take(i as int));
        assert(notes.take(i + 1).last() == report.notes@[i as int]@);
        text.append("\n\nNote: ");
        text.append(report.notes[i].as_str());
        assert(text@ =~= report.message@ + notes_text(notes.take(i + 1)));
        i = i + 1;
    }
    assert(notes.take(i as int) == notes);
    if let Some(help) = &report.help {
        text.append("\n\nHelp: ");
        text.append(help.as_str());
    }
    assert(text@ =~= full_message(report@));
    text
}

/// The labels that have a place in a known document.
fn related_information(snapshot: &AnalysisSnapshot, labels: &Vec<Label>) -> (r: Vec<
    RelatedInformation,
>)
    ensures
        related_views(r@) == related_places(snapshot@, label_views(labels@)),
{
    let ghost shown = label_views(labels@);
    let mut r: Vec<RelatedInformation> = Vec::new();
    let mut i: usize = 0;
    assert(related_views(r@) =~= Seq::<RelatedView>::empty());
    while i < labels.len()
        invariant
            i <= labels@.len(),
            shown == label_views(labels@),
            related_views(r@) == related_places(snapshot@, shown.take(i as int)),
        decreases labels@.len() - i,
    {
        let label: &Label = &labels[i];
        assert(shown.take(i + 1).drop_last() == shown.take(i as int));
        assert(shown.take(i + 1).last() == label@);
        if let Some(source) = snapshot.sources.get(label.span.file_id) {
            if let Ok((start, end)) = span_to_positions(&label.span, &source.text) {
                let ghost before = related_views(r@);
                let related = RelatedInformation {
                    location: Location::new(source.uri.clone(), Range::new(start, end)),
                    message: label.message.clone(),
                };
                let ghost view = related@;
                r.push(related);
                assert(related_views(r@) =~= before.push(view));
            }
        }
        i = i + 1;
    }
    assert(shown.take(i as int) == shown);
    r
}

/// The document that a diagnostic belongs to, and the range it is about.
fn find_owner(snapshot: &AnalysisSnapshot, report: &CompilerDiagnostic) -> (r: Option<
    (String, Range),
>)
    ensures
        match r {
            Some((uri, range)) => owner_of(snapshot@, report@) == Some((uri@, range)),
            None => owner_of(snapshot@, report@) is None,
        },
{
    match report.place {
        Place::Code(span) => match snapshot.sources.get(span.file_id) {
            Some(source) => match span_to_positions(&span, &source.text) {
                Ok((start, end)) => Some((source.uri.clone(), Range::new(start, end))),
                Err(_) => None,
            },
            None => None,
        },
        Place::File(file_id) => match snapshot.sources.get(file_id) {
            Some(source) => Some((source.uri.clone(), Range::default())),
            None => None,
        },
        Place::Global => Some((snapshot.sources.root_source().uri.clone(), Range::default())),
    }
}

/// A diagnostic as the editor shows it, with the document that it belongs to.
fn show_report(snapshot: &AnalysisSnapshot, report: &CompilerDiagnostic) -> (r: Option<
    OwnedDiagnostic,
>)
    ensures
        match r {
            Some(owned) => shown_report(snapshot@, report@) == Some(
                (owned.uri@, owned.diagnostic@),
            ),
            None => shown_report(snapshot@, report@) is None,
        },
{
    if hidden(report) {
        return None;
    }
    match find_owner(snapshot, report) {
        Some((uri, range)) => Some(
            OwnedDiagnostic {
                uri,
                diagnostic: Diagnostic {
                    range,
                    severity: Some(report.severity),
                    source: Some("simplicityhl".to_owned()),
                    message: message(report),
                    related_information: related_information(snapshot, &report.secondary),
                },
            },
        ),
        None => None,
    }
}

/// Adds the documents that some diagnostics belong to.
pub(crate) fn add_owners(uris: &mut Vec<String>, bundle: &DiagnosticBundle)
    requires
        ascending(texts(old(uris)@)),
    ensures
        ascending(texts(final(uris)@)),
        texts(final(uris)@).to_set() == texts(old(uris)@).to_set().union(owners(bundle@)),
{
    let ghost owned = bundle@;
    let ghost before = texts(uris@).to_set();
    let mut i: usize = 0;
    assert(before.union(owners(owned.take(0))) =~= before);
    while i < bundle.entries.len()
        invariant
            i <= bundle.entries@.len(),
            owned == owned_views(bundle.entries@),
            ascending(texts(uris@)),
            texts(uris@).to_set() == before.union(owners(owned.take(i as int))),
        decreases bundle.entries@.len() - i,
    {
        let ghost so_far = owners(owned.take(i as int));
        let ghost uri = bundle.entries@[i as int].uri@;
        insert_text(uris, bundle.entries[i].uri.clone());
        proof {
            let next = owned.take(i + 1);
            let wanted = before.union(owners(next));
            let got = before.union(so_far).insert(uri);
            assert forall|other: Seq<char>| #[trigger] wanted.contains(other) == got.contains(
                other,
            ) by {
                if owners(next).contains(other) {
                    let k = choose|k: int| 0 <= k < next.len() && (#[trigger] next[k]).0 == other;
                    if k < i {
                        assert(owned.take(i as int)[k].0 == other);
                    }
                }
                if so_far.contains(other) {
                    let k = choose|k: int|
                        0 <= k < i && (#[trigger] owned.take(i as int)[k]).0 == other;
                    assert(next[k].0 == other);
                }
                if other == uri {
                    assert(next[i as int].0 == other);
                }
            }
            assert(got =~= wanted);
        }
        i = i + 1;
    }
    assert(owned.take(i as int) == owned);
}

impl DiagnosticBundle {
    /// The diagnostics of an analysis.
    pub fn from_snapshot(snapshot: &AnalysisSnapshot) -> (r: DiagnosticBundle)
        ensures
            r@ == owned_diagnostics(snapshot@),
    {
        let ghost reports = snapshot@.compiler_diagnostics;
        let mut entries: Vec<OwnedDiagnostic> = Vec::new();
        let mut i: usize = 0;
        assert(owned_views(entries@) =~= Seq::<(Seq<char>, DiagnosticView)>::empty());
        while i < snapshot.compiler_diagnostics.len()
            invariant
                i <= snapshot.compiler_diagnostics@.len(),
                reports == report_views(snapshot.compiler_diagnostics@),
                owned_views(entries@) == shown_reports(snapshot@, reports.take(i as int)),
            decreases snapshot.compiler_diagnostics@.len() - i,
        {
            let report: &CompilerDiagnostic = &snapshot.compiler_diagnostics[i];
            assert(reports.take(i + 1).drop_last() == reports.take(i as int));
            assert(reports.take(i + 1).last() == report@);
            if let Some(owned) = show_report(snapshot, report) {
                let ghost before = owned_views(entries@);
                let ghost view = (owned.uri@, owned.diagnostic@);
                entries.push(owned);
                assert(owned_views(entries@) =~= before.push(view));
            }
            i = i + 1;
        }
        assert(reports.take(i as int) == reports);
        DiagnosticBundle { entries }
    }

    /// The diagnostics of a document, if it has any.
    pub fn get(&self, uri: &str) -> (r: Option<Vec<&Diagnostic>>)
        ensures
            match r {
                Some(list) => list@.len() > 0 && diagnostics_of(self@, uri@) == Seq::new(
                    list@.len(),
                    |i: int| list@[i]@,
                ),
                None => diagnostics_of(self@, uri@).len() == 0,
            },
    {
        let ghost owned = self@;
        let mut list: Vec<&Diagnostic> = Vec::new();
        let mut i: usize = 0;
        while i < self.entries.len()
            invariant
                i <= self.entries@.len(),
                owned == owned_views(self.entries@),
                list@.len() == diagnostics_of(owned.take(i as int), uri@).len(),
                forall|k: int|
                    0 <= k < list@.len() ==> (#[trigger] list@[k])@ == diagnostics_of(
                        owned.take(i as int),
                        uri@,
                    )[k],
            decreases self.entries@.len() - i,
        {
            assert(owned.take(i + 1).drop_last() == owned.take(i as int));
            assert(owned.take(i + 1).last() == (
                self.entries@[i as int].uri@,
                self.entries@[i as int].diagnostic@,
            ));
            if same(self.entries[i].uri.as_str(), uri) {
                list.push(&self.entries[i].diagnostic);
            }
            i = i + 1;
        }
        assert(owned.take(i as int) == owned);
        assert(diagnostics_of(self@, uri@) =~= Seq::new(list@.len(), |k: int| list@[k]@));
        if list.len() == 0 {
            None
        } else {
            Some(list)
        }
    }

    /// The documents that the diagnostics belong to, each once and in order.
    pub fn uris(&self) -> (r: Vec<String>)
        ensures
            ascending(texts(r@)),
            texts(r@).to_set() == owners(self@),
    {
        let mut r: Vec<String> = Vec::new();
        assert(texts(r@) =~= Seq::<Seq<char>>::empty());
        let ghost before = texts(r@).to_set();
        add_owners(&mut r, self);
        assert(before.union(owners(self@)) =~= owners(self@));
        r
    }
}

} // verus!
