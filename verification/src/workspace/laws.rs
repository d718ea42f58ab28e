//! What holds of the diagnostics of every analysis.

use vstd::prelude::*;

use crate::analysis::SnapshotView;
use crate::protocol::{DiagnosticView, LocationView, Position, Range, RelatedView};
use crate::report::{ErrorKindView, LabelView, Place, ReportView};
use crate::text::{position_of_offset, Span};
use crate::workspace::diagnostics::{
    diagnostics_of, full_message, owned_diagnostics, owners, related_places, shown_reports,
};

verus! {

/// Whether the two ends of a span of a known source have some positions.
pub open spec fn code_stands_at(
    snapshot: SnapshotView,
    span: Span,
    uri: Seq<char>,
    range: Range,
) -> bool {
    let file_id = span.file_id as nat;
    &&& snapshot.sources.dom().contains(file_id)
    &&& snapshot.sources[file_id].uri == uri
    &&& position_of_offset(snapshot.sources[file_id].text, span.start as nat) == Some(range.start)
    &&& position_of_offset(snapshot.sources[file_id].text, span.end as nat) == Some(range.end)
}

/// Whether what a report points at is a range of a document. A report on a whole source, or on the
/// whole program, stands at the beginning of the source or of the root.
pub open spec fn stands_at(
    snapshot: SnapshotView,
    place: Place,
    uri: Seq<char>,
    range: Range,
) -> bool {
    let top = Position { line: 0, character: 0 };
    match place {
        Place::Code(span) => code_stands_at(snapshot, span, uri, range),
        Place::File(file_id) => {
            &&& snapshot.sources.dom().contains(file_id as nat)
            &&& snapshot.sources[file_id as nat].uri == uri
            &&& range == (Range { start: top, end: top })
        },
        Place::Global => snapshot.sources[0].uri == uri && range == (Range {
            start: top,
            end: top,
        }),
    }
}

/// Whether a report is about a `main` function that a library has no need of, or has for itself.
pub open spec fn is_about_main(report: ReportView) -> bool {
    report.kind is MainRequired || report.kind == ErrorKindView::CannotParse(
        "The 'main' function must be defined in the entry point file"@,
    )
}

/// The reports of two lists are shown one list after the other.
pub proof fn law_reports_are_shown_in_turn(
    snapshot: SnapshotView,
    reports: Seq<ReportView>,
    more: Seq<ReportView>,
)
    ensures
        shown_reports(snapshot, reports + more) == shown_reports(snapshot, reports)
            + shown_reports(snapshot, more),
    decreases more.len(),
{
    let all = reports + more;
    if more.len() == 0 {
        assert(all =~= reports);
    } else {
        law_reports_are_shown_in_turn(snapshot, reports, more.drop_last());
        assert(all.drop_last() =~= reports + more.drop_last());
        assert(all.last() == more.last());
    }
    assert(shown_reports(snapshot, all) =~= shown_reports(snapshot, reports) + shown_reports(
        snapshot,
        more,
    ));
}

/// One report is shown once in the document and at the range that it points at, with its severity
/// and its message. Nothing is shown of one that has no place in a known document, and of one that
/// is about a missing or a misplaced `main` function.
pub proof fn law_one_report_is_shown_at_its_place(
    snapshot: SnapshotView,
    report: ReportView,
    uri: Seq<char>,
    range: Range,
)
    ensures
        shown_reports(snapshot, seq![report]).len() <= 1,
        is_about_main(report) ==> shown_reports(snapshot, seq![report]).len() == 0,
        shown_reports(snapshot, seq![report]).len() == 1 ==> stands_at(
            snapshot,
            report.place,
            shown_reports(snapshot, seq![report])[0].0,
            shown_reports(snapshot, seq![report])[0].1.range,
        ),
        !is_about_main(report) && stands_at(snapshot, report.place, uri, range) ==> shown_reports(
            snapshot,
            seq![report],
        ) == seq![
            (
                uri,
                DiagnosticView {
                    range,
                    severity: Some(report.severity),
                    source: Some("simplicityhl"@),
                    message: full_message(report),
                    related_information: related_places(snapshot, report.secondary),
                },
            ),
        ],
{
    let one = seq![report];
    assert(one.drop_last() =~= Seq::<ReportView>::empty());
    assert(one.last() == report);
    assert(shown_reports(snapshot, one.drop_last()) =~= Seq::<(Seq<char>, DiagnosticView)>::empty());
}

/// Whether a diagnostic at a range has the severity of a report and tells its message, and nothing
/// but the message where there are no notes and no help.
pub open spec fn tells(diagnostic: DiagnosticView, report: ReportView, range: Range) -> bool {
    &&& diagnostic.range == range
    &&& diagnostic.severity == Some(report.severity)
    &&& diagnostic.source == Some("simplicityhl"@)
    &&& report.message.is_prefix_of(diagnostic.message)
    &&& report.notes.len() == 0 && report.help is None ==> diagnostic.message == report.message
}

/// No report of an analysis is lost: the document that it points into has a diagnostic at its range,
/// with its severity and its message. Only what is about a `main` function is left out.
pub proof fn law_no_report_is_lost(snapshot: SnapshotView, i: int, uri: Seq<char>, range: Range)
    requires
        0 <= i < snapshot.compiler_diagnostics.len(),
        !is_about_main(snapshot.compiler_diagnostics[i]),
        stands_at(snapshot, snapshot.compiler_diagnostics[i].place, uri, range),
    ensures
        exists|k: int|
            0 <= k < owned_diagnostics(snapshot).len() && (#[trigger] owned_diagnostics(
                snapshot,
            )[k]).0 == uri && tells(
                owned_diagnostics(snapshot)[k].1,
                snapshot.compiler_diagnostics[i],
                range,
            ),
{
    let reports = snapshot.compiler_diagnostics;
    let report = reports[i];
    let before = reports.take(i);
    let behind = reports.skip(i + 1);
    assert(reports =~= before + seq![report] + behind);
    law_reports_are_shown_in_turn(snapshot, before, seq![report]);
    law_reports_are_shown_in_turn(snapshot, before + seq![report], behind);
    law_one_report_is_shown_at_its_place(snapshot, report, uri, range);
    let owned = owned_diagnostics(snapshot);
    let k = shown_reports(snapshot, before).len() as int;
    let shown = shown_reports(snapshot, seq![report])[0];
    assert(owned[k] == shown);
    assert(report.message.is_prefix_of(shown.1.message));
}

/// A report without notes and help is told by its message alone. Each note, and last the help,
/// comes in a paragraph of its own behind what was told before.
pub proof fn law_message_holds_notes_and_help(report: ReportView, note: Seq<char>, help: Seq<char>)
    ensures
        full_message(ReportView { notes: Seq::empty(), help: None, ..report }) == report.message,
        full_message(ReportView { notes: report.notes.push(note), help: None, ..report })
            == full_message(ReportView { help: None, ..report }) + "\n\nNote: "@ + note,
        full_message(ReportView { help: Some(help), ..report }) == full_message(
            ReportView { help: None, ..report },
        ) + "\n\nHelp: "@ + help,
{
    let plain = ReportView { help: None, ..report };
    let bare = ReportView { notes: Seq::empty(), help: None, ..report };
    let noted = ReportView { notes: report.notes.push(note), help: None, ..report };
    let helped = ReportView { help: Some(help), ..report };
    assert(report.notes.push(note).drop_last() =~= report.notes);
    assert(full_message(bare) =~= report.message);
    assert(full_message(noted) =~= full_message(plain) + "\n\nNote: "@ + note);
    assert(full_message(helped) =~= full_message(plain) + "\n\nHelp: "@ + help);
}

/// The labels of two lists come one list after the other, and one label is told with its message
/// where it stands, if that is known.
pub proof fn law_labels_are_told_where_they_stand(
    snapshot: SnapshotView,
    labels: Seq<LabelView>,
    label: LabelView,
    uri: Seq<char>,
    range: Range,
)
    ensures
        code_stands_at(snapshot, label.span, uri, range) ==> related_places(
            snapshot,
            labels.push(label),
        ) == related_places(snapshot, labels).push(
            RelatedView { location: LocationView { uri, range }, message: label.message },
        ),
        (forall|at: Seq<char>, stretch: Range|
            !#[trigger] code_stands_at(snapshot, label.span, at, stretch)) ==> related_places(
            snapshot,
            labels.push(label),
        ) == related_places(snapshot, labels),
        related_places(snapshot, Seq::empty()).len() == 0,
{
    assert(labels.push(label).drop_last() =~= labels);
    let file_id = label.span.file_id as nat;
    if snapshot.sources.dom().contains(file_id) {
        let source = snapshot.sources[file_id];
        if let (Some(start), Some(end)) = (
            position_of_offset(source.text, label.span.start as nat),
            position_of_offset(source.text, label.span.end as nat),
        ) {
            assert(code_stands_at(snapshot, label.span, source.uri, Range { start, end }));
        }
    }
}

/// A document is given exactly the diagnostics that belong to it, in their order, and a document
/// that is given none owns none.
pub proof fn law_documents_are_given_their_own(
    owned: Seq<(Seq<char>, DiagnosticView)>,
    diagnostic: DiagnosticView,
    uri: Seq<char>,
    other: Seq<char>,
)
    ensures
        diagnostics_of(Seq::empty(), uri).len() == 0,
        diagnostics_of(owned.push((uri, diagnostic)), uri) == diagnostics_of(owned, uri).push(
            diagnostic,
        ),
        other != uri ==> diagnostics_of(owned.push((uri, diagnostic)), other) == diagnostics_of(
            owned,
            other,
        ),
        owners(owned).contains(uri) <==> diagnostics_of(owned, uri).len() > 0,
    decreases owned.len(),
{
    assert(owned.push((uri, diagnostic)).drop_last() =~= owned);
    if owned.len() > 0 {
        let rest = owned.drop_last();
        law_documents_are_given_their_own(rest, diagnostic, uri, other);
        if owners(owned).contains(uri) {
            let k = choose|k: int| 0 <= k < owned.len() && (#[trigger] owned[k]).0 == uri;
            if k < rest.len() {
                assert(rest[k].0 == uri);
            }
        }
        if owners(rest).contains(uri) {
            let k = choose|k: int| 0 <= k < rest.len() && (#[trigger] rest[k]).0 == uri;
            assert(owned[k].0 == uri);
        }
        if owned.last().0 == uri {
            assert(owned[owned.len() - 1].0 == uri);
        }
    }
}

} // verus!
