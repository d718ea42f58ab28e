//! What holds of the documents of every workspace, and of what the editor is told of them.

use vstd::prelude::*;

use crate::analysis::SnapshotView;
use crate::navigation::definition::ReferencedView;
use crate::navigation::reference_laws::{
    has_no_place, is_found_at, law_references_of_every_analysis_count,
};
use crate::navigation::references::QueryView as References;
use crate::order::{lemma_precedes_total, precedes};
use crate::protocol::{DiagnosticView, LocationView, Range};
use crate::text_map::{law_removed_key_is_gone, law_value_is_found, lookup};
use crate::workspace::diagnostics::{diagnostics_of, owned_diagnostics};
use crate::workspace::laws::{
    is_about_main, law_documents_are_given_their_own, law_no_report_is_lost, stands_at, tells,
};
use crate::workspace::publication::{
    affected, gathered, published, removed, replaced, tell, update_uris, DiagnosticUpdate,
};
use crate::workspace::references::are_references;
use crate::workspace::{
    accepts_change, is_open, law_reanalysis_covers_open_documents, opened, renewal_inputs, renewed,
    tombstone, version_after, with_request, DocumentView, InputView, StateView,
};

verus! {

/// A document that is opened, or changed, is open and has the text and the version that were sent,
/// under a number of its own. A change of it is accepted unless it is older, and one that tells no
/// version keeps the last.
pub proof fn law_open_document_has_what_was_sent(
    state: StateView,
    uri: Seq<char>,
    text: Seq<char>,
    version: Option<i32>,
    next: Option<i32>,
)
    requires
        state.well_formed(),
        state.generation < u64::MAX,
    ensures
        ({
            let after = with_request(state, uri, opened(state, text, version));
            &&& lookup(after.documents, uri) == Some(
                DocumentView {
                    open: true,
                    text: Some(text),
                    version,
                    generation: (state.generation + 1) as u64,
                },
            )
            &&& after.generation == state.generation + 1
            &&& after.analyses == state.analyses
            &&& is_open(after, uri)
            &&& accepts_change(after, uri, next) <==> (version is None || next is None || next->0
                >= version->0)
            &&& version_after(after, uri, next) == (if next is Some {
                next
            } else {
                version
            })
        }),
{
    law_value_is_found(state.documents, uri, opened(state, text, version), uri);
}

/// A document that is closed is not open, holds no text and accepts no change, under a number of
/// its own; nor does a document that was never opened accept one.
pub proof fn law_closed_document_accepts_nothing(
    state: StateView,
    uri: Seq<char>,
    version: Option<i32>,
)
    requires
        state.well_formed(),
        state.generation < u64::MAX,
    ensures
        ({
            let after = with_request(state, uri, tombstone(state));
            &&& !is_open(after, uri)
            &&& !accepts_change(after, uri, version)
            &&& after.last_request(uri) == Some((state.generation + 1) as u64)
            &&& lookup(after.documents, uri) matches Some(document) && document.text is None
                && document.version is None
            &&& after.analyses == state.analyses
        }),
        lookup(state.documents, uri) is None ==> !is_open(state, uri) && !accepts_change(
            state,
            uri,
            version,
        ),
{
    law_value_is_found(state.documents, uri, tombstone(state), uri);
}

/// Analyzing all again keeps every document as it is but for the numbers of those that are open,
/// and asks for nothing else: each request is that of an open document with its text.
pub proof fn law_reanalysis_keeps_documents(
    documents: Seq<(Seq<char>, DocumentView)>,
    generation: u64,
    i: int,
    k: int,
)
    requires
        generation + documents.len() <= u64::MAX,
    ensures
        renewed(documents, generation).len() == documents.len(),
        0 <= i < documents.len() ==> {
            let after = renewed(documents, generation)[i];
            &&& after.0 == documents[i].0
            &&& after.1.open == documents[i].1.open
            &&& after.1.text == documents[i].1.text
            &&& after.1.version == documents[i].1.version
            &&& !(documents[i].1.open && documents[i].1.text is Some) ==> after == documents[i]
        },
        0 <= k < renewal_inputs(documents, generation).len() ==> exists|j: int|
            {
                &&& 0 <= j < documents.len()
                &&& (#[trigger] documents[j]).1.open
                &&& documents[j].1.text == Some(renewal_inputs(documents, generation)[k].text)
                &&& documents[j].0 == renewal_inputs(documents, generation)[k].uri
                &&& documents[j].1.version == renewal_inputs(documents, generation)[k].version
            },
    decreases documents.len(),
{
    if documents.len() > 0 {
        let rest = documents.drop_last();
        let n = rest.len() as int;
        let before = renewal_inputs(rest, generation);
        if 0 <= k < renewal_inputs(documents, generation).len() {
            if k < before.len() {
                law_reanalysis_keeps_documents(rest, generation, 0, k);
                let j = choose|j: int|
                    {
                        &&& 0 <= j < rest.len()
                        &&& (#[trigger] rest[j]).1.open
                        &&& rest[j].1.text == Some(renewal_inputs(rest, generation)[k].text)
                        &&& rest[j].0 == renewal_inputs(rest, generation)[k].uri
                        &&& rest[j].1.version == renewal_inputs(rest, generation)[k].version
                    };
                assert(documents[j] == rest[j]);
                assert(renewal_inputs(documents, generation)[k] == before[k]);
            } else {
                assert(documents[n].1.open);
            }
        }
    }
}

/// What is told of a document with an analysis of its own are exactly the diagnostics that its
/// analysis gives it, with the version of the analysis.
pub proof fn law_own_diagnostics_are_told(
    analyses: Seq<(Seq<char>, SnapshotView)>,
    uri: Seq<char>,
    snapshot: SnapshotView,
)
    requires
        lookup(analyses, uri) == Some(snapshot),
    ensures
        published(analyses, uri).uri == uri,
        published(analyses, uri).diagnostics == diagnostics_of(owned_diagnostics(snapshot), uri),
        published(analyses, uri).version == snapshot.version,
{
}

/// What is told of a document without an analysis of its own is everything that some analysis says
/// of it, and nothing else.
pub proof fn law_diagnostics_of_others_are_told(
    analyses: Seq<(Seq<char>, SnapshotView)>,
    uri: Seq<char>,
    a: int,
    diagnostic: DiagnosticView,
)
    requires
        lookup(analyses, uri) is None,
    ensures
        published(analyses, uri).uri == uri,
        0 <= a < analyses.len() && diagnostics_of(owned_diagnostics(analyses[a].1), uri).contains(
            diagnostic,
        ) ==> published(analyses, uri).diagnostics.contains(diagnostic),
        published(analyses, uri).diagnostics.contains(diagnostic) ==> exists|b: int|
            0 <= b < analyses.len() && diagnostics_of(
                owned_diagnostics((#[trigger] analyses[b]).1),
                uri,
            ).contains(diagnostic),
{
    lemma_gathered(analyses, uri, diagnostic);
    crate::workspace::publication::law_shared_diagnostics_are_told_once(analyses, uri);
    let told = published(analyses, uri).diagnostics;
    let all = gathered(analyses, uri);
    if told.contains(diagnostic) {
        assert(told.to_set().contains(diagnostic));
        assert(all.to_set().contains(diagnostic));
    }
    if 0 <= a < analyses.len() && diagnostics_of(
        owned_diagnostics(analyses[a].1),
        uri,
    ).contains(diagnostic) {
        assert(analyses[a] == analyses[a]);
        assert(all.contains(diagnostic));
        assert(all.to_set().contains(diagnostic));
        assert(told.to_set().contains(diagnostic));
    }
}

proof fn lemma_gathered(
    analyses: Seq<(Seq<char>, SnapshotView)>,
    uri: Seq<char>,
    diagnostic: DiagnosticView,
)
    ensures
        gathered(analyses, uri).contains(diagnostic) <==> exists|b: int|
            0 <= b < analyses.len() && diagnostics_of(
                owned_diagnostics((#[trigger] analyses[b]).1),
                uri,
            ).contains(diagnostic),
    decreases analyses.len(),
{
    if analyses.len() > 0 {
        let rest = analyses.drop_last();
        let n = rest.len() as int;
        let before = gathered(rest, uri);
        let own = diagnostics_of(owned_diagnostics(analyses[n].1), uri);
        let all = gathered(analyses, uri);
        lemma_gathered(rest, uri, diagnostic);
        assert(analyses.last() == analyses[n]);
        if all.contains(diagnostic) {
            let k = choose|k: int| 0 <= k < all.len() && all[k] == diagnostic;
            if k < before.len() {
                assert(before[k] == diagnostic);
                let b = choose|b: int|
                    0 <= b < rest.len() && diagnostics_of(
                        owned_diagnostics((#[trigger] rest[b]).1),
                        uri,
                    ).contains(diagnostic);
                assert(analyses[b] == rest[b]);
            } else {
                assert(own[k - before.len()] == diagnostic);
                assert(own.contains(diagnostic));
            }
        }
        if exists|b: int|
            0 <= b < analyses.len() && diagnostics_of(
                owned_diagnostics((#[trigger] analyses[b]).1),
                uri,
            ).contains(diagnostic) {
            let b = choose|b: int|
                0 <= b < analyses.len() && diagnostics_of(
                    owned_diagnostics((#[trigger] analyses[b]).1),
                    uri,
                ).contains(diagnostic);
            if b < n {
                assert(rest[b] == analyses[b]);
                let k = choose|k: int| 0 <= k < before.len() && before[k] == diagnostic;
                assert(all[k] == diagnostic);
            } else {
                let k = choose|k: int| 0 <= k < own.len() && own[k] == diagnostic;
                assert(all[before.len() + k] == diagnostic);
            }
        }
    }
}

/// A new analysis of a document is kept with the version that was analyzed, and the analyses of the
/// other documents stay.
pub proof fn law_new_analysis_is_kept(
    state: StateView,
    uri: Seq<char>,
    snapshot: SnapshotView,
    version: Option<i32>,
    other: Seq<char>,
)
    requires
        state.well_formed(),
    ensures
        ({
            let after = replaced(state, uri, snapshot, version);
            &&& lookup(after.analyses, uri) == Some(SnapshotView { version, ..snapshot })
            &&& other != uri ==> lookup(after.analyses, other) == lookup(state.analyses, other)
            &&& after.documents == state.documents
            &&& after.generation == state.generation
            &&& lookup(removed(state, uri).analyses, uri) is None
            &&& removed(state, uri).documents == state.documents
            &&& removed(state, uri).generation == state.generation
        }),
{
    law_value_is_found(state.analyses, uri, SnapshotView { version, ..snapshot }, other);
    law_removed_key_is_gone(state.analyses, uri, other);
}

/// Every document that a new analysis, or the one before it, says something of is told how it is
/// now, and so is the document itself.
pub proof fn law_everyone_affected_is_told(
    state: StateView,
    after: StateView,
    updates: Seq<DiagnosticUpdate>,
    uri: Seq<char>,
    other: Seq<char>,
)
    requires
        tell(updates, after.analyses, affected(state, after, uri)),
        other == uri || (lookup(state.analyses, uri) matches Some(snapshot) && diagnostics_of(
            owned_diagnostics(snapshot),
            other,
        ).len() > 0) || (lookup(after.analyses, uri) matches Some(snapshot) && diagnostics_of(
            owned_diagnostics(snapshot),
            other,
        ).len() > 0),
    ensures
        exists|k: int|
            0 <= k < updates.len() && (#[trigger] updates[k])@ == published(after.analyses, other),
{
    if let Some(snapshot) = lookup(state.analyses, uri) {
        law_documents_are_given_their_own(
            owned_diagnostics(snapshot),
            arbitrary::<DiagnosticView>(),
            other,
            other,
        );
    }
    if let Some(snapshot) = lookup(after.analyses, uri) {
        law_documents_are_given_their_own(
            owned_diagnostics(snapshot),
            arbitrary::<DiagnosticView>(),
            other,
            other,
        );
    }
    let uris = update_uris(updates);
    assert(affected(state, after, uri).contains(other));
    assert(uris.to_set().contains(other));
    let k = choose|k: int| 0 <= k < uris.len() && uris[k] == other;
    assert(updates[k].uri@ == other);
}

/// No other document is told anything, and none is told twice.
pub proof fn law_only_affected_are_told(
    state: StateView,
    after: StateView,
    updates: Seq<DiagnosticUpdate>,
    uri: Seq<char>,
    k: int,
    l: int,
)
    requires
        tell(updates, after.analyses, affected(state, after, uri)),
        0 <= k < updates.len(),
    ensures
        k < l < updates.len() ==> updates[k].uri@ != updates[l].uri@,
        ({
            let other = updates[k].uri@;
            ||| other == uri
            ||| lookup(state.analyses, uri) matches Some(snapshot) && diagnostics_of(
                owned_diagnostics(snapshot),
                other,
            ).len() > 0
            ||| lookup(after.analyses, uri) matches Some(snapshot) && diagnostics_of(
                owned_diagnostics(snapshot),
                other,
            ).len() > 0
        }),
{
    let uris = update_uris(updates);
    let other = updates[k].uri@;
    assert(uris[k] == other);
    if k < l < updates.len() {
        assert(uris[l] == updates[l].uri@);
        lemma_precedes_total(uris[k], uris[l]);
    }
    assert(uris.to_set().contains(other));
    if let Some(snapshot) = lookup(state.analyses, uri) {
        law_documents_are_given_their_own(
            owned_diagnostics(snapshot),
            arbitrary::<DiagnosticView>(),
            other,
            other,
        );
    }
    if let Some(snapshot) = lookup(after.analyses, uri) {
        law_documents_are_given_their_own(
            owned_diagnostics(snapshot),
            arbitrary::<DiagnosticView>(),
            other,
            other,
        );
    }
}

/// Whether a diagnostic tells a report at a range among some updates for a document.
pub open spec fn is_told(
    updates: Seq<DiagnosticUpdate>,
    k: int,
    l: int,
    uri: Seq<char>,
    report: crate::report::ReportView,
    range: Range,
) -> bool {
    &&& 0 <= k < updates.len()
    &&& updates[k]@.uri == uri
    &&& 0 <= l < updates[k]@.diagnostics.len()
    &&& tells(updates[k]@.diagnostics[l], report, range)
}

/// What the compiler says of a document at a range reaches the editor as soon as the analysis of
/// the document is there.
pub proof fn law_report_on_document_is_told(
    state: StateView,
    uri: Seq<char>,
    snapshot: SnapshotView,
    version: Option<i32>,
    updates: Seq<DiagnosticUpdate>,
    i: int,
    range: Range,
)
    requires
        state.well_formed(),
        tell(
            updates,
            replaced(state, uri, snapshot, version).analyses,
            affected(state, replaced(state, uri, snapshot, version), uri),
        ),
        0 <= i < snapshot.compiler_diagnostics.len(),
        !is_about_main(snapshot.compiler_diagnostics[i]),
        stands_at(snapshot, snapshot.compiler_diagnostics[i].place, uri, range),
    ensures
        exists|k: int, l: int|
            #[trigger] is_told(updates, k, l, uri, snapshot.compiler_diagnostics[i], range),
{
    let after = replaced(state, uri, snapshot, version);
    let own = SnapshotView { version, ..snapshot };
    law_new_analysis_is_kept(state, uri, snapshot, version, uri);
    law_everyone_affected_is_told(state, after, updates, uri, uri);
    let k = choose|k: int|
        0 <= k < updates.len() && (#[trigger] updates[k])@ == published(after.analyses, uri);
    law_own_diagnostics_are_told(after.analyses, uri, own);
    assert(stands_at(own, own.compiler_diagnostics[i].place, uri, range));
    law_no_report_is_lost(own, i, uri, range);
    let owned = owned_diagnostics(own);
    let m = choose|m: int|
        0 <= m < owned_diagnostics(own).len() && (#[trigger] owned_diagnostics(own)[m]).0 == uri
            && tells(owned_diagnostics(own)[m].1, own.compiler_diagnostics[i], range);
    lemma_given(owned, m);
    let list = diagnostics_of(owned, uri);
    let l = choose|l: int| 0 <= l < list.len() && list[l] == owned[m].1;
    assert(is_told(updates, k, l, uri, snapshot.compiler_diagnostics[i], range));
}

proof fn lemma_given(owned: Seq<(Seq<char>, DiagnosticView)>, m: int)
    requires
        0 <= m < owned.len(),
    ensures
        diagnostics_of(owned, owned[m].0).contains(owned[m].1),
    decreases owned.len(),
{
    let rest = owned.drop_last();
    let uri = owned[m].0;
    let list = diagnostics_of(owned, uri);
    if m == rest.len() {
        assert(list[list.len() - 1] == owned[m].1);
    } else {
        lemma_given(rest, m);
        let before = diagnostics_of(rest, uri);
        let k = choose|k: int| 0 <= k < before.len() && before[k] == owned[m].1;
        assert(list[k] == owned[m].1);
    }
}

/// The references at a call of a function, or at its name, are those that the analyses find, and
/// no others; those of something built in are the calls of its name.
pub proof fn law_references_are_those_found(
    list: Seq<LocationView>,
    state: StateView,
    referenced: ReferencedView,
    a: int,
    i: int,
    j: int,
    location: LocationView,
)
    requires
        are_references(list, state, referenced),
    ensures
        referenced matches ReferencedView::Calls(locations) ==> list == locations,
        referenced matches ReferencedView::Function(target) ==> {
            &&& 0 <= a < state.analyses.len() && is_found_at(
                state.analyses[a].1,
                References::To(target),
                i,
                j,
                location,
            ) && (forall|k: int, l: int|
                !#[trigger] has_no_place(state.analyses[a].1, References::To(target), k, l))
                ==> list.contains(location)
            &&& list.contains(location) ==> exists|b: int, k: int, l: int|
                0 <= b < state.analyses.len() && #[trigger] is_found_at(
                    state.analyses[b].1,
                    References::To(target),
                    k,
                    l,
                    location,
                )
        },
{
    if let ReferencedView::Function(target) = referenced {
        law_references_of_every_analysis_count(state.analyses, target, a, i, j, location);
        if list.contains(location) {
            assert(list.to_set().contains(location));
        }
    }
}

/// The references to a function are told by document, then by start, then by end, and none twice.
pub proof fn law_references_are_told_in_order(
    list: Seq<LocationView>,
    state: StateView,
    referenced: ReferencedView,
    i: int,
    j: int,
)
    requires
        are_references(list, state, referenced),
        referenced is Function,
        0 <= i < j < list.len(),
    ensures
        list[i].uri != list[j].uri ==> precedes(list[i].uri, list[j].uri),
        list[i].uri == list[j].uri ==> {
            let a = list[i].range;
            let b = list[j].range;
            ||| a.start.line < b.start.line
            ||| a.start.line == b.start.line && a.start.character < b.start.character
            ||| a.start == b.start && a.end.line < b.end.line
            ||| a.start == b.start && a.end.line == b.end.line && a.end.character
                < b.end.character
        },
{
}

/// Every open document with a text is analyzed again, as it was sent, under a number that no request
/// had.
pub proof fn law_open_documents_are_analyzed_again(
    documents: Seq<(Seq<char>, DocumentView)>,
    generation: u64,
    i: int,
    text: Seq<char>,
)
    requires
        0 <= i < documents.len(),
        documents[i].1.open,
        documents[i].1.text == Some(text),
        generation + documents.len() <= u64::MAX,
    ensures
        renewed(documents, generation)[i].1.generation > generation,
        exists|k: int|
            0 <= k < renewal_inputs(documents, generation).len() && (
            #[trigger] renewal_inputs(documents, generation)[k]) == (InputView {
                uri: documents[i].0,
                text,
                version: documents[i].1.version,
                generation: renewed(documents, generation)[i].1.generation,
            }),
{
    law_reanalysis_covers_open_documents(documents, generation, i);
}

} // verus!
