//! What the editor is told of diagnostics, and when.

use vstd::prelude::*;

use crate::analysis::{AnalysisSnapshot, SnapshotView};
use crate::order::{ascending, insert_text, texts};
use crate::protocol::{diagnostic_views, Diagnostic, DiagnosticView};
use crate::text_map::{
    law_removed_key_is_gone, law_value_is_found, lemma_mapped, lemma_place_of, lookup, mapped,
    place_of, with_value, without,
};
use crate::workspace::diagnostics::{
    add_owners, diagnostics_of, owned_diagnostics, owned_views, owners, DiagnosticBundle,
    OwnedDiagnostic,
};
use crate::workspace::{shown_analysis, Analysis, StateView, WorkspaceState};

verus! {

/// The diagnostics of a document as they are now, with its version where it is open.
#[derive(Debug)]
pub struct DiagnosticUpdate {
    pub uri: String,
    pub diagnostics: Vec<Diagnostic>,
    pub version: Option<i32>,
}

/// What a [`DiagnosticUpdate`] says.
#[verifier::ext_equal]
pub struct UpdateView {
    pub uri: Seq<char>,
    pub diagnostics: Seq<DiagnosticView>,
    pub version: Option<i32>,
}

impl View for DiagnosticUpdate {
    type V = UpdateView;

    open spec fn view(&self) -> UpdateView {
        UpdateView {
            uri: self.uri@,
            diagnostics: diagnostic_views(self.diagnostics@),
            version: self.version,
        }
    }
}

/// The documents that some updates are for.
pub open spec fn update_uris(updates: Seq<DiagnosticUpdate>) -> Seq<Seq<char>> {
    Seq::new(updates.len(), |i: int| updates[i].uri@)
}

/// What some analyses say of a document, in the order of their roots.
pub open spec fn gathered(analyses: Seq<(Seq<char>, SnapshotView)>, uri: Seq<char>) -> Seq<
    DiagnosticView,
>
    decreases analyses.len(),
{
    if analyses.len() == 0 {
        Seq::empty()
    } else {
        gathered(analyses.drop_last(), uri) + diagnostics_of(
            owned_diagnostics(analyses.last().1),
            uri,
        )
    }
}

/// Diagnostics without those that occurred before.
pub open spec fn distinct(list: Seq<DiagnosticView>) -> Seq<DiagnosticView>
    decreases list.len(),
{
    if list.len() == 0 {
        Seq::empty()
    } else {
        let before = distinct(list.drop_last());
        if before.contains(list.last()) {
            before
        } else {
            before.push(list.last())
        }
    }
}

/// What the editor is told of a document. What its own analysis says counts where there is one;
/// else it is what the analyses of other documents say, each thing once.
pub open spec fn published(analyses: Seq<(Seq<char>, SnapshotView)>, uri: Seq<char>) -> UpdateView {
    match lookup(analyses, uri) {
        Some(snapshot) => UpdateView {
            uri,
            diagnostics: diagnostics_of(owned_diagnostics(snapshot), uri),
            version: snapshot.version,
        },
        None => UpdateView { uri, diagnostics: distinct(gathered(analyses, uri)), version: None },
    }
}

/// The documents that the analysis of a document says something of.
pub open spec fn touched(analyses: Seq<(Seq<char>, SnapshotView)>, uri: Seq<char>) -> Set<
    Seq<char>,
> {
    match lookup(analyses, uri) {
        Some(snapshot) => owners(owned_diagnostics(snapshot)),
        None => Set::empty(),
    }
}

/// Whether updates tell the editor how some documents are now, each of them once and in order.
pub open spec fn tell(
    updates: Seq<DiagnosticUpdate>,
    analyses: Seq<(Seq<char>, SnapshotView)>,
    uris: Set<Seq<char>>,
) -> bool {
    &&& ascending(update_uris(updates))
    &&& update_uris(updates).to_set() == uris
    &&& forall|i: int|
        0 <= i < updates.len() ==> (#[trigger] updates[i])@ == published(analyses, updates[i].uri@)
}

/// A state with a new analysis of a document.
pub open spec fn replaced(
    state: StateView,
    uri: Seq<char>,
    snapshot: SnapshotView,
    version: Option<i32>,
) -> StateView {
    StateView {
        analyses: with_value(state.analyses, uri, SnapshotView { version, ..snapshot }),
        ..state
    }
}

/// A state without the analysis of a document.
pub open spec fn removed(state: StateView, uri: Seq<char>) -> StateView {
    StateView { analyses: without(state.analyses, uri), ..state }
}

/// The documents that a new analysis of a document may change something for.
pub open spec fn affected(before: StateView, after: StateView, uri: Seq<char>) -> Set<Seq<char>> {
    touched(before.analyses, uri).union(touched(after.analyses, uri)).insert(uri)
}

/// A document that no diagnostic belongs to has none.
proof fn lemma_no_diagnostics(owned: Seq<(Seq<char>, DiagnosticView)>, uri: Seq<char>)
    requires
        !owners(owned).contains(uri),
    ensures
        diagnostics_of(owned, uri) == Seq::<DiagnosticView>::empty(),
    decreases owned.len(),
{
    if owned.len() > 0 {
        let rest = owned.drop_last();
        assert(!owners(rest).contains(uri)) by {
            if owners(rest).contains(uri) {
                let i = choose|i: int| 0 <= i < rest.len() && (#[trigger] rest[i]).0 == uri;
                assert(owned[i].0 == uri);
            }
        }
        lemma_no_diagnostics(rest, uri);
        assert(owned[owned.len() - 1].0 != uri);
    }
}

/// An analysis that says nothing of a document may come or go.
proof fn lemma_gathered_insert(
    analyses: Seq<(Seq<char>, SnapshotView)>,
    i: int,
    entry: (Seq<char>, SnapshotView),
    uri: Seq<char>,
)
    requires
        0 <= i <= analyses.len(),
        diagnostics_of(owned_diagnostics(entry.1), uri).len() == 0,
    ensures
        gathered(analyses.insert(i, entry), uri) == gathered(analyses, uri),
    decreases analyses.len(),
{
    let after = analyses.insert(i, entry);
    if i == analyses.len() {
        assert(after.drop_last() =~= analyses);
        assert(after.last() == entry);
        assert(gathered(after, uri) =~= gathered(analyses, uri));
    } else {
        assert(after.drop_last() =~= analyses.drop_last().insert(i, entry));
        assert(after.last() == analyses.last());
        lemma_gathered_insert(analyses.drop_last(), i, entry, uri);
    }
}

/// An analysis that says nothing of a document may be replaced by another such.
proof fn lemma_gathered_update(
    analyses: Seq<(Seq<char>, SnapshotView)>,
    i: int,
    entry: (Seq<char>, SnapshotView),
    uri: Seq<char>,
)
    requires
        0 <= i < analyses.len(),
        diagnostics_of(owned_diagnostics(entry.1), uri).len() == 0,
        diagnostics_of(owned_diagnostics(analyses[i].1), uri).len() == 0,
    ensures
        gathered(analyses.update(i, entry), uri) == gathered(analyses, uri),
    decreases analyses.len(),
{
    let after = analyses.update(i, entry);
    if i == analyses.len() - 1 {
        assert(after.drop_last() =~= analyses.drop_last());
        assert(after.last() == entry);
        assert(gathered(after, uri) =~= gathered(analyses, uri));
    } else {
        assert(after.drop_last() =~= analyses.drop_last().update(i, entry));
        assert(after.last() == analyses.last());
        lemma_gathered_update(analyses.drop_last(), i, entry, uri);
    }
}

/// A new analysis changes nothing for a document that is not affected, so that the updates tell the
/// editor of every change.
pub proof fn law_replacing_changes_only_what_is_told(
    state: StateView,
    uri: Seq<char>,
    snapshot: SnapshotView,
    version: Option<i32>,
    other: Seq<char>,
)
    requires
        state.well_formed(),
        !affected(state, replaced(state, uri, snapshot, version), uri).contains(other),
    ensures
        published(replaced(state, uri, snapshot, version).analyses, other) == published(
            state.analyses,
            other,
        ),
{
    let after = replaced(state, uri, snapshot, version);
    let new = SnapshotView { version, ..snapshot };
    let at = place_of(state.analyses, uri);
    lemma_place_of(state.analyses, uri);
    law_value_is_found(state.analyses, uri, new, other);
    lemma_no_diagnostics(owned_diagnostics(new), other);
    if at < state.analyses.len() && state.analyses[at].0 == uri {
        assert(lookup(state.analyses, uri) == Some(state.analyses[at].1));
        lemma_no_diagnostics(owned_diagnostics(state.analyses[at].1), other);
        lemma_gathered_update(state.analyses, at, (uri, new), other);
    } else {
        lemma_gathered_insert(state.analyses, at, (uri, new), other);
    }
}

/// Removing an analysis changes nothing for a document that is not affected, so that the updates
/// tell the editor of every change.
pub proof fn law_removing_changes_only_what_is_told(
    state: StateView,
    uri: Seq<char>,
    other: Seq<char>,
)
    requires
        state.well_formed(),
        !affected(state, removed(state, uri), uri).contains(other),
    ensures
        published(removed(state, uri).analyses, other) == published(state.analyses, other),
{
    let after = removed(state, uri).analyses;
    let at = place_of(state.analyses, uri);
    lemma_place_of(state.analyses, uri);
    law_removed_key_is_gone(state.analyses, uri, other);
    if at < state.analyses.len() && state.analyses[at].0 == uri {
        let entry = state.analyses[at];
        assert(lookup(state.analyses, uri) == Some(entry.1));
        lemma_no_diagnostics(owned_diagnostics(entry.1), other);
        assert(after.insert(at, entry) =~= state.analyses);
        lemma_gathered_insert(after, at, entry, other);
    }
}

/// What is told of a document that has its own analysis does not depend on other analyses.
pub proof fn law_own_analysis_takes_precedence(
    analyses: Seq<(Seq<char>, SnapshotView)>,
    others: Seq<(Seq<char>, SnapshotView)>,
    uri: Seq<char>,
)
    requires
        lookup(analyses, uri) is Some,
        lookup(others, uri) == lookup(analyses, uri),
    ensures
        published(others, uri) == published(analyses, uri),
        published(analyses, uri).version == lookup(analyses, uri)->0.version,
{
}

/// What is told of a document without its own analysis holds nothing twice, and has no version.
pub proof fn law_shared_diagnostics_are_told_once(
    analyses: Seq<(Seq<char>, SnapshotView)>,
    uri: Seq<char>,
)
    requires
        lookup(analyses, uri) is None,
    ensures
        published(analyses, uri).diagnostics.no_duplicates(),
        published(analyses, uri).diagnostics.to_set() == gathered(analyses, uri).to_set(),
        published(analyses, uri).version is None,
{
    lemma_distinct(gathered(analyses, uri));
}

/// When a document is closed, the editor is told again what the other analyses say of it.
pub proof fn law_closing_restores_shared_diagnostics(state: StateView, uri: Seq<char>)
    requires
        state.well_formed(),
    ensures
        affected(state, removed(state, uri), uri).contains(uri),
        published(removed(state, uri).analyses, uri) == (UpdateView {
            uri,
            diagnostics: distinct(gathered(removed(state, uri).analyses, uri)),
            version: None,
        }),
        forall|other: Seq<char>|
            other != uri ==> #[trigger] lookup(removed(state, uri).analyses, other) == lookup(
                state.analyses,
                other,
            ),
{
    law_removed_key_is_gone(state.analyses, uri, uri);
    assert forall|other: Seq<char>| other != uri implies #[trigger] lookup(
        removed(state, uri).analyses,
        other,
    ) == lookup(state.analyses, other) by {
        law_removed_key_is_gone(state.analyses, uri, other);
    }
}

proof fn lemma_distinct(list: Seq<DiagnosticView>)
    ensures
        distinct(list).no_duplicates(),
        distinct(list).to_set() == list.to_set(),
    decreases list.len(),
{
    if list.len() > 0 {
        let rest = list.drop_last();
        let before = distinct(rest);
        let after = distinct(list);
        lemma_distinct(rest);
        assert forall|d: DiagnosticView| after.to_set().contains(d) == list.to_set().contains(d) by {
            assert(before.to_set().contains(d) == rest.to_set().contains(d));
            if after.contains(d) {
                let k = choose|k: int| 0 <= k < after.len() && after[k] == d;
                if k < before.len() {
                    assert(before[k] == d);
                    assert(rest.contains(d));
                    let m = choose|m: int| 0 <= m < rest.len() && rest[m] == d;
                    assert(list[m] == d);
                } else {
                    assert(list[list.len() - 1] == d);
                }
            }
            if list.contains(d) {
                let m = choose|m: int| 0 <= m < list.len() && list[m] == d;
                if m < rest.len() {
                    assert(rest[m] == d);
                    assert(before.contains(d));
                    let k = choose|k: int| 0 <= k < before.len() && before[k] == d;
                    assert(after[k] == d);
                } else if before.contains(d) {
                    let k = choose|k: int| 0 <= k < before.len() && before[k] == d;
                    assert(after[k] == d);
                } else {
                    assert(after[after.len() - 1] == d);
                }
            }
        }
        assert(after.to_set() =~= list.to_set());
    } else {
        assert(distinct(list) =~= list);
    }
}

/// Adds the diagnostics of a document that were not there before.
fn add_distinct(list: &mut Vec<Diagnostic>, bundle: &DiagnosticBundle, uri: &str, so_far: Ghost<
    Seq<DiagnosticView>,
>)
    requires
        diagnostic_views(old(list)@) == distinct(so_far@),
    ensures
        diagnostic_views(final(list)@) == distinct(so_far@ + diagnostics_of(bundle@, uri@)),
{
    let ghost owned = bundle@;
    let mut i: usize = 0;
    assert(so_far@ + diagnostics_of(owned.take(0), uri@) =~= so_far@);
    while i < bundle.entries.len()
        invariant
            i <= bundle.entries@.len(),
            owned == owned_views(bundle.entries@),
            diagnostic_views(list@) == distinct(
                so_far@ + diagnostics_of(owned.take(i as int), uri@),
            ),
        decreases bundle.entries@.len() - i,
    {
        let entry: &OwnedDiagnostic = &bundle.entries[i];
        let ghost known = so_far@ + diagnostics_of(owned.take(i as int), uri@);
        proof {
            assert(owned.take(i + 1).drop_last() == owned.take(i as int));
            assert(owned.take(i + 1).last() == (entry.uri@, entry.diagnostic@));
        }
        if crate::chars::same(entry.uri.as_str(), uri) {
            let ghost more = known.push(entry.diagnostic@);
            assert(so_far@ + diagnostics_of(owned.take(i + 1), uri@) =~= more);
            assert(more.drop_last() =~= known);
            if !has_diagnostic(list, &entry.diagnostic) {
                let ghost before = diagnostic_views(list@);
                list.push(entry.diagnostic.copy());
                assert(diagnostic_views(list@) =~= before.push(entry.diagnostic@));
            }
        }
        i = i + 1;
    }
    assert(owned.take(i as int) == owned);
}

/// Whether a list holds a diagnostic.
fn has_diagnostic(list: &Vec<Diagnostic>, diagnostic: &Diagnostic) -> (r: bool)
    ensures
        r == diagnostic_views(list@).contains(diagnostic@),
{
    let ghost shown = diagnostic_views(list@);
    let mut i: usize = 0;
    while i < list.len()
        invariant
            i <= list@.len(),
            shown == diagnostic_views(list@),
            forall|k: int| 0 <= k < i ==> shown[k] != diagnostic@,
        decreases list@.len() - i,
    {
        if list[i].same(diagnostic) {
            assert(shown[i as int] == diagnostic@);
            return true;
        }
        i = i + 1;
    }
    false
}

impl WorkspaceState {
    /// The analysis of a document says what is found among what all analyses say.
    proof fn lemma_analysis_lookup(entries: Seq<(Seq<char>, Analysis)>, uri: Seq<char>)
        ensures
            lookup(mapped(entries, shown_analysis()), uri) == (match lookup(entries, uri) {
                Some(analysis) => Some(analysis.snapshot@),
                None => None,
            }),
    {
        lemma_mapped(entries, shown_analysis(), uri, arbitrary::<Analysis>());
    }

    /// The diagnostics of an analysis that is looked up are those of its snapshot.
    proof fn lemma_bundle(self, uri: Seq<char>)
        requires
            self.well_formed(),
        ensures
            lookup(self.analyses@, uri) matches Some(analysis) ==> analysis.bundle@
                == owned_diagnostics(analysis.snapshot@),
    {
        lemma_place_of(self.analyses@, uri);
        if let Some(analysis) = lookup(self.analyses@, uri) {
            let i = place_of(self.analyses@, uri);
            assert(self.analyses@[i].1 == analysis);
        }
    }

    /// The last analysis of a document.
    pub fn get(&self, uri: &str) -> (r: Option<&AnalysisSnapshot>)
        ensures
            match r {
                Some(snapshot) => lookup(self@.analyses, uri@) == Some(snapshot@),
                None => lookup(self@.analyses, uri@) is None,
            },
    {
        proof {
            Self::lemma_analysis_lookup(self.analyses@, uri@);
        }
        match self.analyses.get(uri) {
            Some(analysis) => Some(&analysis.snapshot),
            None => None,
        }
    }

    /// What the editor is told of a document.
    pub fn publish(&self, uri: &str) -> (r: DiagnosticUpdate)
        requires
            self.well_formed(),
        ensures
            r@ == published(self@.analyses, uri@),
    {
        proof {
            Self::lemma_analysis_lookup(self.analyses@, uri@);
            self.lemma_bundle(uri@);
        }
        if let Some(analysis) = self.analyses.get(uri) {
            let mut diagnostics: Vec<Diagnostic> = Vec::new();
            if let Some(list) = analysis.bundle.get(uri) {
                let mut i: usize = 0;
                while i < list.len()
                    invariant
                        i <= list@.len(),
                        diagnostics@.len() == i,
                        forall|k: int|
                            0 <= k < i ==> (#[trigger] diagnostics@[k])@ == list@[k]@,
                    decreases list@.len() - i,
                {
                    diagnostics.push(list[i].copy());
                    i = i + 1;
                }
                assert(diagnostic_views(diagnostics@) =~= Seq::new(
                    list@.len(),
                    |k: int| list@[k]@,
                ));
            }
            assert(diagnostic_views(diagnostics@) =~= diagnostics_of(
                owned_diagnostics(analysis.snapshot@),
                uri@,
            ));
            return DiagnosticUpdate {
                uri: uri.to_owned(),
                diagnostics,
                version: analysis.snapshot.version,
            };
        }
        let ghost analyses = self@.analyses;
        let mut diagnostics: Vec<Diagnostic> = Vec::new();
        let mut i: usize = 0;
        proof {
            assert(diagnostic_views(diagnostics@) =~= distinct(gathered(analyses.take(0), uri@)));
        }
        while i < self.analyses.len()
            invariant
                self.well_formed(),
                analyses == self@.analyses,
                i <= self.analyses@.len(),
                diagnostic_views(diagnostics@) == distinct(gathered(analyses.take(i as int), uri@)),
            decreases self.analyses@.len() - i,
        {
            let analysis: &Analysis = self.analyses.value_at(i);
            let ghost known = gathered(analyses.take(i as int), uri@);
            proof {
                assert(self.analyses@[i as int].1 == *analysis);
                assert(analyses.len() == self.analyses@.len());
                assert(analyses[i as int].1 == analysis.snapshot@);
                assert(analyses.take(i + 1).drop_last() == analyses.take(i as int));
                assert(analyses.take(i + 1).last() == analyses[i as int]);
            }
            add_distinct(&mut diagnostics, &analysis.bundle, uri, Ghost(known));
            i = i + 1;
        }
        proof {
            assert(analyses.len() == self.analyses@.len());
            assert(analyses.take(i as int) == analyses);
        }
        DiagnosticUpdate { uri: uri.to_owned(), diagnostics, version: None }
    }

    /// What the editor is told of some documents.
    fn publish_all(&self, uris: &Vec<String>) -> (r: Vec<DiagnosticUpdate>)
        requires
            self.well_formed(),
            ascending(texts(uris@)),
        ensures
            tell(r@, self@.analyses, texts(uris@).to_set()),
    {
        let mut r: Vec<DiagnosticUpdate> = Vec::new();
        let mut i: usize = 0;
        while i < uris.len()
            invariant
                self.well_formed(),
                i <= uris@.len(),
                r@.len() == i,
                forall|k: int|
                    0 <= k < i ==> (#[trigger] r@[k])@ == published(self@.analyses, uris@[k]@),
            decreases uris@.len() - i,
        {
            r.push(self.publish(uris[i].as_str()));
            i = i + 1;
        }
        proof {
            assert forall|k: int| 0 <= k < r@.len() implies update_uris(r@)[k] == texts(
                uris@,
            )[k] by {
                assert(r@[k]@ == published(self@.analyses, uris@[k]@));
            }
            assert(update_uris(r@) =~= texts(uris@));
        }
        r
    }

    /// Puts a new analysis of a document in the place of the last, and tells what has changed.
    pub fn replace_inner(
        &mut self,
        uri: &str,
        snapshot: AnalysisSnapshot,
        version: Option<i32>,
    ) -> (r: Vec<DiagnosticUpdate>)
        requires
            old(self).well_formed(),
        ensures
            final(self).well_formed(),
            final(self)@ == replaced(old(self)@, uri@, snapshot@, version),
            tell(r@, final(self)@.analyses, affected(old(self)@, final(self)@, uri@)),
    {
        let ghost before = self@;
        let ghost held = self.analyses@;
        let ghost view = SnapshotView { version, ..snapshot@ };
        let mut snapshot: AnalysisSnapshot = snapshot;
        snapshot.version = version;
        assert(snapshot@ =~= view);
        let mut uris: Vec<String> = Vec::new();
        assert(texts(uris@) =~= Seq::<Seq<char>>::empty());
        assert(texts(uris@).to_set() =~= Set::<Seq<char>>::empty());
        insert_text(&mut uris, uri.to_owned());
        proof {
            Self::lemma_analysis_lookup(self.analyses@, uri@);
            self.lemma_bundle(uri@);
        }
        if let Some(analysis) = self.analyses.get(uri) {
            add_owners(&mut uris, &analysis.bundle);
        }
        assert(texts(uris@).to_set() =~= touched(before.analyses, uri@).insert(uri@));
        let bundle: DiagnosticBundle = DiagnosticBundle::from_snapshot(&snapshot);
        add_owners(&mut uris, &bundle);
        let analysis = Analysis { snapshot, bundle };
        proof {
            lemma_mapped(held, shown_analysis(), uri@, analysis);
            law_value_is_found(before.analyses, uri@, view, uri@);
            lemma_place_of(held, uri@);
        }
        self.analyses.insert(uri.to_owned(), analysis);
        proof {
            assert(self@ =~= replaced(before, uri@, snapshot@, version));
            assert forall|i: int| 0 <= i < self.analyses@.len() implies (
            #[trigger] self.analyses@[i]).1.bundle@ == owned_diagnostics(
                self.analyses@[i].1.snapshot@,
            ) by {
                let at = place_of(held, uri@);
                let found = at < held.len() && held[at].0 == uri@;
                if i != at {
                    if found || i < at {
                        assert(self.analyses@[i] == held[i]);
                    } else {
                        assert(self.analyses@[i] == held[i - 1]);
                    }
                }
            }
            assert(texts(uris@).to_set() =~= affected(before, self@, uri@));
        }
        self.publish_all(&uris)
    }

    /// Forgets the analysis of a document, and tells what has changed.
    pub fn remove(&mut self, uri: &str) -> (r: Vec<DiagnosticUpdate>)
        requires
            old(self).well_formed(),
        ensures
            final(self).well_formed(),
            final(self)@ == removed(old(self)@, uri@),
            tell(r@, final(self)@.analyses, affected(old(self)@, final(self)@, uri@)),
    {
        let ghost before = self@;
        let ghost held = self.analyses@;
        let mut uris: Vec<String> = Vec::new();
        assert(texts(uris@) =~= Seq::<Seq<char>>::empty());
        assert(texts(uris@).to_set() =~= Set::<Seq<char>>::empty());
        insert_text(&mut uris, uri.to_owned());
        proof {
            Self::lemma_analysis_lookup(self.analyses@, uri@);
            self.lemma_bundle(uri@);
        }
        if let Some(analysis) = self.analyses.get(uri) {
            add_owners(&mut uris, &analysis.bundle);
        }
        assert(texts(uris@).to_set() =~= touched(before.analyses, uri@).insert(uri@));
        proof {
            lemma_mapped(held, shown_analysis(), uri@, arbitrary::<Analysis>());
            law_removed_key_is_gone(before.analyses, uri@, uri@);
            lemma_place_of(held, uri@);
        }
        self.analyses.remove(uri);
        proof {
            assert(self@ =~= removed(before, uri@));
            assert forall|i: int| 0 <= i < self.analyses@.len() implies (
            #[trigger] self.analyses@[i]).1.bundle@ == owned_diagnostics(
                self.analyses@[i].1.snapshot@,
            ) by {
                let at = place_of(held, uri@);
                let found = at < held.len() && held[at].0 == uri@;
                if !found || i < at {
                    assert(self.analyses@[i] == held[i]);
                } else {
                    assert(self.analyses@[i] == held[i + 1]);
                }
            }
            assert(texts(uris@).to_set() =~= affected(before, self@, uri@));
        }
        self.publish_all(&uris)
    }

    /// Whether a request is the last one for its document.
    fn is_current(&self, uri: &str, generation: u64) -> (r: bool)
        ensures
            r == (self@.last_request(uri@) == Some(generation)),
    {
        proof {
            crate::workspace::lemma_mapped_lookup(self.documents@, uri@);
        }
        match self.documents.get(uri) {
            Some(document) => document.generation == generation,
            None => false,
        }
    }

    /// The result of an analysis, which counts if nothing was asked of its document since.
    pub fn replace_if_current(
        &mut self,
        uri: &str,
        snapshot: AnalysisSnapshot,
        version: Option<i32>,
        generation: u64,
    ) -> (r: Option<Vec<DiagnosticUpdate>>)
        requires
            old(self).well_formed(),
        ensures
            final(self).well_formed(),
            r is Some <==> old(self)@.last_request(uri@) == Some(generation),
            match r {
                Some(updates) => final(self)@ == replaced(old(self)@, uri@, snapshot@, version)
                    && tell(
                    updates@,
                    final(self)@.analyses,
                    affected(old(self)@, final(self)@, uri@),
                ),
                None => final(self)@ == old(self)@,
            },
    {
        if !self.is_current(uri, generation) {
            return None;
        }
        Some(self.replace_inner(uri, snapshot, version))
    }

    /// A document that was closed is forgotten, unless it was opened again since.
    pub fn remove_if_current(&mut self, uri: &str, generation: u64) -> (r: Option<
        Vec<DiagnosticUpdate>,
    >)
        requires
            old(self).well_formed(),
        ensures
            final(self).well_formed(),
            r is Some <==> old(self)@.last_request(uri@) == Some(generation),
            match r {
                Some(updates) => final(self)@ == removed(old(self)@, uri@) && tell(
                    updates@,
                    final(self)@.analyses,
                    affected(old(self)@, final(self)@, uri@),
                ),
                None => final(self)@ == old(self)@,
            },
    {
        if !self.is_current(uri, generation) {
            return None;
        }
        Some(self.remove(uri))
    }

    /// The diagnostics of a document that is not analyzed, which count if nothing was asked of it
    /// since.
    pub fn diagnostics_if_current(
        &self,
        uri: String,
        diagnostics: Vec<Diagnostic>,
        version: Option<i32>,
        generation: u64,
    ) -> (r: Option<Vec<DiagnosticUpdate>>)
        ensures
            r is Some <==> self@.last_request(uri@) == Some(generation),
            match r {
                Some(updates) => updates@.len() == 1 && updates@[0]@ == (UpdateView {
                    uri: uri@,
                    diagnostics: diagnostic_views(diagnostics@),
                    version,
                }),
                None => true,
            },
    {
        if !self.is_current(uri.as_str(), generation) {
            return None;
        }
        Some(vec![DiagnosticUpdate { uri, diagnostics, version }])
    }
}

} // verus!
