//! The documents that are open, and what is known of them.

use vstd::prelude::*;

use crate::analysis::{AnalysisSnapshot, SnapshotView};
use crate::protocol::opt_text;
use crate::syntax::copy_opt_text;
use crate::text_map::{
    keys_ascend, law_value_is_found, lemma_entry_is_found, lemma_mapped, lemma_place_of, lookup,
    mapped, with_value, TextMap,
};
use crate::workspace::diagnostics::{owned_diagnostics, DiagnosticBundle};

pub mod diagnostics;
pub mod laws;
pub mod publication;
pub mod references;
pub mod state_laws;

verus! {

/// A document that is or was open. Of one that was closed, only the number of its last request is
/// kept, so that results of earlier requests are told apart.
#[derive(Debug)]
pub struct DocumentState {
    pub open: bool,
    pub text: Option<String>,
    pub version: Option<i32>,
    /// The number of the last request for this document.
    pub generation: u64,
}

/// What a [`DocumentState`] says.
#[verifier::ext_equal]
pub struct DocumentView {
    pub open: bool,
    pub text: Option<Seq<char>>,
    pub version: Option<i32>,
    pub generation: u64,
}

impl View for DocumentState {
    type V = DocumentView;

    open spec fn view(&self) -> DocumentView {
        DocumentView {
            open: self.open,
            text: opt_text(self.text),
            version: self.version,
            generation: self.generation,
        }
    }
}

/// A request to analyze a document.
#[derive(Debug)]
pub struct AnalysisInput {
    pub uri: String,
    pub text: String,
    pub version: Option<i32>,
    pub generation: u64,
}

/// What an [`AnalysisInput`] says.
#[verifier::ext_equal]
pub struct InputView {
    pub uri: Seq<char>,
    pub text: Seq<char>,
    pub version: Option<i32>,
    pub generation: u64,
}

impl View for AnalysisInput {
    type V = InputView;

    open spec fn view(&self) -> InputView {
        InputView {
            uri: self.uri@,
            text: self.text@,
            version: self.version,
            generation: self.generation,
        }
    }
}

/// What a list of requests says.
pub open spec fn input_views(list: Seq<AnalysisInput>) -> Seq<InputView> {
    Seq::new(list.len(), |i: int| list[i]@)
}

/// An analysis and its diagnostics.
#[derive(Debug)]
pub struct Analysis {
    pub snapshot: AnalysisSnapshot,
    pub bundle: DiagnosticBundle,
}

/// The documents that are open, and the last analysis of each.
#[derive(Debug)]
pub struct WorkspaceState {
    pub documents: TextMap<DocumentState>,
    pub analyses: TextMap<Analysis>,
    /// The number of the last request.
    pub generation: u64,
}

/// What a [`WorkspaceState`] says. Documents and analyses are in the order of their URIs.
#[verifier::ext_equal]
pub struct StateView {
    pub documents: Seq<(Seq<char>, DocumentView)>,
    pub analyses: Seq<(Seq<char>, SnapshotView)>,
    pub generation: u64,
}

/// What a document says.
pub open spec fn shown_document() -> spec_fn(DocumentState) -> DocumentView {
    |document: DocumentState| document@
}

/// What an analysis says.
pub open spec fn shown_analysis() -> spec_fn(Analysis) -> SnapshotView {
    |analysis: Analysis| analysis.snapshot@
}

impl View for WorkspaceState {
    type V = StateView;

    open spec fn view(&self) -> StateView {
        StateView {
            documents: mapped(self.documents@, shown_document()),
            analyses: mapped(self.analyses@, shown_analysis()),
            generation: self.generation,
        }
    }
}

impl StateView {
    /// Whether documents and analyses are in order, and no request has a number that is still to
    /// come.
    pub open spec fn well_formed(self) -> bool {
        &&& keys_ascend(self.documents)
        &&& keys_ascend(self.analyses)
        &&& forall|i: int|
            0 <= i < self.documents.len() ==> (#[trigger] self.documents[i]).1.generation
                <= self.generation
    }

    /// The number of the last request for a document, if there was one.
    pub open spec fn last_request(self, uri: Seq<char>) -> Option<u64> {
        match lookup(self.documents, uri) {
            Some(document) => Some(document.generation),
            None => None,
        }
    }
}

impl WorkspaceState {
    /// Whether the state is in order, and the diagnostics are those of the analyses.
    pub open spec fn well_formed(self) -> bool {
        &&& self@.well_formed()
        &&& forall|i: int|
            0 <= i < self.analyses@.len() ==> (#[trigger] self.analyses@[i]).1.bundle@
                == owned_diagnostics(self.analyses@[i].1.snapshot@)
    }
}

/// A state with a new request for a document.
pub open spec fn with_request(state: StateView, uri: Seq<char>, document: DocumentView) -> StateView {
    StateView {
        documents: with_value(state.documents, uri, document),
        generation: document.generation,
        ..state
    }
}

/// The number of the next request.
pub open spec fn next_number(state: StateView) -> u64 {
    (state.generation + 1) as u64
}

/// An open document with its text, under the next number.
pub open spec fn opened(state: StateView, text: Seq<char>, version: Option<i32>) -> DocumentView {
    DocumentView { open: true, text: Some(text), version, generation: next_number(state) }
}

/// What is left of a document that is closed, under the next number.
pub open spec fn tombstone(state: StateView) -> DocumentView {
    DocumentView { open: false, text: None, version: None, generation: next_number(state) }
}

/// Whether a change of a document is accepted: it is open, and not at a newer version.
pub open spec fn accepts_change(state: StateView, uri: Seq<char>, version: Option<i32>) -> bool {
    match lookup(state.documents, uri) {
        Some(document) => document.open && match (version, document.version) {
            (Some(new), Some(current)) => new >= current,
            _ => true,
        },
        None => false,
    }
}

/// The version of a document after a change. One that is not told keeps the last known.
pub open spec fn version_after(state: StateView, uri: Seq<char>, version: Option<i32>) -> Option<
    i32,
> {
    match version {
        Some(_) => version,
        None => match lookup(state.documents, uri) {
            Some(document) => document.version,
            None => None,
        },
    }
}

/// Whether a document is open.
pub open spec fn is_open(state: StateView, uri: Seq<char>) -> bool {
    match lookup(state.documents, uri) {
        Some(document) => document.open,
        None => false,
    }
}

/// How many of some documents are open and hold their text.
pub open spec fn open_count(documents: Seq<(Seq<char>, DocumentView)>) -> nat
    decreases documents.len(),
{
    if documents.len() == 0 {
        0
    } else {
        open_count(documents.drop_last()) + (if holds_text(documents.last().1) {
            1nat
        } else {
            0nat
        })
    }
}

/// Whether a document is open and holds its text.
pub open spec fn holds_text(document: DocumentView) -> bool {
    document.open && document.text is Some
}

/// The documents after a new request for each that is open: the requests are numbered in order.
pub open spec fn renewed(documents: Seq<(Seq<char>, DocumentView)>, generation: u64) -> Seq<
    (Seq<char>, DocumentView),
> {
    Seq::new(
        documents.len(),
        |i: int| if holds_text(documents[i].1) {
            (
                documents[i].0,
                DocumentView {
                    generation: (generation + open_count(documents.take(i + 1))) as u64,
                    ..documents[i].1
                },
            )
        } else {
            documents[i]
        },
    )
}

/// The requests for each document that is open.
pub open spec fn renewal_inputs(
    documents: Seq<(Seq<char>, DocumentView)>,
    generation: u64,
) -> Seq<InputView>
    decreases documents.len(),
{
    if documents.len() == 0 {
        Seq::empty()
    } else {
        let before = renewal_inputs(documents.drop_last(), generation);
        let (uri, document) = documents.last();
        if holds_text(document) {
            before.push(
                InputView {
                    uri,
                    text: document.text->0,
                    version: document.version,
                    generation: (generation + open_count(documents)) as u64,
                },
            )
        } else {
            before
        }
    }
}

/// No request that was made before has the number of a new one, so that its result is told apart.
pub proof fn law_new_request_supersedes_all(
    state: StateView,
    uri: Seq<char>,
    document: DocumentView,
    earlier: u64,
)
    requires
        state.well_formed(),
        state.generation < u64::MAX,
        document.generation == next_number(state),
        earlier <= state.generation,
    ensures
        with_request(state, uri, document).well_formed(),
        with_request(state, uri, document).last_request(uri) == Some(document.generation),
        with_request(state, uri, document).last_request(uri) != Some(earlier),
{
    let after = with_request(state, uri, document);
    law_value_is_found(state.documents, uri, document, uri);
    let at = crate::text_map::place_of(state.documents, uri);
    lemma_place_of(state.documents, uri);
    assert forall|i: int| 0 <= i < after.documents.len() implies (
    #[trigger] after.documents[i]).1.generation <= after.generation by {
        let found = at < state.documents.len() && state.documents[at].0 == uri;
        if i != at {
            if found || i < at {
                assert(after.documents[i] == state.documents[i]);
            } else {
                assert(after.documents[i] == state.documents[i - 1]);
            }
        }
    }
}

/// A request for one document leaves the others as they were.
pub proof fn law_requests_are_independent(
    state: StateView,
    uri: Seq<char>,
    document: DocumentView,
    other: Seq<char>,
)
    requires
        state.well_formed(),
        other != uri,
    ensures
        lookup(with_request(state, uri, document).documents, other) == lookup(
            state.documents,
            other,
        ),
        with_request(state, uri, document).analyses == state.analyses,
{
    law_value_is_found(state.documents, uri, document, other);
}

impl WorkspaceState {
    /// A state without documents.
    pub fn new() -> (r: WorkspaceState)
        ensures
            r.well_formed(),
            r@ == (StateView {
                documents: Seq::empty(),
                analyses: Seq::empty(),
                generation: 0,
            }),
    {
        let r = WorkspaceState {
            documents: TextMap::new(),
            analyses: TextMap::new(),
            generation: 0,
        };
        assert(r@.documents =~= Seq::<(Seq<char>, DocumentView)>::empty());
        assert(r@.analyses =~= Seq::<(Seq<char>, SnapshotView)>::empty());
        r
    }

    /// Puts a document under the number of a new request.
    fn set_document(&mut self, uri: &str, document: DocumentState)
        requires
            old(self).well_formed(),
            old(self).generation < u64::MAX,
            document@.generation == next_number(old(self)@),
        ensures
            final(self).well_formed(),
            final(self)@ == with_request(old(self)@, uri@, document@),
    {
        let ghost before = self@;
        let ghost view = document@;
        let generation: u64 = document.generation;
        proof {
            lemma_mapped(self.documents@, shown_document(), uri@, document);
            law_new_request_supersedes_all(before, uri@, view, 0);
        }
        self.documents.insert(uri.to_owned(), document);
        self.generation = generation;
        assert(self@ =~= with_request(before, uri@, view));
    }

    /// A document is opened.
    pub fn begin_open(&mut self, uri: &str, text: &str, version: Option<i32>) -> (r: AnalysisInput)
        requires
            old(self).well_formed(),
            old(self).generation < u64::MAX,
        ensures
            final(self).well_formed(),
            final(self)@ == with_request(old(self)@, uri@, opened(old(self)@, text@, version)),
            r@ == (InputView {
                uri: uri@,
                text: text@,
                version,
                generation: next_number(old(self)@),
            }),
    {
        let generation: u64 = self.generation + 1;
        self.set_document(
            uri,
            DocumentState { open: true, text: Some(text.to_owned()), version, generation },
        );
        AnalysisInput { uri: uri.to_owned(), text: text.to_owned(), version, generation }
    }

    /// The text of a document is changed or saved. A change that comes late is not accepted.
    pub fn begin_change(&mut self, uri: &str, text: &str, version: Option<i32>) -> (r: Option<
        AnalysisInput,
    >)
        requires
            old(self).well_formed(),
            old(self).generation < u64::MAX,
        ensures
            final(self).well_formed(),
            r is Some <==> accepts_change(old(self)@, uri@, version),
            match r {
                Some(input) => {
                    let kept = version_after(old(self)@, uri@, version);
                    &&& final(self)@ == with_request(
                        old(self)@,
                        uri@,
                        opened(old(self)@, text@, kept),
                    )
                    &&& input@ == (InputView {
                        uri: uri@,
                        text: text@,
                        version: kept,
                        generation: next_number(old(self)@),
                    })
                },
                None => final(self)@ == old(self)@,
            },
    {
        proof {
            lemma_mapped_lookup(self.documents@, uri@);
        }
        let kept: Option<i32> = match self.documents.get(uri) {
            Some(document) => {
                if !document.open {
                    return None;
                }
                match (version, document.version) {
                    (Some(new), Some(current)) => {
                        if new < current {
                            return None;
                        }
                        version
                    },
                    (Some(_), None) => version,
                    (None, last) => last,
                }
            },
            None => return None,
        };
        let generation: u64 = self.generation + 1;
        self.set_document(
            uri,
            DocumentState { open: true, text: Some(text.to_owned()), version: kept, generation },
        );
        Some(
            AnalysisInput { uri: uri.to_owned(), text: text.to_owned(), version: kept, generation },
        )
    }

    /// A document is closed. Its text is let go, and the number of the request tells results of
    /// earlier requests apart.
    pub fn begin_close(&mut self, uri: &str) -> (r: Option<u64>)
        requires
            old(self).well_formed(),
            old(self).generation < u64::MAX,
        ensures
            final(self).well_formed(),
            match r {
                Some(generation) => is_open(old(self)@, uri@) && generation == next_number(
                    old(self)@,
                ) && final(self)@ == with_request(old(self)@, uri@, tombstone(old(self)@)),
                None => !is_open(old(self)@, uri@) && final(self)@ == old(self)@,
            },
    {
        proof {
            lemma_mapped_lookup(self.documents@, uri@);
        }
        let open: bool = match self.documents.get(uri) {
            Some(document) => document.open,
            None => false,
        };
        if !open {
            return None;
        }
        let generation: u64 = self.generation + 1;
        self.set_document(
            uri,
            DocumentState { open: false, text: None, version: None, generation },
        );
        Some(generation)
    }
}

/// A document that is looked up says what is found among what all documents say.
pub(crate) proof fn lemma_mapped_lookup(entries: Seq<(Seq<char>, DocumentState)>, uri: Seq<char>)
    ensures
        lookup(mapped(entries, shown_document()), uri) == (match lookup(entries, uri) {
            Some(document) => Some(document@),
            None => None,
        }),
{
    let any = arbitrary::<DocumentState>();
    lemma_mapped(entries, shown_document(), uri, any);
}

/// A document is open as many times as it stands among the first, and these are no more than all.
proof fn lemma_open_count(documents: Seq<(Seq<char>, DocumentView)>, i: int)
    requires
        0 <= i <= documents.len(),
    ensures
        open_count(documents.take(i)) <= open_count(documents) <= documents.len(),
    decreases documents.len(),
{
    if i == documents.len() {
        assert(documents.take(i) == documents);
        if documents.len() > 0 {
            lemma_open_count(documents.drop_last(), i - 1);
        }
    } else {
        assert(documents.drop_last().take(i) == documents.take(i));
        lemma_open_count(documents.drop_last(), i);
    }
}

/// Every document that is open gets a request of its own, with a number that no request had.
pub proof fn law_reanalysis_covers_open_documents(
    documents: Seq<(Seq<char>, DocumentView)>,
    generation: u64,
    i: int,
)
    requires
        0 <= i < documents.len(),
        holds_text(documents[i].1),
        generation + documents.len() <= u64::MAX,
    ensures
        exists|k: int|
            0 <= k < renewal_inputs(documents, generation).len() && (
            #[trigger] renewal_inputs(documents, generation)[k]) == (InputView {
                uri: documents[i].0,
                text: documents[i].1.text->0,
                version: documents[i].1.version,
                generation: renewed(documents, generation)[i].1.generation,
            }),
        renewed(documents, generation)[i].1.generation > generation,
    decreases documents.len(),
{
    let inputs = renewal_inputs(documents, generation);
    let rest = documents.drop_last();
    lemma_open_count(documents, i + 1);
    let wanted = InputView {
        uri: documents[i].0,
        text: documents[i].1.text->0,
        version: documents[i].1.version,
        generation: renewed(documents, generation)[i].1.generation,
    };
    assert(documents.take(i + 1).last() == documents[i]);
    if i == rest.len() {
        assert(documents.take(i + 1) == documents);
        assert(inputs[inputs.len() - 1] == wanted);
    } else {
        assert(rest.take(i + 1) == documents.take(i + 1));
        law_reanalysis_covers_open_documents(rest, generation, i);
        let before = renewal_inputs(rest, generation);
        let k = choose|k: int|
            0 <= k < before.len() && (#[trigger] renewal_inputs(rest, generation)[k])
                == (InputView {
                uri: rest[i].0,
                text: rest[i].1.text->0,
                version: rest[i].1.version,
                generation: renewed(rest, generation)[i].1.generation,
            });
        assert(inputs[k] == wanted);
    }
}

/// The first documents renewed, and the others as they were.
spec fn partly_renewed(
    documents: Seq<(Seq<char>, DocumentView)>,
    generation: u64,
    n: int,
) -> Seq<(Seq<char>, DocumentView)> {
    Seq::new(
        documents.len(),
        |i: int| if i < n {
            renewed(documents, generation)[i]
        } else {
            documents[i]
        },
    )
}

impl WorkspaceState {
    /// All documents that are open are to be analyzed again.
    pub fn begin_reanalysis(&mut self) -> (r: Vec<AnalysisInput>)
        requires
            old(self).well_formed(),
            old(self).generation + old(self)@.documents.len() <= u64::MAX,
        ensures
            final(self).well_formed(),
            final(self)@ == (StateView {
                documents: renewed(old(self)@.documents, old(self).generation),
                generation: (old(self).generation + open_count(old(self)@.documents)) as u64,
                ..old(self)@
            }),
            input_views(r@) == renewal_inputs(old(self)@.documents, old(self).generation),
    {
        let ghost before = self@;
        let ghost documents = before.documents;
        let ghost first = self.generation;
        let ghost analyses = self.analyses@;
        let mut r: Vec<AnalysisInput> = Vec::new();
        let mut i: usize = 0;
        proof {
            assert(input_views(r@) =~= Seq::<InputView>::empty());
            assert(partly_renewed(documents, first, 0) =~= documents);
        }
        while i < self.documents.len()
            invariant
                i <= documents.len(),
                documents == before.documents,
                before.well_formed(),
                first == before.generation,
                first + documents.len() <= u64::MAX,
                self.analyses@ == analyses,
                keys_ascend(self@.documents),
                self@.documents == partly_renewed(documents, first, i as int),
                self.generation == first + open_count(documents.take(i as int)),
                open_count(documents.take(i as int)) <= i,
                input_views(r@) == renewal_inputs(documents.take(i as int), first),
            decreases documents.len() - i,
        {
            let ghost held = self.documents@;
            let ghost shown = self@.documents;
            assert(shown.len() == held.len());
            assert(shown.len() == documents.len());
            let document: &DocumentState = self.documents.value_at(i);
            proof {
                assert(shown[i as int] == (held[i as int].0, document@));
                assert(shown[i as int] == documents[i as int]);
                assert(documents.take(i + 1).drop_last() == documents.take(i as int));
                assert(documents.take(i + 1).last() == documents[i as int]);
            }
            let open: bool = document.open;
            let version: Option<i32> = document.version;
            let text: Option<String> = copy_opt_text(&document.text);
            if let (true, Some(text)) = (open, text) {
                let generation: u64 = self.generation + 1;
                let uri: String = self.documents.key_at(i).clone();
                let state = DocumentState {
                    open: true,
                    text: Some(text.clone()),
                    version,
                    generation,
                };
                proof {
                    lemma_mapped(held, shown_document(), uri@, state);
                    lemma_entry_is_found(held, i as int);
                }
                let ghost view = state@;
                self.documents.insert(uri.clone(), state);
                self.generation = generation;
                proof {
                    assert(self@.documents == shown.update(i as int, (uri@, view)));
                    assert(renewed(documents, first)[i as int] =~= (uri@, view));
                    assert(self@.documents =~= partly_renewed(documents, first, i + 1));
                    law_value_is_found(shown, uri@, view, uri@);
                }
                let input = AnalysisInput { uri, text, version, generation };
                let ghost so_far = input_views(r@);
                let ghost request = input@;
                r.push(input);
                assert(input_views(r@) =~= so_far.push(request));
            } else {
                assert(!holds_text(documents[i as int].1));
                assert(renewed(documents, first)[i as int] == documents[i as int]);
                assert(self@.documents =~= partly_renewed(documents, first, i + 1));
            }
            i = i + 1;
        }
        proof {
            assert(self@.documents.len() == self.documents@.len());
            assert(documents.take(i as int) == documents);
            assert(self@.documents =~= renewed(documents, first));
            assert forall|k: int| 0 <= k < self@.documents.len() implies (
            #[trigger] self@.documents[k]).1.generation <= self.generation by {
                lemma_open_count(documents, k + 1);
                assert(documents[k].1.generation <= before.generation);
            }
        }
        r
    }
}

} // verus!
