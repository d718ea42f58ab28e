//! References to a function from all documents.

use vstd::prelude::*;

use crate::analysis::SnapshotView;
use crate::chars::same;
use crate::error::{conversion_failed, LspError};
use crate::navigation::definition::{
    definition_of, opt_location, referenced_at, Referenced, ReferencedView,
};
use crate::navigation::references::{
    all_locations, location_views, FunctionIdentity, IdentityView, QueryView,
};
use crate::navigation::says;
use crate::order::{comes_before, lemma_precedes_total, lemma_precedes_transitive, precedes};
use crate::protocol::{Location, LocationView, Position};
use crate::text::{offset_of_position, position_failure};
use crate::text_map::lookup;
use crate::workspace::{Analysis, StateView, WorkspaceState};

verus! {

/// Whether a position comes before another.
pub open spec fn position_before(a: Position, b: Position) -> bool {
    a.line < b.line || (a.line == b.line && a.character < b.character)
}

/// Whether a location comes before another: by document, then by start, then by end.
pub open spec fn location_before(a: LocationView, b: LocationView) -> bool {
    if a.uri != b.uri {
        precedes(a.uri, b.uri)
    } else if a.range.start != b.range.start {
        position_before(a.range.start, b.range.start)
    } else {
        position_before(a.range.end, b.range.end)
    }
}

/// Whether each location comes before every later one.
pub open spec fn locations_ascend(list: Seq<LocationView>) -> bool {
    forall|i: int, j: int|
        0 <= i < j < list.len() ==> location_before(#[trigger] list[i], #[trigger] list[j])
}

/// Whether an analysis finds a reference to a function. One that cannot tell the places of all of
/// them finds none.
pub open spec fn finds(
    snapshot: SnapshotView,
    target: IdentityView,
    location: LocationView,
) -> bool {
    match all_locations(snapshot, QueryView::To(target)) {
        Some(list) => list.contains(location),
        None => false,
    }
}

/// The references to a function that some analyses find.
pub open spec fn references_found(
    analyses: Seq<(Seq<char>, SnapshotView)>,
    target: IdentityView,
) -> Set<LocationView> {
    Set::new(
        |location: LocationView|
            exists|i: int|
                0 <= i < analyses.len() && finds((#[trigger] analyses[i]).1, target, location),
    )
}

/// Of two different locations exactly one comes first.
proof fn lemma_location_total(a: LocationView, b: LocationView)
    ensures
        a == b ==> !location_before(a, b),
        a != b ==> location_before(a, b) != location_before(b, a),
{
    lemma_precedes_total(a.uri, b.uri);
}

/// The order of locations is transitive.
proof fn lemma_location_transitive(a: LocationView, b: LocationView, c: LocationView)
    requires
        location_before(a, b),
        location_before(b, c),
    ensures
        location_before(a, c),
{
    if a.uri != b.uri && b.uri != c.uri {
        lemma_precedes_transitive(a.uri, b.uri, c.uri);
        lemma_precedes_total(a.uri, c.uri);
    }
}

/// Whether the first location comes before the second.
fn is_before(a: &Location, b: &Location) -> (r: bool)
    ensures
        r == location_before(a@, b@),
{
    if !same(a.uri.as_str(), b.uri.as_str()) {
        comes_before(a.uri.as_str(), b.uri.as_str())
    } else if a.range.start != b.range.start {
        a.range.start.line < b.range.start.line || (a.range.start.line == b.range.start.line
            && a.range.start.character < b.range.start.character)
    } else {
        a.range.end.line < b.range.end.line || (a.range.end.line == b.range.end.line
            && a.range.end.character < b.range.end.character)
    }
}

/// Puts a location into an ascending list, unless it is there.
fn insert_location(list: &mut Vec<Location>, location: Location)
    requires
        locations_ascend(location_views(old(list)@)),
    ensures
        locations_ascend(location_views(final(list)@)),
        location_views(final(list)@).to_set() == location_views(old(list)@).to_set().insert(
            location@,
        ),
{
    let ghost before = location_views(list@);
    let ghost new = location@;
    let mut i: usize = 0;
    while i < list.len() && is_before(&list[i], &location)
        invariant
            i <= list@.len(),
            before == location_views(list@),
            forall|k: int| 0 <= k < i ==> location_before(#[trigger] before[k], location@),
        decreases list@.len() - i,
    {
        assert(before[i as int] == list@[i as int]@);
        i = i + 1;
    }
    if i < list.len() && list[i].same(&location) {
        assert(before[i as int] == new);
        assert(before.to_set().contains(new));
        assert(before.to_set().insert(new) =~= before.to_set());
        return ;
    }
    list.insert(i, location);
    proof {
        let after = location_views(list@);
        assert(after =~= before.insert(i as int, new));
        assert forall|x: int, y: int| 0 <= x < y < after.len() implies location_before(
            #[trigger] after[x],
            #[trigger] after[y],
        ) by {
            if x < i {
                if y > i {
                    assert(location_before(before[x], before[y - 1]));
                } else if y < i {
                    assert(location_before(before[x], before[y]));
                }
            } else if x > i {
                assert(location_before(before[x - 1], before[y - 1]));
            } else {
                lemma_location_total(before[i as int], new);
                if y - 1 > i {
                    assert(location_before(before[i as int], before[y - 1]));
                    lemma_location_transitive(new, before[i as int], before[y - 1]);
                }
            }
        }
        let wanted = before.to_set().insert(new);
        assert forall|other: LocationView| #[trigger] after.to_set().contains(other)
            == wanted.contains(other) by {
            if after.contains(other) {
                let k = choose|k: int| 0 <= k < after.len() && after[k] == other;
                if k < i {
                    assert(before[k] == other);
                } else if k > i {
                    assert(before[k - 1] == other);
                }
            }
            if other == new {
                assert(after[i as int] == other);
            } else if before.contains(other) {
                let k = choose|k: int| 0 <= k < before.len() && before[k] == other;
                if k < i {
                    assert(after[k] == other);
                } else {
                    assert(after[k + 1] == other);
                }
            }
        }
        assert(after.to_set() =~= wanted);
    }
}

/// What the references at a position are: those of a call that is no call of a function, in the
/// same analysis, or those of a function, in all analyses.
pub open spec fn are_references(
    list: Seq<LocationView>,
    state: StateView,
    referenced: ReferencedView,
) -> bool {
    match referenced {
        ReferencedView::Calls(locations) => list == locations,
        ReferencedView::Function(identity) => locations_ascend(list) && list.to_set()
            == references_found(state.analyses, identity),
    }
}

impl WorkspaceState {
    /// The references to a function, each once and in order.
    pub fn find_references_to(&self, target: &FunctionIdentity) -> (r: Vec<Location>)
        ensures
            locations_ascend(location_views(r@)),
            location_views(r@).to_set() == references_found(self@.analyses, target@),
    {
        let ghost analyses = self@.analyses;
        let mut r: Vec<Location> = Vec::new();
        let mut i: usize = 0;
        proof {
            assert(location_views(r@) =~= Seq::<LocationView>::empty());
            assert(location_views(r@).to_set() =~= references_found(analyses.take(0), target@));
        }
        while i < self.analyses.len()
            invariant
                i <= self.analyses@.len(),
                analyses == self@.analyses,
                analyses.len() == self.analyses@.len(),
                locations_ascend(location_views(r@)),
                location_views(r@).to_set() == references_found(
                    analyses.take(i as int),
                    target@,
                ),
            decreases self.analyses@.len() - i,
        {
            let analysis: &Analysis = self.analyses.value_at(i);
            assert(analyses[i as int].1 == analysis.snapshot@);
            let ghost before = references_found(analyses.take(i as int), target@);
            match analysis.snapshot.find_references_to(target) {
                Ok(list) => {
                    let ghost found = location_views(list@);
                    let mut k: usize = 0;
                    assert(before.union(found.take(0).to_set()) =~= before);
                    while k < list.len()
                        invariant
                            k <= list@.len(),
                            found == location_views(list@),
                            locations_ascend(location_views(r@)),
                            location_views(r@).to_set() == before.union(
                                found.take(k as int).to_set(),
                            ),
                        decreases list@.len() - k,
                    {
                        insert_location(&mut r, list[k].copy());
                        proof {
                            let next = found.take(k + 1);
                            assert(next =~= found.take(k as int).push(found[k as int]));
                            lemma_push_to_set(found.take(k as int), found[k as int]);
                            assert(before.union(found.take(k as int).to_set()).insert(
                                found[k as int],
                            ) =~= before.union(next.to_set()));
                        }
                        k = k + 1;
                    }
                    assert(found.take(k as int) =~= found);
                    proof {
                        lemma_one_more(analyses, target@, i as int);
                        assert(before.union(found.to_set()) =~= references_found(
                            analyses.take(i + 1),
                            target@,
                        ));
                    }
                },
                Err(_) => {
                    proof {
                        lemma_one_more(analyses, target@, i as int);
                        assert(before =~= references_found(analyses.take(i + 1), target@));
                    }
                },
            }
            i = i + 1;
        }
        assert(analyses.take(i as int) == analyses);
        r
    }

    /// Where the thing at a position of a document is defined. Nothing is known of a document that
    /// was not analyzed.
    pub fn definition(&self, uri: &str, position: Position) -> (r: Result<
        Option<Location>,
        LspError,
    >)
        ensures
            match lookup(self@.analyses, uri@) {
                None => r matches Ok(location) && location is None,
                Some(snapshot) => match offset_of_position(snapshot.text, position) {
                    None => r matches Err(error) && conversion_failed(
                        error,
                        position_failure(snapshot.text, position),
                    ),
                    Some(offset) => match r {
                        Ok(location) => definition_of(snapshot, uri@, position, offset) == Ok::<
                            Option<LocationView>,
                            Option<Seq<char>>,
                        >(opt_location(location)),
                        Err(error) => match definition_of(snapshot, uri@, position, offset) {
                            Ok(_) => false,
                            Err(failure) => says(error, failure),
                        },
                    },
                },
            },
    {
        match self.get(uri) {
            Some(snapshot) => snapshot.definition_at(uri, position),
            None => Ok(None),
        }
    }

    /// The references to the thing at a position of a document.
    pub fn references(&self, uri: &str, position: Position) -> (r: Result<
        Option<Vec<Location>>,
        LspError,
    >)
        ensures
            match lookup(self@.analyses, uri@) {
                None => r matches Ok(list) && list is None,
                Some(snapshot) => match offset_of_position(snapshot.text, position) {
                    None => r matches Err(error) && conversion_failed(
                        error,
                        position_failure(snapshot.text, position),
                    ),
                    Some(offset) => match (referenced_at(snapshot, position, offset), r) {
                        (Ok(Some(referenced)), Ok(Some(list))) => are_references(
                            location_views(list@),
                            self@,
                            referenced,
                        ),
                        (Ok(None), Ok(None)) => true,
                        (Err(failure), Err(error)) => says(error, failure),
                        _ => false,
                    },
                },
            },
    {
        let snapshot: &crate::analysis::AnalysisSnapshot = match self.get(uri) {
            Some(snapshot) => snapshot,
            None => return Ok(None),
        };
        match snapshot.referenced_at(position) {
            Ok(Some(Referenced::Calls(locations))) => Ok(Some(locations)),
            Ok(Some(Referenced::Function(identity))) => Ok(
                Some(self.find_references_to(&identity)),
            ),
            Ok(None) => Ok(None),
            Err(error) => Err(error),
        }
    }
}

/// One more element in a sequence is one more in its set.
proof fn lemma_push_to_set(list: Seq<LocationView>, location: LocationView)
    ensures
        list.push(location).to_set() == list.to_set().insert(location),
{
    let after = list.push(location);
    assert forall|other: LocationView| #[trigger] after.to_set().contains(other)
        == list.to_set().insert(location).contains(other) by {
        if after.contains(other) {
            let k = choose|k: int| 0 <= k < after.len() && after[k] == other;
            if k < list.len() {
                assert(list[k] == other);
            }
        }
        if list.contains(other) {
            let k = choose|k: int| 0 <= k < list.len() && list[k] == other;
            assert(after[k] == other);
        }
        if other == location {
            assert(after[list.len() as int] == other);
        }
    }
    assert(after.to_set() =~= list.to_set().insert(location));
}

/// What one more analysis finds.
proof fn lemma_one_more(
    analyses: Seq<(Seq<char>, SnapshotView)>,
    target: IdentityView,
    i: int,
)
    requires
        0 <= i < analyses.len(),
    ensures
        forall|location: LocationView| #[trigger]
            references_found(analyses.take(i + 1), target).contains(location) == (
            references_found(analyses.take(i), target).contains(location) || finds(
                analyses[i].1,
                target,
                location,
            )),
{
    let less = analyses.take(i);
    let more = analyses.take(i + 1);
    assert forall|location: LocationView| #[trigger]
        references_found(more, target).contains(location) == (references_found(
            less,
            target,
        ).contains(location) || finds(analyses[i].1, target, location)) by {
        if references_found(more, target).contains(location) {
            let k = choose|k: int|
                0 <= k < more.len() && finds((#[trigger] more[k]).1, target, location);
            if k < i {
                assert(less[k] == more[k]);
            }
        }
        if references_found(less, target).contains(location) {
            let k = choose|k: int|
                0 <= k < less.len() && finds((#[trigger] less[k]).1, target, location);
            assert(more[k] == less[k]);
        }
        if finds(analyses[i].1, target, location) {
            assert(more[i] == analyses[i]);
        }
    }
}

} // verus!
