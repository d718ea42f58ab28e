//! What an unfinished import can be completed to, in a project and on disk.

use vstd::prelude::*;

use crate::chars::{join2, join3, same, to_chars};
use crate::completion::imports::candidates::{
    candidate_views, inline_module_candidates, parse_inline_module_candidates,
    parse_source_candidates, plain, source_candidates, Candidate, CandidateKind, CandidateView,
};
use crate::completion::imports::context::{
    is_identifier, is_identifier_text, ContextView, ImportCompletionContext, Query, QueryView,
};
use crate::order::{
    ascending, comes_before, contains_text, lemma_precedes_total, lemma_precedes_transitive,
    lemma_texts_unique, precedes, texts,
};
use crate::paths::{
    extension, file_name, file_stem, join, path_extension, path_file_name, path_file_stem,
    path_join,
};
use crate::project::disk::{
    agree_on, extends, knows, DirectoryEntry, Disk, Question, QuestionView,
};
use crate::project::visibility::{import_root_of, visible_aliases};
use crate::project::{ContextView as ProjectView, ProjectContext};
use crate::rope::{char_at_byte, on_boundary};
use crate::split::find_boundary;
use crate::text_map::lookup;

verus! {

/// The canonical path of a document, or its path where it has none.
pub open spec fn document_path(disk: Disk, path: Seq<char>) -> Result<Seq<char>, QuestionView> {
    match lookup(disk.canonical@, path) {
        None => Err(QuestionView::Canonical(path)),
        Some(Ok(canonical)) => Ok(canonical@),
        Some(Err(_)) => Ok(path),
    }
}

/// The canonical path of a document, or its path where it has none.
fn find_document_path(disk: &Disk, path: &str) -> (r: Result<String, Question>)
    ensures
        match r {
            Ok(document) => document_path(*disk, path@) == Ok::<Seq<char>, QuestionView>(
                document@,
            ),
            Err(question) => document_path(*disk, path@) == Err::<Seq<char>, QuestionView>(
                question@,
            ),
        },
{
    match disk.canonical.get(path) {
        None => Err(Question::Canonical(path.to_owned())),
        Some(Ok(canonical)) => Ok(canonical.clone()),
        Some(Err(_)) => Ok(path.to_owned()),
    }
}

/// What a directory holds as a candidate: a directory, or a source, with a name that can be
/// imported. The document itself is none.
pub open spec fn entry_candidate(entry: DirectoryEntry, document: Seq<char>) -> Option<
    CandidateView,
> {
    if entry.canonical@ == document {
        None
    } else if entry.is_directory {
        match path_file_name(entry.path@) {
            Some(name) if is_identifier_text(name) => Some(
                plain(
                    name,
                    CandidateKind::Module,
                    "Module directory `"@ + entry.path@ + "`"@,
                ),
            ),
            _ => None,
        }
    } else if path_extension(entry.path@) == Some("simf"@) {
        match path_file_stem(entry.path@) {
            Some(name) if is_identifier_text(name) => Some(
                plain(name, CandidateKind::Module, "Module file `"@ + entry.path@ + "`"@),
            ),
            _ => None,
        }
    } else {
        None
    }
}

/// What a directory holds as candidates.
pub open spec fn entry_candidates(entries: Seq<DirectoryEntry>, document: Seq<char>) -> Seq<
    CandidateView,
>
    decreases entries.len(),
{
    if entries.len() == 0 {
        Seq::empty()
    } else {
        let before = entry_candidates(entries.drop_last(), document);
        match entry_candidate(entries.last(), document) {
            Some(candidate) => before.push(candidate),
            None => before,
        }
    }
}

/// The candidates in a directory.
pub open spec fn directory_candidates(
    disk: Disk,
    directory: Seq<char>,
    document: Seq<char>,
) -> Result<Seq<CandidateView>, QuestionView> {
    match lookup(disk.entries@, directory) {
        None => Err(QuestionView::Entries(directory)),
        Some(entries) => Ok(entry_candidates(entries@, document)),
    }
}

/// The candidates that a source on disk offers. One that cannot be read offers none.
pub open spec fn file_candidates(
    disk: Disk,
    path: Seq<char>,
    segments: Seq<Seq<char>>,
) -> Result<Seq<CandidateView>, QuestionView> {
    match lookup(disk.sources@, path) {
        None => Err(QuestionView::Source(path)),
        Some(Some(source)) => Ok(source_candidates(source@, segments)),
        Some(None) => Ok(Seq::empty()),
    }
}

/// The candidates behind a path of names that has led from a root to a directory: the names go on
/// through directories, then into a source, and on through its modules. Names that lead nowhere from
/// the root itself may be those of modules of the document.
pub open spec fn candidates_below(
    disk: Disk,
    root: Seq<char>,
    directory: Seq<char>,
    segments: Seq<Seq<char>>,
    document: Seq<char>,
    before_use: Seq<char>,
) -> Result<Seq<CandidateView>, QuestionView>
    decreases segments.len(),
{
    if segments.len() == 0 {
        directory_candidates(disk, directory, document)
    } else {
        let inner = path_join(directory, segments[0]);
        let file = path_join(directory, segments[0] + ".simf"@);
        match lookup(disk.directories@, inner) {
            None => Err(QuestionView::IsDirectory(inner)),
            Some(true) => candidates_below(
                disk,
                root,
                inner,
                segments.drop_first(),
                document,
                before_use,
            ),
            Some(false) => match lookup(disk.files@, file) {
                None => Err(QuestionView::IsFile(file)),
                Some(true) => file_candidates(disk, file, segments.drop_first()),
                Some(false) => if directory == root {
                    Ok(source_candidates(before_use, segments))
                } else {
                    Ok(Seq::empty())
                },
            },
        }
    }
}

/// The texts of a set in order.
pub open spec fn in_text_order(set: Set<Seq<char>>) -> Seq<Seq<char>> {
    choose|list: Seq<Seq<char>>| ascending(list) && #[trigger] list.to_set() == set
}

/// An alias as a candidate.
pub open spec fn alias_candidate(
    project: ProjectView,
    document: Seq<char>,
    alias: Seq<char>,
) -> CandidateView {
    plain(
        alias,
        CandidateKind::Module,
        match import_root_of(project, document, alias) {
            Some(root) => "Project dependency `"@ + root + "`"@,
            None => "Project dependency"@,
        },
    )
}

/// The names that a path can begin with: the package itself, and the aliases that are seen from
/// the document.
pub open spec fn root_names(project: ProjectView, document: Seq<char>) -> Seq<CandidateView> {
    seq![plain("crate"@, CandidateKind::Module, "Current package"@)] + in_text_order(
        visible_aliases(project.dependencies, document),
    ).map_values(|alias: Seq<char>| alias_candidate(project, document, alias))
}

/// The part of a source before the `use` that is being completed.
pub open spec fn text_before(source: Seq<char>, offset: nat) -> Seq<char> {
    if on_boundary(source, offset) {
        source.take(char_at_byte(source, offset))
    } else {
        Seq::empty()
    }
}

/// Everything that an unfinished import could name.
pub open spec fn import_candidates(
    disk: Disk,
    context: ContextView,
    source: Seq<char>,
    document: Seq<char>,
    project: ProjectView,
) -> Result<Seq<CandidateView>, QuestionView> {
    match context.query {
        QueryView::Roots => Ok(root_names(project, document)),
        QueryView::Suppressed => Ok(Seq::empty()),
        QueryView::Path(segments) => if segments.len() == 0 {
            Ok(Seq::empty())
        } else {
            match import_root_of(project, document, segments[0]) {
                None => Ok(Seq::empty()),
                Some(root) => {
                    let before_use = text_before(source, context.use_start);
                    match candidates_below(
                        disk,
                        root,
                        root,
                        segments.drop_first(),
                        document,
                        before_use,
                    ) {
                        Err(question) => Err(question),
                        Ok(candidates) => if segments[0] == "crate"@ && segments.len() == 1 {
                            Ok(candidates + inline_module_candidates(before_use))
                        } else {
                            Ok(candidates)
                        },
                    }
                },
            }
        },
    }
}

/// Whether a candidate comes before another: by name, then by detail.
pub open spec fn candidate_before(a: CandidateView, b: CandidateView) -> bool {
    if a.name != b.name {
        precedes(a.name, b.name)
    } else {
        precedes(a.detail, b.detail)
    }
}

/// Whether two candidates have the same name and the same detail.
pub open spec fn same_label(a: CandidateView, b: CandidateView) -> bool {
    a.name == b.name && a.detail == b.detail
}

/// Whether each candidate comes before every later one.
pub open spec fn candidates_ascend(list: Seq<CandidateView>) -> bool {
    forall|i: int, j: int|
        0 <= i < j < list.len() ==> candidate_before(#[trigger] list[i], #[trigger] list[j])
}

/// The index of the first candidate that does not come before `candidate`.
pub open spec fn candidate_place(list: Seq<CandidateView>, candidate: CandidateView) -> int
    decreases list.len(),
{
    if list.len() == 0 || !candidate_before(list[0], candidate) {
        0
    } else {
        1 + candidate_place(list.drop_first(), candidate)
    }
}

/// The candidates with one more. It takes the place of one with the same name and detail.
pub open spec fn with_candidate(list: Seq<CandidateView>, candidate: CandidateView) -> Seq<
    CandidateView,
> {
    let i = candidate_place(list, candidate);
    if i < list.len() && same_label(list[i], candidate) {
        list.update(i, candidate)
    } else {
        list.insert(i, candidate)
    }
}

/// Whether a candidate goes on from what is typed, and is not in the list already.
pub open spec fn is_offered(
    candidate: CandidateView,
    partial: Seq<char>,
    imported: Set<Seq<char>>,
) -> bool {
    partial.is_prefix_of(candidate.name) && !imported.contains(candidate.name)
}

/// The candidates that are offered, in order.
pub open spec fn offered(
    candidates: Seq<CandidateView>,
    partial: Seq<char>,
    imported: Set<Seq<char>>,
) -> Seq<CandidateView>
    decreases candidates.len(),
{
    if candidates.len() == 0 {
        Seq::empty()
    } else {
        let before = offered(candidates.drop_last(), partial, imported);
        if is_offered(candidates.last(), partial, imported) {
            with_candidate(before, candidates.last())
        } else {
            before
        }
    }
}

/// Where the place of a candidate lies.
proof fn lemma_candidate_place(list: Seq<CandidateView>, candidate: CandidateView)
    ensures
        0 <= candidate_place(list, candidate) <= list.len(),
        candidate_place(list, candidate) < list.len() ==> !candidate_before(
            list[candidate_place(list, candidate)],
            candidate,
        ),
        forall|k: int|
            0 <= k < candidate_place(list, candidate) ==> candidate_before(
                #[trigger] list[k],
                candidate,
            ),
    decreases list.len(),
{
    if list.len() > 0 && candidate_before(list[0], candidate) {
        let rest = list.drop_first();
        lemma_candidate_place(rest, candidate);
        assert forall|k: int| 0 <= k < candidate_place(list, candidate) implies candidate_before(
            #[trigger] list[k],
            candidate,
        ) by {
            if k > 0 {
                assert(list[k] == rest[k - 1]);
            }
        }
    }
}

/// The order of candidates is transitive.
proof fn lemma_candidate_transitive(a: CandidateView, b: CandidateView, c: CandidateView)
    requires
        candidate_before(a, b),
        candidate_before(b, c),
    ensures
        candidate_before(a, c),
{
    if a.name == b.name && b.name == c.name {
        lemma_precedes_transitive(a.detail, b.detail, c.detail);
    } else if a.name != b.name && b.name != c.name {
        lemma_precedes_transitive(a.name, b.name, c.name);
        lemma_precedes_total(a.name, c.name);
    }
}

/// Adding a candidate keeps the order.
proof fn lemma_with_candidate_ascends(list: Seq<CandidateView>, candidate: CandidateView)
    requires
        candidates_ascend(list),
    ensures
        candidates_ascend(with_candidate(list, candidate)),
{
    let after = with_candidate(list, candidate);
    let at = candidate_place(list, candidate);
    lemma_candidate_place(list, candidate);
    let found = at < list.len() && same_label(list[at], candidate);
    if at < list.len() {
        lemma_precedes_total(list[at].name, candidate.name);
        lemma_precedes_total(list[at].detail, candidate.detail);
    }
    assert forall|i: int, j: int| 0 <= i < j < after.len() implies candidate_before(
        #[trigger] after[i],
        #[trigger] after[j],
    ) by {
        if found {
            if i == at {
                assert(after[j] == list[j]);
                assert(candidate_before(list[i], list[j]));
            } else if j == at {
                assert(after[i] == list[i]);
            } else {
                assert(after[i] == list[i]);
                assert(after[j] == list[j]);
            }
        } else if j < at {
            assert(after[i] == list[i]);
            assert(after[j] == list[j]);
        } else if j == at {
            assert(after[i] == list[i]);
        } else if i < at {
            assert(after[i] == list[i]);
            assert(after[j] == list[j - 1]);
            assert(candidate_before(list[i], list[j - 1]));
        } else if i == at {
            assert(after[j] == list[j - 1]);
            if j - 1 > at {
                assert(candidate_before(list[at], list[j - 1]));
                lemma_candidate_transitive(candidate, list[at], list[j - 1]);
            }
        } else {
            assert(after[i] == list[i - 1]);
            assert(after[j] == list[j - 1]);
        }
    }
}

/// What is offered is in order, goes on from what is typed, and repeats nothing that is imported
/// already.
pub proof fn law_offered_candidates(
    candidates: Seq<CandidateView>,
    partial: Seq<char>,
    imported: Set<Seq<char>>,
    candidate: CandidateView,
)
    ensures
        candidates_ascend(offered(candidates, partial, imported)),
        offered(candidates, partial, imported).contains(candidate) ==> candidates.contains(
            candidate,
        ) && is_offered(candidate, partial, imported),
    decreases candidates.len(),
{
    if candidates.len() > 0 {
        let rest = candidates.drop_last();
        law_offered_candidates(rest, partial, imported, candidate);
        let before = offered(rest, partial, imported);
        let last = candidates.last();
        if is_offered(last, partial, imported) {
            lemma_with_candidate_ascends(before, last);
            lemma_candidate_place(before, last);
        }
        let after = offered(candidates, partial, imported);
        if after.contains(candidate) {
            let k = choose|k: int| 0 <= k < after.len() && after[k] == candidate;
            if candidate == last && is_offered(last, partial, imported) {
                assert(candidates[candidates.len() - 1] == candidate);
            } else {
                if is_offered(last, partial, imported) {
                    let at = candidate_place(before, last);
                    let found = at < before.len() && same_label(before[at], last);
                    if found || k < at {
                        assert(before[k] == candidate);
                    } else {
                        assert(before[k - 1] == candidate);
                    }
                }
                assert(before.contains(candidate));
                let m = choose|m: int| 0 <= m < rest.len() && rest[m] == candidate;
                assert(candidates[m] == candidate);
            }
        }
    }
}

/// Everything that could be imported, goes on from what is typed and is not imported already is
/// offered by its name and detail.
pub proof fn law_no_candidate_is_lost(
    candidates: Seq<CandidateView>,
    partial: Seq<char>,
    imported: Set<Seq<char>>,
    i: int,
)
    requires
        0 <= i < candidates.len(),
        is_offered(candidates[i], partial, imported),
    ensures
        exists|k: int|
            0 <= k < offered(candidates, partial, imported).len() && same_label(
                #[trigger] offered(candidates, partial, imported)[k],
                candidates[i],
            ),
    decreases candidates.len(),
{
    let rest = candidates.drop_last();
    let before = offered(rest, partial, imported);
    let after = offered(candidates, partial, imported);
    let last = candidates.last();
    let at = candidate_place(before, last);
    lemma_candidate_place(before, last);
    if i == rest.len() {
        assert(same_label(after[at], candidates[i]));
    } else {
        law_no_candidate_is_lost(rest, partial, imported, i);
        let k = choose|k: int|
            0 <= k < before.len() && same_label(#[trigger] before[k], candidates[i]);
        if is_offered(last, partial, imported) {
            let found = at < before.len() && same_label(before[at], last);
            if found || k < at {
                assert(same_label(after[k], candidates[i]));
            } else {
                assert(same_label(after[k + 1], candidates[i]));
            }
        } else {
            assert(same_label(after[k], candidates[i]));
        }
    }
}

/// What is found below a directory stays when more becomes known of the disk, and what is asked is
/// not known.
proof fn lemma_candidates_below_stay(
    less: Disk,
    more: Disk,
    root: Seq<char>,
    directory: Seq<char>,
    segments: Seq<Seq<char>>,
    document: Seq<char>,
    before_use: Seq<char>,
)
    requires
        extends(less, more),
    ensures
        match candidates_below(less, root, directory, segments, document, before_use) {
            Ok(candidates) => candidates_below(
                more,
                root,
                directory,
                segments,
                document,
                before_use,
            ) == Ok::<Seq<CandidateView>, QuestionView>(candidates),
            Err(question) => !knows(less, question),
        },
    decreases segments.len(),
{
    let listed = QuestionView::Entries(directory);
    assert(knows(less, listed) ==> agree_on(less, more, listed));
    if segments.len() > 0 {
        let inner = path_join(directory, segments[0]);
        let file = path_join(directory, segments[0] + ".simf"@);
        let first = QuestionView::IsDirectory(inner);
        let second = QuestionView::IsFile(file);
        let third = QuestionView::Source(file);
        assert(knows(less, first) ==> agree_on(less, more, first));
        assert(knows(less, second) ==> agree_on(less, more, second));
        assert(knows(less, third) ==> agree_on(less, more, third));
        if lookup(less.directories@, inner) == Some(true) {
            lemma_candidates_below_stay(
                less,
                more,
                root,
                inner,
                segments.drop_first(),
                document,
                before_use,
            );
        }
    }
}

/// A completion asks only what is not known, and one that came to an end stays the same whatever
/// else becomes known of the disk.
pub proof fn law_completion_is_settled(
    less: Disk,
    more: Disk,
    context: ContextView,
    source: Seq<char>,
    document: Seq<char>,
    project: ProjectView,
)
    requires
        extends(less, more),
    ensures
        match import_candidates(less, context, source, document, project) {
            Ok(candidates) => import_candidates(more, context, source, document, project) == Ok::<
                Seq<CandidateView>,
                QuestionView,
            >(candidates),
            Err(question) => !knows(less, question),
        },
{
    if let QueryView::Path(segments) = context.query {
        if segments.len() > 0 {
            if let Some(root) = import_root_of(project, document, segments[0]) {
                lemma_candidates_below_stay(
                    less,
                    more,
                    root,
                    root,
                    segments.drop_first(),
                    document,
                    text_before(source, context.use_start),
                );
            }
        }
    }
}

/// What a search for candidates says.
pub open spec fn candidates_found(r: Result<Vec<Candidate>, Question>) -> Result<
    Seq<CandidateView>,
    QuestionView,
> {
    match r {
        Ok(candidates) => Ok(candidate_views(candidates@)),
        Err(question) => Err(question@),
    }
}

/// No candidates.
fn no_candidates() -> (r: Vec<Candidate>)
    ensures
        candidate_views(r@) == Seq::<CandidateView>::empty(),
{
    let r: Vec<Candidate> = Vec::new();
    assert(candidate_views(r@) =~= Seq::<CandidateView>::empty());
    r
}

/// What a directory holds as a candidate.
fn candidate_of_entry(entry: &DirectoryEntry, document: &str) -> (r: Option<Candidate>)
    ensures
        match r {
            Some(candidate) => entry_candidate(*entry, document@) == Some(candidate@),
            None => entry_candidate(*entry, document@) is None,
        },
{
    if same(entry.canonical.as_str(), document) {
        return None;
    }
    if entry.is_directory {
        match file_name(entry.path.as_str()) {
            Some(name) => {
                if !is_identifier(to_chars(name.as_str()).as_slice()) {
                    return None;
                }
                let detail: String = join3("Module directory `", entry.path.as_str(), "`");
                Some(Candidate::plain(name, CandidateKind::Module, detail))
            },
            None => None,
        }
    } else {
        let is_source: bool = match extension(entry.path.as_str()) {
            Some(text) => same(text.as_str(), "simf"),
            None => false,
        };
        if !is_source {
            return None;
        }
        match file_stem(entry.path.as_str()) {
            Some(name) => {
                if !is_identifier(to_chars(name.as_str()).as_slice()) {
                    return None;
                }
                let detail: String = join3("Module file `", entry.path.as_str(), "`");
                Some(Candidate::plain(name, CandidateKind::Module, detail))
            },
            None => None,
        }
    }
}

/// What a directory holds as candidates.
pub fn candidates_of_entries(entries: &Vec<DirectoryEntry>, document: &str) -> (r: Vec<Candidate>)
    ensures
        candidate_views(r@) == entry_candidates(entries@, document@),
{
    let mut r: Vec<Candidate> = no_candidates();
    let mut i: usize = 0;
    while i < entries.len()
        invariant
            i <= entries@.len(),
            candidate_views(r@) == entry_candidates(entries@.take(i as int), document@),
        decreases entries@.len() - i,
    {
        assert(entries@.take(i + 1).drop_last() == entries@.take(i as int));
        if let Some(candidate) = candidate_of_entry(&entries[i], document) {
            let ghost before = candidate_views(r@);
            let ghost view = candidate@;
            r.push(candidate);
            assert(candidate_views(r@) =~= before.push(view));
        }
        i = i + 1;
    }
    assert(entries@.take(i as int) == entries@);
    r
}

/// The candidates in a directory.
fn list_directory(disk: &Disk, directory: &str, document: &str) -> (r: Result<
    Vec<Candidate>,
    Question,
>)
    ensures
        candidates_found(r) == directory_candidates(*disk, directory@, document@),
{
    match disk.entries.get(directory) {
        None => Err(Question::Entries(directory.to_owned())),
        Some(entries) => Ok(candidates_of_entries(entries, document)),
    }
}

/// The candidates that a source on disk offers.
fn parse_file_candidates(disk: &Disk, path: &str, segments: &[String]) -> (r: Result<
    Vec<Candidate>,
    Question,
>)
    ensures
        candidates_found(r) == file_candidates(*disk, path@, texts(segments@)),
{
    match disk.sources.get(path) {
        None => Err(Question::Source(path.to_owned())),
        Some(Some(source)) => Ok(parse_source_candidates(source.as_str(), segments)),
        Some(None) => Ok(no_candidates()),
    }
}

/// The candidates behind a path of names, seen from a root.
fn candidates_at(
    disk: &Disk,
    root: &str,
    segments: &[String],
    document: &str,
    before_use: &str,
) -> (r: Result<Vec<Candidate>, Question>)
    ensures
        candidates_found(r) == candidates_below(
            *disk,
            root@,
            root@,
            texts(segments@),
            document@,
            before_use@,
        ),
{
    let ghost path = texts(segments@);
    let mut cursor: String = root.to_owned();
    let count: usize = segments.len();
    let mut i: usize = 0;
    assert(path.skip(0) == path);
    while i < segments.len()
        invariant
            i <= segments@.len(),
            count == segments@.len(),
            path == texts(segments@),
            candidates_below(
                *disk,
                root@,
                root@,
                path,
                document@,
                before_use@,
            ) == candidates_below(
                *disk,
                root@,
                cursor@,
                path.skip(i as int),
                document@,
                before_use@,
            ),
        decreases segments@.len() - i,
    {
        let ghost rest = path.skip(i as int);
        assert(rest[0] == segments@[i as int]@);
        assert(rest.drop_first() == path.skip(i + 1));
        let inner: String = join(cursor.as_str(), segments[i].as_str());
        let is_directory: bool = match disk.directories.get(inner.as_str()) {
            None => return Err(Question::IsDirectory(inner)),
            Some(answer) => *answer,
        };
        if is_directory {
            cursor = inner;
            i = i + 1;
            continue ;
        }
        let file: String = join(cursor.as_str(), join2(segments[i].as_str(), ".simf").as_str());
        let is_file: bool = match disk.files.get(file.as_str()) {
            None => return Err(Question::IsFile(file)),
            Some(answer) => *answer,
        };
        if is_file {
            let inner_segments: &[String] = vstd::slice::slice_subrange(segments, i + 1, count);
            assert(texts(inner_segments@) =~= path.skip(i + 1));
            return parse_file_candidates(disk, file.as_str(), inner_segments);
        }
        if same(cursor.as_str(), root) {
            let inner_segments: &[String] = vstd::slice::slice_subrange(segments, i, count);
            assert(texts(inner_segments@) =~= rest);
            return Ok(parse_source_candidates(before_use, inner_segments));
        }
        return Ok(no_candidates());
    }
    assert(path.skip(i as int).len() == 0);
    list_directory(disk, cursor.as_str(), document)
}

/// The names that a path can begin with.
pub fn root_candidates(project: &ProjectContext, document: &str) -> (r: Vec<Candidate>)
    ensures
        candidate_views(r@) == root_names(project@, document@),
{
    let aliases: Vec<String> = project.dependency_aliases(document);
    let ghost list = texts(aliases@);
    let ghost wanted = list.map_values(
        |alias: Seq<char>| alias_candidate(project@, document@, alias),
    );
    proof {
        let chosen = in_text_order(visible_aliases(project@.dependencies, document@));
        assert(ascending(list) && list.to_set() == visible_aliases(
            project@.dependencies,
            document@,
        ));
        lemma_texts_unique(list, chosen);
    }
    let mut r: Vec<Candidate> = no_candidates();
    r.push(
        Candidate::plain(
            "crate".to_owned(),
            CandidateKind::Module,
            "Current package".to_owned(),
        ),
    );
    let ghost first = plain("crate"@, CandidateKind::Module, "Current package"@);
    assert(candidate_views(r@) =~= seq![first] + wanted.take(0));
    let mut i: usize = 0;
    while i < aliases.len()
        invariant
            i <= aliases@.len(),
            list == texts(aliases@),
            wanted == list.map_values(
                |alias: Seq<char>| alias_candidate(project@, document@, alias),
            ),
            candidate_views(r@) == seq![first] + wanted.take(i as int),
        decreases aliases@.len() - i,
    {
        let ghost before = candidate_views(r@);
        let detail: String = match project.import_root(document, aliases[i].as_str()) {
            Some(root) => join3("Project dependency `", root, "`"),
            None => "Project dependency".to_owned(),
        };
        let candidate = Candidate::plain(aliases[i].clone(), CandidateKind::Module, detail);
        let ghost view = candidate@;
        assert(view =~= wanted[i as int]);
        r.push(candidate);
        assert(candidate_views(r@) =~= before.push(view));
        assert(wanted.take(i + 1) =~= wanted.take(i as int).push(wanted[i as int]));
        assert(candidate_views(r@) =~= seq![first] + wanted.take(i + 1));
        i = i + 1;
    }
    assert(wanted.take(i as int) =~= wanted);
    r
}

/// Whether a text begins with another.
fn begins_with(text: &str, beginning: &str) -> (r: bool)
    ensures
        r == beginning@.is_prefix_of(text@),
{
    let chars: Vec<char> = to_chars(text);
    let wanted: Vec<char> = to_chars(beginning);
    if wanted.len() > chars.len() {
        return false;
    }
    let head: &[char] = vstd::slice::slice_subrange(chars.as_slice(), 0, wanted.len());
    crate::chars::same_chars(head, wanted.as_slice())
}

/// Whether the first candidate comes before the second.
fn is_before(a: &Candidate, b: &Candidate) -> (r: bool)
    ensures
        r == candidate_before(a@, b@),
{
    if same(a.name.as_str(), b.name.as_str()) {
        comes_before(a.detail.as_str(), b.detail.as_str())
    } else {
        comes_before(a.name.as_str(), b.name.as_str())
    }
}

/// Adds a candidate, in the place of one with the same name and detail.
fn insert_candidate(list: &mut Vec<Candidate>, candidate: Candidate)
    ensures
        candidate_views(final(list)@) == with_candidate(candidate_views(old(list)@), candidate@),
{
    let ghost before = candidate_views(list@);
    let ghost view = candidate@;
    let mut i: usize = 0;
    assert(before.skip(0) == before);
    while i < list.len() && is_before(&list[i], &candidate)
        invariant
            i <= list@.len(),
            before == candidate_views(list@),
            candidate_place(before, candidate@) == i + candidate_place(
                before.skip(i as int),
                candidate@,
            ),
        decreases list@.len() - i,
    {
        assert(before.skip(i as int)[0] == list@[i as int]@);
        assert(before.skip(i as int).drop_first() == before.skip(i + 1));
        i = i + 1;
    }
    proof {
        if i < list@.len() {
            assert(before.skip(i as int)[0] == list@[i as int]@);
        }
    }
    if i < list.len() && same(list[i].name.as_str(), candidate.name.as_str()) && same(
        list[i].detail.as_str(),
        candidate.detail.as_str(),
    ) {
        list.set(i, candidate);
        assert(candidate_views(list@) =~= before.update(i as int, view));
    } else {
        list.insert(i, candidate);
        assert(candidate_views(list@) =~= before.insert(i as int, view));
    }
}

/// The candidates that are offered, in order.
pub fn to_completion_items(
    candidates: &Vec<Candidate>,
    partial: &str,
    already_imported: &Vec<String>,
) -> (r: Vec<Candidate>)
    ensures
        candidate_views(r@) == offered(
            candidate_views(candidates@),
            partial@,
            texts(already_imported@).to_set(),
        ),
{
    let ghost shown = candidate_views(candidates@);
    let ghost imported = texts(already_imported@).to_set();
    let mut r: Vec<Candidate> = no_candidates();
    let mut i: usize = 0;
    while i < candidates.len()
        invariant
            i <= candidates@.len(),
            shown == candidate_views(candidates@),
            imported == texts(already_imported@).to_set(),
            candidate_views(r@) == offered(shown.take(i as int), partial@, imported),
        decreases candidates@.len() - i,
    {
        assert(shown.take(i + 1).drop_last() == shown.take(i as int));
        assert(shown.take(i + 1).last() == candidates@[i as int]@);
        let candidate: &Candidate = &candidates[i];
        let known: bool = contains_text(already_imported.as_slice(), candidate.name.as_str());
        assert(known == imported.contains(candidate.name@));
        if begins_with(candidate.name.as_str(), partial) && !known {
            insert_candidate(&mut r, candidate.copy());
        }
        i = i + 1;
    }
    assert(shown.take(i as int) == shown);
    r
}

/// The candidates behind a path.
fn path_candidates(
    context: &ImportCompletionContext,
    segments: &Vec<String>,
    source: &str,
    document: &str,
    project: &ProjectContext,
    disk: &Disk,
) -> (r: Result<Vec<Candidate>, Question>)
    requires
        context@.query == QueryView::Path(texts(segments@)),
    ensures
        candidates_found(r) == import_candidates(
            *disk,
            context@,
            source@,
            document@,
            project@,
        ),
{
    let count: usize = segments.len();
    if count == 0 {
        return Ok(no_candidates());
    }
    let ghost names = texts(segments@);
    assert(names[0] == segments@[0]@);
    let root: &str = match project.import_root(document, segments[0].as_str()) {
        Some(root) => root,
        None => return Ok(no_candidates()),
    };
    let chars: Vec<char> = to_chars(source);
    let end: usize = match find_boundary(chars.as_slice(), context.use_start) {
        Some(end) => end,
        None => 0,
    };
    let before: &[char] = vstd::slice::slice_subrange(chars.as_slice(), 0, end);
    assert(before@ =~= text_before(source@, context@.use_start));
    let before_use: String = crate::chars::to_text(before);
    let relative: &[String] = vstd::slice::slice_subrange(segments.as_slice(), 1, count);
    assert(texts(relative@) =~= names.drop_first());
    let mut candidates: Vec<Candidate> = match candidates_at(
        disk,
        root,
        relative,
        document,
        before_use.as_str(),
    ) {
        Ok(candidates) => candidates,
        Err(question) => return Err(question),
    };
    if count == 1 && same(segments[0].as_str(), "crate") {
        let ghost found = candidate_views(candidates@);
        let mut modules: Vec<Candidate> = parse_inline_module_candidates(before_use.as_str());
        let ghost inline = candidate_views(modules@);
        candidates.append(&mut modules);
        assert(candidate_views(candidates@) =~= found + inline);
    }
    Ok(candidates)
}

/// Completes the path or the list that an unfinished import asks for. It stops where something has
/// to be asked of the disk first.
pub fn complete_import(
    context: &ImportCompletionContext,
    source: &str,
    current_path: &str,
    project: &ProjectContext,
    disk: &Disk,
) -> (r: Result<Vec<Candidate>, Question>)
    ensures
        candidates_found(r) == (match document_path(*disk, current_path@) {
            Err(question) => Err(question),
            Ok(document) => match import_candidates(
                *disk,
                context@,
                source@,
                document,
                project@,
            ) {
                Err(question) => Err(question),
                Ok(candidates) => Ok(
                    offered(candidates, context@.partial, context@.already_imported),
                ),
            },
        }),
{
    let document: String = match find_document_path(disk, current_path) {
        Ok(document) => document,
        Err(question) => return Err(question),
    };
    let candidates: Vec<Candidate> = match &context.query {
        Query::Roots => root_candidates(project, document.as_str()),
        Query::Suppressed => no_candidates(),
        Query::Path(segments) => match path_candidates(
            context,
            segments,
            source,
            document.as_str(),
            project,
            disk,
        ) {
            Ok(candidates) => candidates,
            Err(question) => return Err(question),
        },
    };
    Ok(to_completion_items(&candidates, context.partial.as_str(), &context.already_imported))
}

} // verus!
