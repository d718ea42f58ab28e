//! What the server does on a notification of the editor.

use vstd::prelude::*;

use crate::chars::{same, to_chars};
use crate::order::{contains_text, texts};
use crate::paths::{extension, file_name, path_extension, path_file_name};

pub mod completion;
pub mod hover;
pub mod laws;
pub mod symbols;

verus! {

/// Whether a character is a lower-case letter, or the capital of it.
pub open spec fn is_letter(c: char, lower: char) -> bool {
    c == lower || ('A' <= c <= 'Z' && c as u32 + 32 == lower as u32)
}

/// Whether a text is a word in lower case, but for its capitals.
pub open spec fn is_word(text: Seq<char>, lower: Seq<char>) -> bool {
    text.len() == lower.len() && forall|i: int|
        0 <= i < text.len() ==> is_letter(#[trigger] text[i], lower[i])
}

/// Whether a text is a word in lower case, but for its capitals.
fn matches_word(text: &str, lower: &str) -> (r: bool)
    ensures
        r == is_word(text@, lower@),
{
    let a: Vec<char> = to_chars(text);
    let b: Vec<char> = to_chars(lower);
    if a.len() != b.len() {
        return false;
    }
    let mut i: usize = 0;
    while i < a.len()
        invariant
            i <= a@.len() == b@.len(),
            a@ == text@,
            b@ == lower@,
            forall|k: int| 0 <= k < i ==> is_letter(#[trigger] a@[k], b@[k]),
        decreases a@.len() - i,
    {
        let c: char = a[i];
        let wanted: char = b[i];
        let capital: bool = 'A' <= c && c <= 'Z' && c as u32 + 32 == wanted as u32;
        if c != wanted && !capital {
            assert(!is_letter(a@[i as int], b@[i as int]));
            return false;
        }
        i = i + 1;
    }
    true
}

/// Whether a path is that of a witness file.
pub open spec fn is_witness(path: Seq<char>) -> bool {
    match path_extension(path) {
        Some(text) => is_word(text, "wit"@),
        None => false,
    }
}

/// Whether a path is that of a witness file, which has no functions.
pub fn is_witness_path(path: &str) -> (r: bool)
    ensures
        r == is_witness(path@),
{
    match extension(path) {
        Some(text) => matches_word(text.as_str(), "wit"),
        None => false,
    }
}

/// Whether a file can change what imports mean: a source or a manifest.
pub open spec fn is_relevant(path: Seq<char>) -> bool {
    ||| path_extension(path) == Some("simf"@)
    ||| match path_file_name(path) {
        Some(name) => is_word(name, "simplex.toml"@),
        None => false,
    }
}

/// Whether a file can change what imports mean.
fn is_relevant_path(path: &str) -> (r: bool)
    ensures
        r == is_relevant(path@),
{
    let source: bool = match extension(path) {
        Some(text) => same(text.as_str(), "simf"),
        None => false,
    };
    source || match file_name(path) {
        Some(name) => matches_word(name.as_str(), "simplex.toml"),
        None => false,
    }
}

/// Whether some files that changed may have changed what the open documents mean, so that they are
/// to be analyzed again.
pub fn needs_reanalysis(changed: &Vec<String>) -> (r: bool)
    ensures
        r <==> exists|i: int| 0 <= i < changed@.len() && is_relevant((#[trigger] changed@[i])@),
{
    let mut i: usize = 0;
    while i < changed.len()
        invariant
            i <= changed@.len(),
            forall|k: int| 0 <= k < i ==> !is_relevant((#[trigger] changed@[k])@),
        decreases changed@.len() - i,
    {
        if is_relevant_path(changed[i].as_str()) {
            return true;
        }
        i = i + 1;
    }
    false
}

/// The workspace folders of a client. One that sends none may send a root instead.
pub open spec fn roots_of(folders: Seq<Seq<char>>, root: Option<Seq<char>>) -> Seq<Seq<char>> {
    match root {
        Some(root) if folders.len() == 0 => seq![root],
        _ => folders,
    }
}

/// The workspace folders that the client opened with, falling back to the root that older clients
/// send.
pub fn workspace_roots(folders: Vec<String>, root: Option<String>) -> (r: Vec<String>)
    ensures
        texts(r@) == roots_of(texts(folders@), crate::protocol::opt_text(root)),
{
    if folders.len() > 0 {
        return folders;
    }
    match root {
        Some(root) => {
            let r: Vec<String> = vec![root];
            assert(texts(r@) =~= seq![root@]);
            r
        },
        None => folders,
    }
}

/// The folders without one.
pub open spec fn without_folder(folders: Seq<Seq<char>>, path: Seq<char>) -> Seq<Seq<char>>
    decreases folders.len(),
{
    if folders.len() == 0 {
        Seq::empty()
    } else {
        let before = without_folder(folders.drop_last(), path);
        if folders.last() == path {
            before
        } else {
            before.push(folders.last())
        }
    }
}

/// The folders without some.
pub open spec fn without_folders(folders: Seq<Seq<char>>, removed: Seq<Seq<char>>) -> Seq<Seq<char>>
    decreases removed.len(),
{
    if removed.len() == 0 {
        folders
    } else {
        without_folder(without_folders(folders, removed.drop_last()), removed.last())
    }
}

/// The folders with some more, but none twice.
pub open spec fn with_folders(folders: Seq<Seq<char>>, added: Seq<Seq<char>>) -> Seq<Seq<char>>
    decreases added.len(),
{
    if added.len() == 0 {
        folders
    } else {
        let before = with_folders(folders, added.drop_last());
        if before.contains(added.last()) {
            before
        } else {
            before.push(added.last())
        }
    }
}

/// What a list with a text behind it holds.
proof fn lemma_pushed(list: Seq<Seq<char>>, text: Seq<char>, other: Seq<char>)
    ensures
        list.push(text).contains(other) <==> other == text || list.contains(other),
        list.no_duplicates() && !list.contains(text) ==> list.push(text).no_duplicates(),
{
    let longer = list.push(text);
    if list.contains(other) {
        let i = choose|i: int| 0 <= i < list.len() && list[i] == other;
        assert(longer[i] == other);
    }
    assert(longer[list.len() as int] == text);
}

/// What a list is without its last text, and with it.
proof fn lemma_last(list: Seq<Seq<char>>, other: Seq<char>)
    requires
        list.len() > 0,
    ensures
        list.contains(other) <==> other == list.last() || list.drop_last().contains(other),
        list.no_duplicates() ==> list.drop_last().no_duplicates() && !list.drop_last().contains(
            list.last(),
        ),
{
    assert(list.drop_last().push(list.last()) =~= list);
    lemma_pushed(list.drop_last(), list.last(), other);
}

proof fn lemma_without_folder(folders: Seq<Seq<char>>, path: Seq<char>, other: Seq<char>)
    ensures
        without_folder(folders, path).contains(other) <==> other != path && folders.contains(other),
        folders.no_duplicates() ==> without_folder(folders, path).no_duplicates(),
    decreases folders.len(),
{
    if folders.len() > 0 {
        let before = without_folder(folders.drop_last(), path);
        lemma_last(folders, other);
        lemma_without_folder(folders.drop_last(), path, other);
        lemma_without_folder(folders.drop_last(), path, folders.last());
        lemma_pushed(before, folders.last(), other);
    }
}

proof fn lemma_without_folders(
    folders: Seq<Seq<char>>,
    removed: Seq<Seq<char>>,
    other: Seq<char>,
)
    ensures
        without_folders(folders, removed).contains(other) <==> folders.contains(other)
            && !removed.contains(other),
        folders.no_duplicates() ==> without_folders(folders, removed).no_duplicates(),
    decreases removed.len(),
{
    if removed.len() > 0 {
        lemma_last(removed, other);
        lemma_without_folders(folders, removed.drop_last(), other);
        lemma_without_folder(without_folders(folders, removed.drop_last()), removed.last(), other);
    }
}

proof fn lemma_with_folders(folders: Seq<Seq<char>>, added: Seq<Seq<char>>, other: Seq<char>)
    ensures
        with_folders(folders, added).contains(other) <==> folders.contains(other)
            || added.contains(other),
        folders.no_duplicates() ==> with_folders(folders, added).no_duplicates(),
    decreases added.len(),
{
    if added.len() > 0 {
        lemma_last(added, other);
        lemma_with_folders(folders, added.drop_last(), other);
        lemma_pushed(with_folders(folders, added.drop_last()), added.last(), other);
    }
}

/// After a change the folders are those that were added, and those that were there and not removed.
/// Where none was there twice, none is.
pub proof fn law_folders_follow_the_change(
    folders: Seq<Seq<char>>,
    removed: Seq<Seq<char>>,
    added: Seq<Seq<char>>,
    path: Seq<char>,
)
    ensures
        with_folders(without_folders(folders, removed), added).contains(path) <==> added.contains(
            path,
        ) || (folders.contains(path) && !removed.contains(path)),
        folders.no_duplicates() ==> with_folders(
            without_folders(folders, removed),
            added,
        ).no_duplicates(),
{
    lemma_without_folders(folders, removed, path);
    lemma_with_folders(without_folders(folders, removed), added, path);
}

/// Takes a folder out.
fn remove_folder(folders: &Vec<String>, path: &str) -> (r: Vec<String>)
    ensures
        texts(r@) == without_folder(texts(folders@), path@),
{
    let ghost shown = texts(folders@);
    let mut r: Vec<String> = Vec::new();
    let mut i: usize = 0;
    assert(texts(r@) =~= Seq::<Seq<char>>::empty());
    while i < folders.len()
        invariant
            i <= folders@.len(),
            shown == texts(folders@),
            texts(r@) == without_folder(shown.take(i as int), path@),
        decreases folders@.len() - i,
    {
        assert(shown.take(i + 1).drop_last() == shown.take(i as int));
        assert(shown.take(i + 1).last() == folders@[i as int]@);
        if !same(folders[i].as_str(), path) {
            let ghost before = texts(r@);
            r.push(folders[i].clone());
            assert(texts(r@) =~= before.push(folders@[i as int]@));
        }
        i = i + 1;
    }
    assert(shown.take(i as int) == shown);
    r
}

/// The workspace folders after some were removed and then some were added.
pub fn change_folders(folders: Vec<String>, removed: &Vec<String>, added: &Vec<String>) -> (r: Vec<
    String,
>)
    ensures
        texts(r@) == with_folders(
            without_folders(texts(folders@), texts(removed@)),
            texts(added@),
        ),
{
    let ghost first = texts(folders@);
    let ghost gone = texts(removed@);
    let ghost more = texts(added@);
    let mut r: Vec<String> = folders;
    let mut i: usize = 0;
    assert(gone.take(0) =~= Seq::<Seq<char>>::empty());
    while i < removed.len()
        invariant
            i <= removed@.len(),
            gone == texts(removed@),
            texts(r@) == without_folders(first, gone.take(i as int)),
        decreases removed@.len() - i,
    {
        assert(gone.take(i + 1).drop_last() == gone.take(i as int));
        assert(gone.take(i + 1).last() == removed@[i as int]@);
        r = remove_folder(&r, removed[i].as_str());
        i = i + 1;
    }
    assert(gone.take(i as int) == gone);
    let ghost left = texts(r@);
    let mut k: usize = 0;
    assert(more.take(0) =~= Seq::<Seq<char>>::empty());
    while k < added.len()
        invariant
            k <= added@.len(),
            more == texts(added@),
            texts(r@) == with_folders(left, more.take(k as int)),
        decreases added@.len() - k,
    {
        assert(more.take(k + 1).drop_last() == more.take(k as int));
        assert(more.take(k + 1).last() == added@[k as int]@);
        if !contains_text(r.as_slice(), added[k].as_str()) {
            let ghost before = texts(r@);
            r.push(added[k].clone());
            assert(texts(r@) =~= before.push(added@[k as int]@));
        }
        k = k + 1;
    }
    assert(more.take(k as int) == more);
    r
}

/// The folders of a client are those that it opened with. The root counts only where there is no
/// folder, and is then the only one.
pub proof fn law_root_stands_in_for_folders(folders: Seq<Seq<char>>, root: Seq<char>)
    ensures
        folders.len() > 0 ==> roots_of(folders, Some(root)) == folders,
        roots_of(Seq::empty(), Some(root)) == seq![root],
        roots_of(folders, None) == folders,
{
}

} // verus!
