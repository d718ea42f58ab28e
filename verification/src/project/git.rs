//! Where the repositories of git dependencies are installed.

use vstd::prelude::*;

use std::hash::{DefaultHasher, Hasher};
use vstd::std_specs::hash::DefaultHasherAdditionalSpecFns;
use vstd::utf8::encode_utf8;

use crate::chars::{join3, same_chars, to_chars, to_text};
use crate::numbers::{hex_digits, to_hex};
use crate::project::error::{ErrorView, ProjectError};
use crate::protocol::opt_str;
use crate::split::{find_last, last_index, lemma_last_index};

verus! {

/// The number that a new default hasher makes of a text: of its bytes and one that ends it.
pub open spec fn text_hash(text: Seq<char>) -> u64 {
    DefaultHasher::spec_finish(seq![encode_utf8(text), seq![0xffu8]])
}

/// The number that stands for a text, as `Hash::hash` feeds it to a hasher.
fn hash_text(text: &str) -> (r: u64)
    ensures
        r == text_hash(text@),
{
    let mut hasher: DefaultHasher = DefaultHasher::new();
    hasher.write(text.as_bytes());
    let end: Vec<u8> = vec![0xff];
    assert(end@ =~= seq![0xffu8]);
    hasher.write(end.as_slice());
    assert(hasher@ =~= seq![encode_utf8(text@), seq![0xffu8]]);
    hasher.finish()
}

/// A URL without the ending of a bare repository.
pub open spec fn clean_url(url: Seq<char>) -> Seq<char> {
    let n = url.len() as int;
    if n >= 4 && url.skip(n - 4) == ".git"@ {
        url.take(n - 4)
    } else {
        url
    }
}

/// The last part of a repository's URL.
pub open spec fn repository_name(url: Seq<char>) -> Seq<char> {
    clean_url(url).skip(last_index(clean_url(url), '/') + 1)
}

/// What is installed: a repository at a revision or a tag, or at its head.
pub open spec fn installed_text(url: Seq<char>, reference: Option<Seq<char>>) -> Seq<char> {
    url + "@"@ + (match reference {
        Some(reference) => reference,
        None => "HEAD"@,
    })
}

/// The directory of a repository with a given number.
pub open spec fn numbered_directory(url: Seq<char>, hash: u64) -> Result<Seq<char>, ErrorView> {
    if repository_name(url).len() == 0 {
        Err(ErrorView::InvalidGitUrl(url))
    } else {
        Ok(repository_name(url) + "-"@ + hex_digits(hash as nat, 16))
    }
}

/// The directory of a repository, below that of the dependencies.
pub open spec fn repository_directory(url: Seq<char>, reference: Option<Seq<char>>) -> Result<
    Seq<char>,
    ErrorView,
> {
    numbered_directory(url, text_hash(installed_text(url, reference)))
}

/// The directory of a repository, below that of the dependencies.
pub fn hashed_repository_path(url: &str, reference: Option<&str>) -> (r: Result<
    String,
    ProjectError,
>)
    ensures
        match r {
            Ok(path) => repository_directory(url@, opt_str(reference)) == Ok::<
                Seq<char>,
                ErrorView,
            >(path@),
            Err(error) => repository_directory(url@, opt_str(reference)) == Err::<
                Seq<char>,
                ErrorView,
            >(error@),
        },
{
    let installed: String = match reference {
        Some(reference) => join3(url, "@", reference),
        None => join3(url, "@", "HEAD"),
    };
    let hash: u64 = hash_text(installed.as_str());
    numbered_repository_path(url, hash)
}

/// The directory of a repository with a given number.
pub fn numbered_repository_path(url: &str, hash: u64) -> (r: Result<String, ProjectError>)
    ensures
        match r {
            Ok(path) => numbered_directory(url@, hash) == Ok::<Seq<char>, ErrorView>(path@),
            Err(error) => numbered_directory(url@, hash) == Err::<Seq<char>, ErrorView>(error@),
        },
{
    let chars: Vec<char> = to_chars(url);
    let n: usize = chars.len();
    let clean: &[char] = if n >= 4 && same_chars(
        vstd::slice::slice_subrange(chars.as_slice(), n - 4, n),
        to_chars(".git").as_slice(),
    ) {
        vstd::slice::slice_subrange(chars.as_slice(), 0, n - 4)
    } else {
        chars.as_slice()
    };
    proof {
        if n >= 4 {
            assert(chars@.subrange(n - 4, n as int) == url@.skip(n - 4));
        }
        assert(clean@ =~= clean_url(url@));
        lemma_last_index(clean@, '/');
    }
    let length: usize = clean.len();
    let start: usize = match find_last(clean, '/') {
        Some(slash) => slash + 1,
        None => 0,
    };
    let name: &[char] = vstd::slice::slice_subrange(clean, start, length);
    assert(name@ =~= repository_name(url@));
    if name.len() == 0 {
        return Err(ProjectError::InvalidGitUrl(url.to_owned()));
    }
    Ok(join3(to_text(name).as_str(), "-", to_hex(hash).as_str()))
}

} // verus!
