//! File paths as texts whose components are separated by slashes.
//!
//! A path is absolute where it begins with a slash; any other character, a backslash among them, is
//! part of a name. This is how paths are read on Unix. A program on a system that writes paths
//! otherwise hands them over in this form, with the letter of a drive as the first component.

use vstd::prelude::*;
use vstd::string::StringExecFns;

use crate::chars::{same_chars, to_chars, to_text};
use crate::split::{
    find_last, last_index, lemma_last_index, pieces, slices, split_at_char,
};

verus! {

/// Whether a path begins at the root.
pub open spec fn is_absolute_path(path: Seq<char>) -> bool {
    path.len() > 0 && path[0] == '/'
}

/// The pieces of a path that name something. Empty ones and single dots do not.
pub open spec fn real_pieces(list: Seq<Seq<char>>) -> Seq<Seq<char>>
    decreases list.len(),
{
    if list.len() == 0 {
        Seq::empty()
    } else {
        let before = real_pieces(list.drop_last());
        if list.last().len() == 0 || list.last() == seq!['.'] {
            before
        } else {
            before.push(list.last())
        }
    }
}

/// What a path begins with: a slash at the root, and a dot where it stands first in a path that is
/// not absolute.
pub open spec fn path_root(path: Seq<char>) -> Seq<Seq<char>> {
    if is_absolute_path(path) {
        seq![seq!['/']]
    } else if pieces(path, '/')[0] == seq!['.'] {
        seq![seq!['.']]
    } else {
        Seq::empty()
    }
}

/// The components of a path.
pub open spec fn components(path: Seq<char>) -> Seq<Seq<char>> {
    path_root(path) + real_pieces(pieces(path, '/'))
}

/// Whether the components of a path begin with those of another.
pub open spec fn path_starts_with(path: Seq<char>, base: Seq<char>) -> bool {
    components(base).is_prefix_of(components(path))
}

/// A path below another. One that is absolute stands for itself.
pub open spec fn path_join(base: Seq<char>, path: Seq<char>) -> Seq<char> {
    if is_absolute_path(path) {
        path
    } else if base.len() == 0 || base.last() == '/' {
        base + path
    } else {
        base.push('/') + path
    }
}

/// A path without the slashes and single dots at its end.
pub open spec fn strip_tail(path: Seq<char>) -> Seq<char>
    decreases path.len(),
{
    if path.len() > 1 && (path.last() == '/' || (path.last() == '.' && path[path.len() - 2]
        == '/')) {
        strip_tail(path.drop_last())
    } else {
        path
    }
}

/// The directory that a path lies in. The root and the empty path lie in none.
pub open spec fn path_parent(path: Seq<char>) -> Option<Seq<char>> {
    let stripped = strip_tail(path);
    if stripped.len() == 0 || stripped == seq!['/'] {
        None
    } else {
        Some(strip_tail(stripped.take(last_index(stripped, '/') + 1)))
    }
}

/// The last component of a path, unless it is the root or leads upwards.
pub open spec fn path_file_name(path: Seq<char>) -> Option<Seq<char>> {
    let list = components(path);
    if list.len() == 0 || list.last() == seq!['/'] || list.last() == seq!['.'] || list.last()
        == seq!['.', '.'] {
        None
    } else {
        Some(list.last())
    }
}

/// Where the extension of a file name begins: its last dot, unless that stands first.
pub open spec fn has_extension(name: Seq<char>) -> bool {
    last_index(name, '.') > 0
}

/// What stands behind the last dot of a path's file name.
pub open spec fn path_extension(path: Seq<char>) -> Option<Seq<char>> {
    match path_file_name(path) {
        Some(name) => if has_extension(name) {
            Some(name.skip(last_index(name, '.') + 1))
        } else {
            None
        },
        None => None,
    }
}

/// What stands before the last dot of a path's file name, or all of it.
pub open spec fn path_file_stem(path: Seq<char>) -> Option<Seq<char>> {
    match path_file_name(path) {
        Some(name) => if has_extension(name) {
            Some(name.take(last_index(name, '.')))
        } else {
            Some(name)
        },
        None => None,
    }
}

pub fn is_absolute(path: &str) -> (r: bool)
    ensures
        r == is_absolute_path(path@),
{
    let chars: Vec<char> = to_chars(path);
    chars.len() > 0 && chars[0] == '/'
}

/// The pieces of a text are at least one.
proof fn lemma_pieces_exist(text: Seq<char>, c: char)
    ensures
        pieces(text, c).len() > 0,
    decreases text.len(),
{
}

/// Finds the components of a path.
fn find_components(path: &str) -> (r: Vec<Vec<char>>)
    ensures
        r@.len() == components(path@).len(),
        forall|i: int| 0 <= i < r@.len() ==> (#[trigger] r@[i])@ == components(path@)[i],
{
    let chars: Vec<char> = to_chars(path);
    let list: Vec<&[char]> = split_at_char(chars.as_slice(), '/');
    let ghost shown = slices(list@);
    proof {
        lemma_pieces_exist(path@, '/');
    }
    let mut r: Vec<Vec<char>> = Vec::new();
    if chars.len() > 0 && chars[0] == '/' {
        let mut root: Vec<char> = Vec::new();
        root.push('/');
        assert(root@ =~= seq!['/']);
        r.push(root);
    } else {
        assert(list@[0]@ == shown[0]);
        if list[0].len() == 1 && list[0][0] == '.' {
            let mut dot: Vec<char> = Vec::new();
            dot.push('.');
            assert(dot@ =~= seq!['.']);
            assert(shown[0] =~= seq!['.']);
            r.push(dot);
        }
    }
    let ghost root = path_root(path@);
    assert(r@.len() == root.len());
    let mut i: usize = 0;
    while i < list.len()
        invariant
            i <= list@.len(),
            shown == slices(list@),
            r@.len() == root.len() + real_pieces(shown.take(i as int)).len(),
            forall|k: int|
                0 <= k < r@.len() ==> (#[trigger] r@[k])@ == (root + real_pieces(
                    shown.take(i as int),
                ))[k],
        decreases list@.len() - i,
    {
        let piece: &[char] = list[i];
        proof {
            assert(shown.take(i + 1).drop_last() == shown.take(i as int));
            assert(shown.take(i + 1).last() == piece@);
        }
        if piece.len() == 0 {
        } else if piece.len() == 1 && piece[0] == '.' {
            assert(piece@ =~= seq!['.']);
        } else {
            assert(piece@ != seq!['.']);
            let copied: Vec<char> = copy_chars(piece);
            r.push(copied);
        }
        i = i + 1;
    }
    assert(shown.take(i as int) == shown);
    r
}

/// A copy of characters.
fn copy_chars(chars: &[char]) -> (r: Vec<char>)
    ensures
        r@ == chars@,
{
    let mut r: Vec<char> = Vec::new();
    let mut i: usize = 0;
    while i < chars.len()
        invariant
            i <= chars@.len(),
            r@ == chars@.take(i as int),
        decreases chars@.len() - i,
    {
        r.push(chars[i]);
        assert(r@ =~= chars@.take(i + 1));
        i = i + 1;
    }
    assert(chars@.take(i as int) == chars@);
    r
}

pub fn starts_with(path: &str, base: &str) -> (r: bool)
    ensures
        r == path_starts_with(path@, base@),
{
    let long: Vec<Vec<char>> = find_components(path);
    let short: Vec<Vec<char>> = find_components(base);
    let ghost all = components(path@);
    let ghost wanted = components(base@);
    if short.len() > long.len() {
        return false;
    }
    let mut i: usize = 0;
    while i < short.len()
        invariant
            i <= short@.len() <= long@.len(),
            wanted == components(base@),
            all == components(path@),
            short@.len() == wanted.len(),
            long@.len() == all.len(),
            forall|k: int| 0 <= k < short@.len() ==> (#[trigger] short@[k])@ == wanted[k],
            forall|k: int| 0 <= k < long@.len() ==> (#[trigger] long@[k])@ == all[k],
            forall|k: int| 0 <= k < i ==> wanted[k] == all[k],
        decreases short@.len() - i,
    {
        if !same_chars(short[i].as_slice(), long[i].as_slice()) {
            assert(short@[i as int]@ == wanted[i as int]);
            assert(long@[i as int]@ == all[i as int]);
            assert(all.subrange(0, wanted.len() as int)[i as int] == all[i as int]);
            return false;
        }
        i = i + 1;
    }
    assert(wanted =~= all.subrange(0, wanted.len() as int));
    true
}

pub fn join(base: &str, path: &str) -> (r: String)
    ensures
        r@ == path_join(base@, path@),
{
    if is_absolute(path) {
        return path.to_owned();
    }
    let chars: Vec<char> = to_chars(base);
    let mut r: String = base.to_owned();
    if chars.len() > 0 && chars[chars.len() - 1] != '/' {
        r.push('/');
    }
    r.append(path);
    r
}

/// How many characters of a path are left without the slashes and single dots at its end.
fn stripped_len(chars: &[char]) -> (n: usize)
    ensures
        n <= chars@.len(),
        chars@.take(n as int) == strip_tail(chars@),
{
    let mut n: usize = chars.len();
    assert(chars@.take(n as int) == chars@);
    while n > 1 && (chars[n - 1] == '/' || (chars[n - 1] == '.' && chars[n - 2] == '/'))
        invariant
            n <= chars@.len(),
            strip_tail(chars@) == strip_tail(chars@.take(n as int)),
        decreases n,
    {
        assert(chars@.take(n as int).drop_last() == chars@.take(n - 1));
        n = n - 1;
    }
    n
}

/// The directory that a path lies in.
pub fn parent(path: &str) -> (r: Option<String>)
    ensures
        match r {
            Some(text) => path_parent(path@) == Some(text@),
            None => path_parent(path@) is None,
        },
{
    let chars: Vec<char> = to_chars(path);
    let n: usize = stripped_len(chars.as_slice());
    let stripped: &[char] = vstd::slice::slice_subrange(chars.as_slice(), 0, n);
    assert(stripped@ == strip_tail(path@));
    if n == 0 {
        return None;
    }
    if n == 1 && stripped[0] == '/' {
        assert(stripped@ =~= seq!['/']);
        return None;
    }
    assert(stripped@ != seq!['/']) by {
        if stripped@ == seq!['/'] {
            assert(stripped@[0] == '/');
        }
    }
    let end: usize = match find_last(stripped, '/') {
        Some(slash) => slash + 1,
        None => 0,
    };
    proof {
        lemma_last_index(stripped@, '/');
    }
    let before: &[char] = vstd::slice::slice_subrange(stripped, 0, end);
    assert(before@ == stripped@.take(last_index(stripped@, '/') + 1));
    let m: usize = stripped_len(before);
    Some(to_text(vstd::slice::slice_subrange(before, 0, m)))
}

/// A path is longer than the directory it lies in, so that the way upwards ends.
pub proof fn lemma_parent_is_shorter(path: Seq<char>)
    ensures
        path_parent(path) matches Some(parent) ==> parent.len() < path.len(),
{
    let stripped = strip_tail(path);
    lemma_strip_tail(path);
    lemma_last_index(stripped, '/');
    let before = stripped.take(last_index(stripped, '/') + 1);
    lemma_strip_tail(before);
    if stripped.len() > 0 && stripped != seq!['/'] && before.len() == stripped.len() {
        assert(before == stripped);
        assert(stripped.last() == '/');
        if stripped.len() == 1 {
            assert(stripped =~= seq!['/']);
        }
    }
}

/// What is left of a stripped path is no longer than it, and does not end in a slash but at the
/// root.
proof fn lemma_strip_tail(path: Seq<char>)
    ensures
        strip_tail(path).len() <= path.len(),
        strip_tail(path).len() > 1 ==> strip_tail(path).last() != '/',
        path.len() > 0 ==> strip_tail(path).len() > 0,
    decreases path.len(),
{
    if path.len() > 1 && (path.last() == '/' || (path.last() == '.' && path[path.len() - 2]
        == '/')) {
        lemma_strip_tail(path.drop_last());
    }
}

/// The last component of a path, unless it is the root or leads upwards.
fn find_file_name(path: &str) -> (r: Option<Vec<char>>)
    ensures
        match r {
            Some(name) => path_file_name(path@) == Some(name@),
            None => path_file_name(path@) is None,
        },
{
    let list: Vec<Vec<char>> = find_components(path);
    if list.len() == 0 {
        return None;
    }
    let last: &Vec<char> = &list[list.len() - 1];
    let ghost wanted = components(path@).last();
    assert(last@ == wanted);
    if last.len() == 1 && (last[0] == '/' || last[0] == '.') {
        assert(wanted =~= seq!['/'] || wanted =~= seq!['.']);
        return None;
    }
    if last.len() == 2 && last[0] == '.' && last[1] == '.' {
        assert(wanted =~= seq!['.', '.']);
        return None;
    }
    assert(wanted != seq!['/'] && wanted != seq!['.'] && wanted != seq!['.', '.']) by {
        if wanted == seq!['/'] {
            assert(wanted[0] == '/');
        }
        if wanted == seq!['.'] {
            assert(wanted[0] == '.');
        }
        if wanted == seq!['.', '.'] {
            assert(wanted[0] == '.');
            assert(wanted[1] == '.');
        }
    }
    Some(copy_chars(last.as_slice()))
}

/// The last component of a path, unless it is the root or leads upwards.
pub fn file_name(path: &str) -> (r: Option<String>)
    ensures
        match r {
            Some(name) => path_file_name(path@) == Some(name@),
            None => path_file_name(path@) is None,
        },
{
    match find_file_name(path) {
        Some(name) => Some(to_text(name.as_slice())),
        None => None,
    }
}

/// What stands behind the last dot of a path's file name.
pub fn extension(path: &str) -> (r: Option<String>)
    ensures
        match r {
            Some(text) => path_extension(path@) == Some(text@),
            None => path_extension(path@) is None,
        },
{
    let name: Vec<char> = match find_file_name(path) {
        Some(name) => name,
        None => return None,
    };
    let length: usize = name.len();
    match find_last(name.as_slice(), '.') {
        Some(dot) => {
            if dot == 0 {
                return None;
            }
            let behind: &[char] = vstd::slice::slice_subrange(name.as_slice(), dot + 1, length);
            assert(behind@ == name@.skip(dot + 1));
            Some(to_text(behind))
        },
        None => None,
    }
}

/// What stands before the last dot of a path's file name, or all of it.
pub fn file_stem(path: &str) -> (r: Option<String>)
    ensures
        match r {
            Some(text) => path_file_stem(path@) == Some(text@),
            None => path_file_stem(path@) is None,
        },
{
    let name: Vec<char> = match find_file_name(path) {
        Some(name) => name,
        None => return None,
    };
    match find_last(name.as_slice(), '.') {
        Some(dot) => {
            if dot == 0 {
                return Some(to_text(name.as_slice()));
            }
            let before: &[char] = vstd::slice::slice_subrange(name.as_slice(), 0, dot);
            assert(before@ == name@.take(dot as int));
            Some(to_text(before))
        },
        None => Some(to_text(name.as_slice())),
    }
}

} // verus!
