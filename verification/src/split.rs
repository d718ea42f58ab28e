//! Cutting texts at separators and at byte offsets.

use vstd::prelude::*;

use crate::chars::{first_index, find_char, is_white, len_utf8, trim_start, trim_start_of};
use crate::rope::{byte_at_char, char_at_byte, on_boundary};
use crate::text::{lemma_byte_at_char, lemma_char_at_byte};

verus! {

/// The index of the last `c` in `text`, or minus one where there is none.
pub open spec fn last_index(text: Seq<char>, c: char) -> int
    decreases text.len(),
{
    if text.len() == 0 {
        -1
    } else if text.last() == c {
        text.len() - 1
    } else {
        last_index(text.drop_last(), c)
    }
}

/// The last `c` stands at its index and nowhere behind it.
pub proof fn lemma_last_index(text: Seq<char>, c: char)
    ensures
        -1 <= last_index(text, c) < text.len(),
        last_index(text, c) >= 0 ==> text[last_index(text, c)] == c,
        forall|k: int| last_index(text, c) < k < text.len() ==> text[k] != c,
    decreases text.len(),
{
    if text.len() > 0 && text.last() != c {
        let rest = text.drop_last();
        lemma_last_index(rest, c);
        assert forall|k: int| last_index(text, c) < k < text.len() implies text[k] != c by {
            if k < rest.len() {
                assert(rest[k] != c);
            }
        }
    }
}

/// The index of the last `c`.
pub fn find_last(chars: &[char], c: char) -> (r: Option<usize>)
    ensures
        match r {
            Some(i) => i == last_index(chars@, c) && i < chars@.len(),
            None => last_index(chars@, c) == -1,
        },
{
    let mut n: usize = chars.len();
    assert(chars@.take(n as int) == chars@);
    while n > 0
        invariant
            n <= chars@.len(),
            last_index(chars@, c) == last_index(chars@.take(n as int), c),
        decreases n,
    {
        assert(chars@.take(n as int).last() == chars@[n - 1]);
        assert(chars@.take(n as int).drop_last() == chars@.take(n - 1));
        if chars[n - 1] == c {
            return Some(n - 1);
        }
        n = n - 1;
    }
    None
}

/// Whether two colons stand at an index.
pub open spec fn colons_at(text: Seq<char>, i: int) -> bool {
    0 <= i && i + 1 < text.len() && text[i] == ':' && text[i + 1] == ':'
}

/// The index of the first two colons in a row, or the length of `text` where there are none.
pub open spec fn first_colons(text: Seq<char>) -> int
    decreases text.len(),
{
    if text.len() == 0 || colons_at(text, 0) {
        0
    } else {
        1 + first_colons(text.drop_first())
    }
}

/// The index of the last two colons in a row, or minus one where there are none.
pub open spec fn last_colons(text: Seq<char>) -> int
    decreases text.len(),
{
    if text.len() < 2 {
        -1
    } else if colons_at(text, text.len() - 2) {
        text.len() - 2
    } else {
        last_colons(text.drop_last())
    }
}

/// The index of the first two colons in a row, or the number of characters where there are none.
fn find_colons(chars: &[char]) -> (at: usize)
    ensures
        at == first_colons(chars@),
        at < chars@.len() ==> at + 2 <= chars@.len(),
        at <= chars@.len(),
{
    let mut i: usize = 0;
    assert(chars@.skip(0) == chars@);
    while i < chars.len()
        invariant
            i <= chars@.len(),
            first_colons(chars@) == i + first_colons(chars@.skip(i as int)),
        decreases chars@.len() - i,
    {
        let ghost rest = chars@.skip(i as int);
        assert(rest[0] == chars@[i as int]);
        if 1 < chars.len() - i {
            assert(rest[1] == chars@[i + 1]);
            if chars[i] == ':' && chars[i + 1] == ':' {
                return i;
            }
        }
        assert(rest.drop_first() == chars@.skip(i + 1));
        i = i + 1;
    }
    i
}

/// The index of the last two colons in a row.
pub fn find_last_colons(chars: &[char]) -> (r: Option<usize>)
    ensures
        match r {
            Some(i) => i == last_colons(chars@) && i + 2 <= chars@.len(),
            None => last_colons(chars@) == -1,
        },
{
    let mut n: usize = chars.len();
    assert(chars@.take(n as int) == chars@);
    while n > 1
        invariant
            n <= chars@.len(),
            last_colons(chars@) == last_colons(chars@.take(n as int)),
        decreases n,
    {
        let ghost part = chars@.take(n as int);
        assert(part[n - 1] == chars@[n - 1]);
        assert(part[n - 2] == chars@[n - 2]);
        assert(part.drop_last() == chars@.take(n - 1));
        if chars[n - 2] == ':' && chars[n - 1] == ':' {
            return Some(n - 2);
        }
        n = n - 1;
    }
    None
}

/// The pieces of `text` between the separators `c`. There is one more than there are separators.
pub open spec fn pieces(text: Seq<char>, c: char) -> Seq<Seq<char>>
    decreases text.len(),
{
    let at = first_index(text, c);
    if 0 <= at < text.len() {
        seq![text.take(at)] + pieces(text.skip(at + 1), c)
    } else {
        seq![text]
    }
}

/// The pieces of `text` between two colons in a row, taken from left to right.
pub open spec fn colon_pieces(text: Seq<char>) -> Seq<Seq<char>>
    decreases text.len(),
{
    let at = first_colons(text);
    if 0 <= at && at + 2 <= text.len() {
        seq![text.take(at)] + colon_pieces(text.skip(at + 2))
    } else {
        seq![text]
    }
}

/// What a list of slices holds.
pub open spec fn slices(list: Seq<&[char]>) -> Seq<Seq<char>> {
    Seq::new(list.len(), |i: int| list[i]@)
}

/// Cuts characters at the separators `c`.
pub fn split_at_char(chars: &[char], c: char) -> (r: Vec<&[char]>)
    ensures
        slices(r@) == pieces(chars@, c),
{
    let mut r: Vec<&[char]> = Vec::new();
    let mut rest: &[char] = chars;
    let mut at: usize = find_char(rest, c);
    assert(slices(r@) =~= Seq::<Seq<char>>::empty());
    assert(slices(r@) + pieces(rest@, c) =~= pieces(chars@, c));
    while at < rest.len()
        invariant
            at == first_index(rest@, c),
            slices(r@) + pieces(rest@, c) == pieces(chars@, c),
        decreases rest@.len(),
    {
        let ghost before = slices(r@);
        let ghost whole = rest@;
        let piece: &[char] = vstd::slice::slice_subrange(rest, 0, at);
        let behind: &[char] = vstd::slice::slice_subrange(rest, at + 1, rest.len());
        assert(piece@ == whole.take(at as int));
        assert(behind@ == whole.skip(at + 1));
        r.push(piece);
        assert(slices(r@) =~= before.push(piece@));
        rest = behind;
        at = find_char(rest, c);
        assert(slices(r@) + pieces(rest@, c) =~= before + pieces(whole, c));
    }
    proof {
        crate::chars::lemma_first_index(rest@, c);
    }
    let ghost before = slices(r@);
    r.push(rest);
    assert(slices(r@) =~= before + seq![rest@]);
    r
}

/// Cuts characters at two colons in a row.
pub fn split_at_colons(chars: &[char]) -> (r: Vec<&[char]>)
    ensures
        slices(r@) == colon_pieces(chars@),
        r@.len() > 0,
{
    let mut r: Vec<&[char]> = Vec::new();
    let mut rest: &[char] = chars;
    assert(slices(r@) =~= Seq::<Seq<char>>::empty());
    assert(slices(r@) + colon_pieces(rest@) =~= colon_pieces(chars@));
    let mut at: usize = find_colons(rest);
    while at < rest.len()
        invariant
            at == first_colons(rest@),
            at < rest@.len() ==> at + 2 <= rest@.len(),
            slices(r@) + colon_pieces(rest@) == colon_pieces(chars@),
        decreases rest@.len(),
    {
        let ghost before = slices(r@);
        let ghost whole = rest@;
        let piece: &[char] = vstd::slice::slice_subrange(rest, 0, at);
        let behind: &[char] = vstd::slice::slice_subrange(rest, at + 2, rest.len());
        assert(piece@ == whole.take(at as int));
        assert(behind@ == whole.skip(at + 2));
        r.push(piece);
        assert(slices(r@) =~= before.push(piece@));
        rest = behind;
        at = find_colons(rest);
        assert(slices(r@) + colon_pieces(rest@) =~= before + colon_pieces(whole));
    }
    let ghost before = slices(r@);
    r.push(rest);
    assert(slices(r@) =~= before + seq![rest@]);
    r
}

/// The first characters of `text` up to white space.
pub open spec fn word_at_start(text: Seq<char>) -> Seq<char>
    decreases text.len(),
{
    if text.len() == 0 || is_white(text[0]) {
        Seq::empty()
    } else {
        seq![text[0]] + word_at_start(text.drop_first())
    }
}

/// The first word of `text`, or nothing where it has none.
pub open spec fn first_word_of(text: Seq<char>) -> Seq<char> {
    word_at_start(trim_start_of(text))
}

pub fn first_word(chars: &[char]) -> (r: &[char])
    ensures
        r@ == first_word_of(chars@),
{
    let rest: &[char] = trim_start(chars);
    let mut i: usize = 0;
    assert(rest@.skip(0) == rest@);
    assert(rest@.take(0) + word_at_start(rest@) =~= word_at_start(rest@));
    while i < rest.len() && !rest[i].is_whitespace()
        invariant
            i <= rest@.len(),
            rest@.take(i as int) + word_at_start(rest@.skip(i as int)) == word_at_start(rest@),
        decreases rest@.len() - i,
    {
        let ghost part = rest@.skip(i as int);
        assert(part[0] == rest@[i as int]);
        assert(part.drop_first() == rest@.skip(i + 1));
        assert(rest@.take(i + 1) + word_at_start(rest@.skip(i + 1)) =~= rest@.take(i as int)
            + word_at_start(part));
        i = i + 1;
    }
    assert(word_at_start(rest@.skip(i as int)) == Seq::<char>::empty());
    assert(rest@.take(i as int) + Seq::<char>::empty() =~= rest@.take(i as int));
    vstd::slice::slice_subrange(rest, 0, i)
}

/// The index of the character that starts at a byte offset.
pub fn find_boundary(chars: &[char], offset: usize) -> (r: Option<usize>)
    ensures
        match r {
            Some(i) => on_boundary(chars@, offset as nat) && i == char_at_byte(
                chars@,
                offset as nat,
            ) && i <= chars@.len(),
            None => !on_boundary(chars@, offset as nat),
        },
{
    let mut i: usize = 0;
    let mut at: usize = 0;
    while at < offset && i < chars.len()
        invariant
            i <= chars@.len(),
            at == byte_at_char(chars@, i as int),
            at <= offset,
        decreases chars@.len() - i,
    {
        let width: usize = len_utf8(chars[i]);
        proof {
            assert(chars@.take(i + 1).drop_last() == chars@.take(i as int));
        }
        if width > offset - at {
            proof {
                let k = char_at_byte(chars@, offset as nat);
                lemma_char_at_byte(chars@, offset as nat);
                if k < i {
                    crate::chars::lemma_utf8_len_take(chars@, k + 1, i as int);
                } else if k > i {
                    crate::chars::lemma_utf8_len_take(chars@, i + 1, k);
                }
            }
            return None;
        }
        at = at + width;
        i = i + 1;
    }
    proof {
        lemma_byte_at_char(chars@, i as int);
        lemma_char_at_byte(chars@, offset as nat);
        assert(chars@.take(chars@.len() as int) == chars@);
    }
    if at == offset {
        assert(byte_at_char(chars@, i as int) == offset as nat);
        Some(i)
    } else {
        None
    }
}

} // verus!
