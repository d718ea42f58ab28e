//! Text as a sequence of characters: widths, prefixes, trimming and comparison.

use vstd::prelude::*;

use vstd::string::StringExecFns;

verus! {

/// The number of bytes that encode `c` in UTF-8.
pub open spec fn utf8_width(c: char) -> nat {
    if (c as u32) < 0x80 {
        1
    } else if (c as u32) < 0x800 {
        2
    } else if (c as u32) < 0x10000 {
        3
    } else {
        4
    }
}

/// The number of code units that encode `c` in UTF-16.
pub open spec fn utf16_width(c: char) -> nat {
    if (c as u32) < 0x10000 {
        1
    } else {
        2
    }
}

/// The number of bytes that encode `text` in UTF-8.
pub open spec fn utf8_len(text: Seq<char>) -> nat
    decreases text.len(),
{
    if text.len() == 0 {
        0
    } else {
        utf8_len(text.drop_last()) + utf8_width(text.last())
    }
}

/// The number of code units that encode `text` in UTF-16.
pub open spec fn utf16_len(text: Seq<char>) -> nat
    decreases text.len(),
{
    if text.len() == 0 {
        0
    } else {
        utf16_len(text.drop_last()) + utf16_width(text.last())
    }
}

pub fn len_utf8(c: char) -> (n: usize)
    ensures
        n == utf8_width(c),
{
    let v: u32 = c as u32;
    if v < 0x80 {
        1
    } else if v < 0x800 {
        2
    } else if v < 0x10000 {
        3
    } else {
        4
    }
}

pub fn len_utf16(c: char) -> (n: usize)
    ensures
        n == utf16_width(c),
{
    let v: u32 = c as u32;
    if v < 0x10000 {
        1
    } else {
        2
    }
}

/// The characters of a string slice.
pub fn to_chars(text: &str) -> (chars: Vec<char>)
    ensures
        chars@ == text@,
{
    let mut chars: Vec<char> = Vec::new();
    for c in iter: text.chars()
        invariant
            iter.seq() == text@,
            chars@ == text@.take(iter.index()),
    {
        chars.push(c);
    }
    chars
}

/// What `char::is_whitespace` answers for a character beyond ASCII.
pub uninterp spec fn unicode_white(c: char) -> bool;

/// Whether `c` is white space: in ASCII a tab, line feed, vertical tab, form feed, carriage return
/// or space.
pub open spec fn is_white(c: char) -> bool {
    if (c as u32) < 0x80 {
        9 <= c as u32 <= 13 || c == ' '
    } else {
        unicode_white(c)
    }
}

/// `char::is_whitespace`: whether `c` has the Unicode property `White_Space`, a function of `c`
/// alone. In ASCII these are six characters; which ones there are beyond is left open.
pub assume_specification[ char::is_whitespace ](c: char) -> (r: bool)
    ensures
        r == (if (c as u32) < 0x80 {
            is_white(c)
        } else {
            unicode_white(c)
        }),
;

/// What `char::is_alphanumeric` answers for a character beyond ASCII.
pub uninterp spec fn unicode_alnum(c: char) -> bool;

/// Whether `c` is a letter or a digit.
pub open spec fn is_alnum(c: char) -> bool {
    if (c as u32) < 0x80 {
        'a' <= c <= 'z' || 'A' <= c <= 'Z' || '0' <= c <= '9'
    } else {
        unicode_alnum(c)
    }
}

/// `char::is_alphanumeric`: whether `c` is alphabetic or numeric in Unicode, a function of `c`
/// alone. In ASCII these are the letters and the digits; which ones there are beyond is left open.
pub assume_specification[ char::is_alphanumeric ](c: char) -> (r: bool)
    ensures
        r == (if (c as u32) < 0x80 {
            is_alnum(c)
        } else {
            unicode_alnum(c)
        }),
;

/// `String::push` appends one character.
pub assume_specification[ String::push ](text: &mut String, c: char)
    ensures
        final(text)@ == old(text)@.push(c),
;

/// The string that holds `chars`.
pub fn to_text(chars: &[char]) -> (text: String)
    ensures
        text@ == chars@,
{
    let mut text: String = String::new();
    let mut i: usize = 0;
    while i < chars.len()
        invariant
            i <= chars@.len(),
            text@ == chars@.take(i as int),
        decreases chars@.len() - i,
    {
        text.push(chars[i]);
        i = i + 1;
    }
    text
}

/// Whether two texts hold the same characters.
pub fn same(a: &str, b: &str) -> (r: bool)
    ensures
        r == (a@ == b@),
{
    same_chars(to_chars(a).as_slice(), to_chars(b).as_slice())
}

/// Whether two character slices hold the same characters.
pub fn same_chars(a: &[char], b: &[char]) -> (r: bool)
    ensures
        r == (a@ == b@),
{
    if a.len() != b.len() {
        return false;
    }
    let mut i: usize = 0;
    while i < a.len()
        invariant
            i <= a@.len() == b@.len(),
            a@.take(i as int) == b@.take(i as int),
        decreases a@.len() - i,
    {
        if a[i] != b[i] {
            return false;
        }
        assert(a@.take(i + 1) == a@.take(i as int).push(a@[i as int]));
        assert(b@.take(i + 1) == b@.take(i as int).push(b@[i as int]));
        i = i + 1;
    }
    assert(a@.take(i as int) == a@);
    assert(b@.take(i as int) == b@);
    true
}

/// `text` without its leading white space.
pub open spec fn trim_start_of(text: Seq<char>) -> Seq<char>
    decreases text.len(),
{
    if text.len() > 0 && is_white(text[0]) {
        trim_start_of(text.drop_first())
    } else {
        text
    }
}

/// `text` without its trailing white space.
pub open spec fn trim_end_of(text: Seq<char>) -> Seq<char>
    decreases text.len(),
{
    if text.len() > 0 && is_white(text.last()) {
        trim_end_of(text.drop_last())
    } else {
        text
    }
}

/// `text` without its surrounding white space.
pub open spec fn trim_of(text: Seq<char>) -> Seq<char> {
    trim_end_of(trim_start_of(text))
}

pub fn trim_start(chars: &[char]) -> (r: &[char])
    ensures
        r@ == trim_start_of(chars@),
{
    let mut i: usize = 0;
    assert(chars@.skip(0) == chars@);
    while i < chars.len() && chars[i].is_whitespace()
        invariant
            i <= chars@.len(),
            trim_start_of(chars@) == trim_start_of(chars@.skip(i as int)),
        decreases chars@.len() - i,
    {
        assert(chars@.skip(i as int).drop_first() == chars@.skip(i + 1));
        i = i + 1;
    }
    vstd::slice::slice_subrange(chars, i, chars.len())
}

pub fn trim_end(chars: &[char]) -> (r: &[char])
    ensures
        r@ == trim_end_of(chars@),
{
    let mut n: usize = chars.len();
    assert(chars@.take(n as int) == chars@);
    while n > 0 && chars[n - 1].is_whitespace()
        invariant
            n <= chars@.len(),
            trim_end_of(chars@) == trim_end_of(chars@.take(n as int)),
        decreases n,
    {
        assert(chars@.take(n as int).drop_last() == chars@.take(n - 1));
        n = n - 1;
    }
    vstd::slice::slice_subrange(chars, 0, n)
}

pub fn trim(chars: &[char]) -> (r: &[char])
    ensures
        r@ == trim_of(chars@),
{
    trim_end(trim_start(chars))
}

/// Joining two texts adds their UTF-8 lengths.
pub proof fn lemma_utf8_len_concat(a: Seq<char>, b: Seq<char>)
    ensures
        utf8_len(a + b) == utf8_len(a) + utf8_len(b),
    decreases b.len(),
{
    if b.len() == 0 {
        assert(a + b == a);
    } else {
        assert((a + b).drop_last() == a + b.drop_last());
        lemma_utf8_len_concat(a, b.drop_last());
    }
}

/// Joining two texts adds their UTF-16 lengths.
pub proof fn lemma_utf16_len_concat(a: Seq<char>, b: Seq<char>)
    ensures
        utf16_len(a + b) == utf16_len(a) + utf16_len(b),
    decreases b.len(),
{
    if b.len() == 0 {
        assert(a + b == a);
    } else {
        assert((a + b).drop_last() == a + b.drop_last());
        lemma_utf16_len_concat(a, b.drop_last());
    }
}

/// A longer prefix of a text has a greater UTF-8 length, by at least one for each character.
pub proof fn lemma_utf8_len_take(text: Seq<char>, i: int, j: int)
    requires
        0 <= i <= j <= text.len(),
    ensures
        utf8_len(text.take(i)) + (j - i) <= utf8_len(text.take(j)),
        utf8_len(text.take(j)) <= utf8_len(text.take(i)) + 4 * (j - i),
        utf8_len(text.take(j)) == utf8_len(text.take(i)) + utf8_len(text.subrange(i, j)),
    decreases j - i,
{
    assert(text.take(j) == text.take(i) + text.subrange(i, j));
    lemma_utf8_len_concat(text.take(i), text.subrange(i, j));
    if i < j {
        lemma_utf8_len_take(text, i, j - 1);
        assert(text.take(j).drop_last() == text.take(j - 1));
    }
}

/// A longer prefix of a text has a greater UTF-16 length, by one or two for each character.
pub proof fn lemma_utf16_len_take(text: Seq<char>, i: int, j: int)
    requires
        0 <= i <= j <= text.len(),
    ensures
        utf16_len(text.take(i)) + (j - i) <= utf16_len(text.take(j)),
        utf16_len(text.take(j)) <= utf16_len(text.take(i)) + 2 * (j - i),
        utf16_len(text.take(j)) == utf16_len(text.take(i)) + utf16_len(text.subrange(i, j)),
    decreases j - i,
{
    assert(text.take(j) == text.take(i) + text.subrange(i, j));
    lemma_utf16_len_concat(text.take(i), text.subrange(i, j));
    if i < j {
        lemma_utf16_len_take(text, i, j - 1);
        assert(text.take(j).drop_last() == text.take(j - 1));
    }
}

/// The UTF-16 form of a text has no more units than its UTF-8 form has bytes.
pub proof fn lemma_utf16_within_utf8(text: Seq<char>)
    ensures
        utf16_len(text) <= utf8_len(text) <= 4 * text.len(),
        text.len() <= utf16_len(text),
    decreases text.len(),
{
    if text.len() > 0 {
        lemma_utf16_within_utf8(text.drop_last());
    }
}

/// The bytes that UTF-8 gives a text are as many as its UTF-8 length.
pub proof fn lemma_encoded_len(text: Seq<char>)
    ensures
        vstd::utf8::encode_utf8(text).len() == utf8_len(text),
    decreases text.len(),
{
    if text.len() > 0 {
        lemma_encoded_len(text.drop_first());
        let first = seq![text[0]];
        assert(text == first + text.drop_first());
        lemma_utf8_len_concat(first, text.drop_first());
        assert(first.drop_last() == Seq::<char>::empty());
        assert(utf8_len(first) == utf8_width(text[0])) by {
            reveal_with_fuel(utf8_len, 2);
        }
        vstd::utf8::char_is_scalar(text[0]);
        assert(vstd::utf8::encode_scalar(text[0] as u32).len() == utf8_width(text[0]));
    }
}

/// The number of bytes of a string slice.
pub fn byte_len(text: &str) -> (n: usize)
    ensures
        n == utf8_len(text@),
{
    proof {
        lemma_encoded_len(text@);
    }
    text.as_bytes().len()
}

/// The index of the first `c` in `text`, or the length of `text` where there is none.
pub open spec fn first_index(text: Seq<char>, c: char) -> int
    decreases text.len(),
{
    if text.len() == 0 || text[0] == c {
        0
    } else {
        1 + first_index(text.drop_first(), c)
    }
}

/// The first `c` stands at its index and nowhere before it.
pub proof fn lemma_first_index(text: Seq<char>, c: char)
    ensures
        0 <= first_index(text, c) <= text.len(),
        first_index(text, c) < text.len() ==> text[first_index(text, c)] == c,
        forall|k: int| 0 <= k < first_index(text, c) ==> text[k] != c,
    decreases text.len(),
{
    if text.len() > 0 && text[0] != c {
        let rest = text.drop_first();
        lemma_first_index(rest, c);
        assert forall|k: int| 0 <= k < first_index(text, c) implies text[k] != c by {
            if k > 0 {
                assert(rest[k - 1] != c);
            }
        }
    }
}

/// An index that holds `c`, with no `c` before it, is that of the first `c`.
pub proof fn lemma_first_index_is(text: Seq<char>, c: char, at: int)
    requires
        0 <= at <= text.len(),
        at < text.len() ==> text[at] == c,
        forall|k: int| 0 <= k < at ==> text[k] != c,
    ensures
        first_index(text, c) == at,
{
    lemma_first_index(text, c);
}

/// The index of the first `c`, or the number of characters where there is none.
pub fn find_char(chars: &[char], c: char) -> (at: usize)
    ensures
        at == first_index(chars@, c),
{
    let mut i: usize = 0;
    while i < chars.len() && chars[i] != c
        invariant
            i <= chars@.len(),
            forall|k: int| 0 <= k < i ==> chars@[k] != c,
        decreases chars@.len() - i,
    {
        i = i + 1;
    }
    proof {
        lemma_first_index_is(chars@, c, i as int);
    }
    i
}

/// The first line of `text` without the line feed that ends it and a carriage return before that.
pub open spec fn head_line(text: Seq<char>) -> Seq<char> {
    let end = first_index(text, '\n');
    if 0 < end < text.len() && text[end - 1] == '\r' {
        text.take(end - 1)
    } else {
        text.take(end)
    }
}

/// Line `n` of `text`, counted from zero. Lines end in a line feed; a text that ends in one has no
/// empty last line.
pub open spec fn nth_line(text: Seq<char>, n: nat) -> Option<Seq<char>>
    decreases n,
{
    if text.len() == 0 {
        None
    } else if n == 0 {
        Some(head_line(text))
    } else if first_index(text, '\n') < text.len() {
        nth_line(text.skip(first_index(text, '\n') + 1), (n - 1) as nat)
    } else {
        None
    }
}

/// The first line of `chars`, which are not empty, and what follows it.
pub fn split_line(chars: &[char]) -> (r: (&[char], Option<&[char]>))
    ensures
        r.0@ == head_line(chars@),
        match r.1 {
            Some(rest) => first_index(chars@, '\n') < chars@.len() && rest@ == chars@.skip(
                first_index(chars@, '\n') + 1,
            ),
            None => first_index(chars@, '\n') == chars@.len(),
        },
{
    let end: usize = find_char(chars, '\n');
    proof {
        lemma_first_index(chars@, '\n');
    }
    if end == chars.len() {
        assert(chars@.take(end as int) == chars@);
        return (chars, None);
    }
    let rest: &[char] = vstd::slice::slice_subrange(chars, end + 1, chars.len());
    assert(rest@ == chars@.skip(end + 1));
    let stop: usize = if end > 0 && chars[end - 1] == '\r' {
        end - 1
    } else {
        end
    };
    assert(chars@.subrange(0, stop as int) == chars@.take(stop as int));
    (vstd::slice::slice_subrange(chars, 0, stop), Some(rest))
}

/// Two texts in a row.
pub fn join2(a: &str, b: &str) -> (r: String)
    ensures
        r@ == a@ + b@,
{
    let mut text: String = a.to_owned();
    text.append(b);
    text
}

/// Three texts in a row.
pub fn join3(a: &str, b: &str, c: &str) -> (r: String)
    ensures
        r@ == a@ + b@ + c@,
{
    let mut text: String = a.to_owned();
    text.append(b);
    text.append(c);
    text
}

/// `n`, or the greatest number of 32 bits where it is greater.
pub open spec fn clamp(n: nat) -> u32 {
    if n <= u32::MAX {
        n as u32
    } else {
        u32::MAX
    }
}

pub fn clamp_u32(n: usize) -> (r: u32)
    ensures
        r == clamp(n as nat),
{
    if n <= u32::MAX as usize {
        n as u32
    } else {
        u32::MAX
    }
}

} // verus!
