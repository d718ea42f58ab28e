//! What holds of every unfinished `use` declaration.

use vstd::prelude::*;

use crate::chars::{
    first_index, is_white, lemma_first_index, lemma_first_index_is, trim_end_of, trim_of,
    trim_start_of, utf8_len,
};
use crate::completion::imports::context::{
    context_at, declaration_context, imported_names, last_use_token, ContextView, QueryView,
};
use crate::completion::types::joined;
use crate::lexer::{keywords, lexed, TokenKind, TokenView};
use crate::split::{
    colon_pieces, colons_at, first_colons, first_word_of, last_colons, last_index,
    lemma_last_index, pieces, word_at_start,
};
use crate::text::lemma_byte_at_char;

verus! {

/// Whether a character can stand in an identifier.
pub open spec fn is_word_char(c: char) -> bool {
    'a' <= c <= 'z' || 'A' <= c <= 'Z' || c == '_' || '0' <= c <= '9'
}

/// Whether a text is the beginning of an identifier, or empty.
pub open spec fn is_beginning(text: Seq<char>) -> bool {
    &&& forall|k: int| 0 <= k < text.len() ==> is_word_char(#[trigger] text[k])
    &&& text.len() > 0 ==> !('0' <= text[0] <= '9')
}

/// Whether a text is an identifier, and none of the words of the language.
pub open spec fn is_name(text: Seq<char>) -> bool {
    is_beginning(text) && text.len() > 0 && !keywords().contains(text)
}

/// Whether some texts are the names of a path: the first may be `crate`.
pub open spec fn are_names(segments: Seq<Seq<char>>) -> bool {
    &&& segments.len() > 0
    &&& segments[0] == "crate"@ || is_name(segments[0])
    &&& forall|k: int| 0 < k < segments.len() ==> is_name(#[trigger] segments[k])
}

proof fn lemma_crate()
    ensures
        is_beginning("crate"@),
        "crate"@.len() == 5,
{
    reveal_strlit("crate");
    let text = "crate"@;
    assert(text[0] == 'c' && text[1] == 'r' && text[2] == 'a' && text[3] == 't' && text[4] == 'e');
    assert forall|k: int| 0 <= k < text.len() implies is_word_char(#[trigger] text[k]) by {
        assert(k == 0 || k == 1 || k == 2 || k == 3 || k == 4);
    }
}

proof fn lemma_segment(segments: Seq<Seq<char>>, k: int)
    requires
        are_names(segments),
        0 <= k < segments.len(),
    ensures
        is_beginning(segments[k]),
        segments[k].len() > 0,
{
    lemma_crate();
    if k > 0 {
        assert(is_name(segments[k]));
    }
}

/// Texts with separators between them, taken from the front.
proof fn lemma_joined_front(list: Seq<Seq<char>>, separator: Seq<char>)
    requires
        list.len() > 1,
    ensures
        joined(list, separator) == list[0] + separator + joined(list.drop_first(), separator),
    decreases list.len(),
{
    let rest = list.drop_first();
    if list.len() == 2 {
        assert(list.drop_last() =~= seq![list[0]]);
        assert(rest =~= seq![list[1]]);
        assert(joined(seq![list[0]], separator) == list[0]);
        assert(joined(seq![list[1]], separator) == list[1]);
        assert(joined(list, separator) =~= list[0] + separator + list[1]);
    } else {
        lemma_joined_front(list.drop_last(), separator);
        assert(list.drop_last().drop_first() =~= rest.drop_last());
        assert(rest.last() == list.last());
        assert(joined(list, separator) =~= list[0] + separator + joined(rest, separator));
    }
}

/// The names of a path with colons between them hold nothing but word characters and colons, and
/// begin and end with word characters.
proof fn lemma_path_chars(segments: Seq<Seq<char>>)
    requires
        segments.len() > 0,
        forall|k: int|
            0 <= k < segments.len() ==> is_beginning(#[trigger] segments[k]) && segments[k].len()
                > 0,
    ensures
        joined(segments, "::"@).len() > 0,
        is_word_char(joined(segments, "::"@)[0]),
        is_word_char(joined(segments, "::"@).last()),
        forall|k: int|
            0 <= k < joined(segments, "::"@).len() ==> is_word_char(
                #[trigger] joined(segments, "::"@)[k],
            ) || joined(segments, "::"@)[k] == ':',
    decreases segments.len(),
{
    reveal_strlit("::");
    let text = joined(segments, "::"@);
    let last = segments[segments.len() - 1];
    assert(is_beginning(last) && last.len() > 0);
    assert(is_word_char(last[last.len() - 1]));
    if segments.len() == 1 {
        assert(is_word_char(text[0]));
    } else {
        let rest = segments.drop_last();
        assert forall|k: int| 0 <= k < rest.len() implies is_beginning(#[trigger] rest[k])
            && rest[k].len() > 0 by {
            assert(rest[k] == segments[k]);
        }
        lemma_path_chars(rest);
        let before = joined(rest, "::"@);
        assert(text =~= before + "::"@ + last);
        assert forall|k: int| 0 <= k < text.len() implies is_word_char(#[trigger] text[k])
            || text[k] == ':' by {
            if k < before.len() {
                assert(text[k] == before[k]);
            } else if k >= before.len() + 2 {
                assert(text[k] == last[k - before.len() - 2]);
            }
        }
        assert(text[0] == before[0]);
        assert(text.last() == last.last());
    }
}

/// Word characters are no white space.
proof fn lemma_word_is_not_white(c: char)
    ensures
        is_word_char(c) || c == ':' ==> !is_white(c),
{
}

proof fn lemma_trim_nothing(text: Seq<char>)
    requires
        text.len() > 0 ==> !is_white(text[0]) && !is_white(text.last()),
    ensures
        trim_of(text) == text,
        trim_start_of(text) == text,
        trim_end_of(text) == text,
{
}

proof fn lemma_first_colons_is(text: Seq<char>, at: int)
    requires
        0 <= at <= text.len(),
        at < text.len() ==> colons_at(text, at),
        forall|k: int| 0 <= k < at ==> !#[trigger] colons_at(text, k),
    ensures
        first_colons(text) == at,
    decreases text.len(),
{
    if at > 0 {
        let rest = text.drop_first();
        assert(!colons_at(text, 0));
        assert(at < text.len() ==> colons_at(rest, at - 1));
        assert forall|k: int| 0 <= k < at - 1 implies !#[trigger] colons_at(rest, k) by {
            assert(!colons_at(text, k + 1));
        }
        lemma_first_colons_is(rest, at - 1);
    }
}

proof fn lemma_last_colons_is(text: Seq<char>, at: int)
    requires
        -1 <= at,
        at >= 0 ==> colons_at(text, at),
        forall|k: int| at < k < text.len() ==> !#[trigger] colons_at(text, k),
        at == -1 ==> forall|k: int| !#[trigger] colons_at(text, k),
    ensures
        last_colons(text) == at,
    decreases text.len(),
{
    if text.len() >= 2 {
        if at == text.len() - 2 {
        } else {
            assert(!colons_at(text, text.len() - 2));
            let rest = text.drop_last();
            assert(at >= 0 ==> colons_at(rest, at));
            assert forall|k: int| at < k < rest.len() implies !#[trigger] colons_at(rest, k) by {
                assert(!colons_at(text, k));
            }
            if at == -1 {
                assert forall|k: int| !#[trigger] colons_at(rest, k) by {
                    assert(!colons_at(text, k));
                }
            }
            lemma_last_colons_is(rest, at);
        }
    }
}

/// A path is cut into its names.
pub proof fn law_path_is_cut_into_its_names(segments: Seq<Seq<char>>)
    requires
        segments.len() > 0,
        forall|k: int|
            0 <= k < segments.len() ==> is_beginning(#[trigger] segments[k]) && segments[k].len()
                > 0,
    ensures
        colon_pieces(joined(segments, "::"@)) == segments,
    decreases segments.len(),
{
    reveal_strlit("::");
    let text = joined(segments, "::"@);
    let first = segments[0];
    assert(is_beginning(first) && first.len() > 0);
    if segments.len() == 1 {
        assert(text == first);
        assert forall|k: int| !#[trigger] colons_at(text, k) by {
            if 0 <= k < text.len() {
                assert(is_word_char(text[k]));
            }
        }
        lemma_first_colons_is(text, text.len() as int);
        assert(colon_pieces(text) =~= segments);
    } else {
        let rest = segments.drop_first();
        lemma_joined_front(segments, "::"@);
        let n = first.len() as int;
        assert(text[n] == ':' && text[n + 1] == ':');
        assert forall|k: int| 0 <= k < n implies !#[trigger] colons_at(text, k) by {
            assert(text[k] == first[k]);
            assert(is_word_char(first[k]));
        }
        lemma_first_colons_is(text, n);
        assert(text.take(n) =~= first);
        assert(text.skip(n + 2) =~= joined(rest, "::"@));
        assert forall|k: int| 0 <= k < rest.len() implies is_beginning(#[trigger] rest[k])
            && rest[k].len() > 0 by {
            assert(rest[k] == segments[k + 1]);
        }
        law_path_is_cut_into_its_names(rest);
        assert(colon_pieces(text) =~= segments);
    }
}

/// A path that is cut and trimmed is looked up by its names.
proof fn lemma_path_context(
    use_start: nat,
    segments: Seq<Seq<char>>,
    partial: Seq<char>,
    imported: Set<Seq<char>>,
)
    requires
        are_names(segments),
        is_beginning(partial),
    ensures
        crate::completion::imports::context::path_context(
            use_start,
            joined(segments, "::"@),
            partial,
            imported,
        ) == (ContextView {
            use_start,
            query: QueryView::Path(segments),
            partial,
            already_imported: imported,
        }),
{
    assert forall|k: int| 0 <= k < segments.len() implies is_beginning(#[trigger] segments[k])
        && segments[k].len() > 0 by {
        lemma_segment(segments, k);
    }
    law_path_is_cut_into_its_names(segments);
    let trimmed = crate::completion::imports::context::trimmed(segments);
    assert forall|k: int| 0 <= k < segments.len() implies #[trigger] trimmed[k] == segments[k] by {
        lemma_segment(segments, k);
        let text = segments[k];
        assert(is_word_char(text[0]));
        assert(is_word_char(text[text.len() - 1]));
        lemma_word_is_not_white(text[0]);
        lemma_word_is_not_white(text[text.len() - 1]);
        lemma_trim_nothing(text);
    }
    assert(trimmed =~= segments);
    lemma_identifiers(segments);
    lemma_prefix(partial);
}

proof fn lemma_prefix(text: Seq<char>)
    ensures
        crate::completion::imports::context::is_identifier_prefix_of(text) == is_beginning(text),
{
    if is_beginning(text) {
        if text.len() > 0 {
            assert(is_word_char(text[0]));
        }
        assert forall|i: int| 0 < i < text.len() implies
            crate::completion::imports::context::continues_identifier(#[trigger] text[i]) by {
            assert(is_word_char(text[i]));
        }
    }
    if crate::completion::imports::context::is_identifier_prefix_of(text) {
        assert forall|k: int| 0 <= k < text.len() implies is_word_char(#[trigger] text[k]) by {
            if k > 0 {
                assert(crate::completion::imports::context::continues_identifier(text[k]));
            }
        }
    }
}

proof fn lemma_identifiers(segments: Seq<Seq<char>>)
    requires
        are_names(segments),
    ensures
        crate::completion::imports::context::is_path(segments),
{
    lemma_prefix(segments[0]);
    assert forall|i: int| 0 < i < segments.len() implies
        crate::completion::imports::context::is_identifier_text(#[trigger] segments[i]) by {
        assert(is_name(segments[i]));
        lemma_prefix(segments[i]);
    }
}

/// Behind a path and its colons the names of the path are looked up, and what is typed behind the
/// last colons is completed.
pub proof fn law_path_is_completed(use_start: nat, segments: Seq<Seq<char>>, partial: Seq<char>)
    requires
        are_names(segments),
        is_beginning(partial),
    ensures
        declaration_context(use_start, joined(segments, "::"@) + "::"@ + partial) == Some(
            ContextView {
                use_start,
                query: QueryView::Path(segments),
                partial,
                already_imported: Set::empty(),
            },
        ),
{
    reveal_strlit("::");
    let path = joined(segments, "::"@);
    let text = path + "::"@ + partial;
    let n = path.len() as int;
    assert forall|k: int| 0 <= k < segments.len() implies is_beginning(#[trigger] segments[k])
        && segments[k].len() > 0 by {
        lemma_segment(segments, k);
    }
    lemma_path_chars(segments);
    assert forall|k: int| 0 <= k < text.len() implies is_word_char(#[trigger] text[k]) || text[k]
        == ':' by {
        if k < n {
            assert(text[k] == path[k]);
        } else if k >= n + 2 {
            assert(text[k] == partial[k - n - 2]);
            assert(is_word_char(partial[k - n - 2]));
        }
    }
    assert(!text.contains(';'));
    lemma_last_index(text, '{');
    assert(last_index(text, '{') == -1);
    assert forall|k: int| n < k < text.len() implies !#[trigger] colons_at(text, k) by {
        if k + 1 < text.len() {
            assert(text[k + 1] == partial[k + 1 - n - 2]);
            assert(is_word_char(partial[k + 1 - n - 2]));
        }
    }
    assert(colons_at(text, n));
    lemma_last_colons_is(text, n);
    assert(text.take(n) =~= path);
    assert(text.skip(n + 2) =~= partial);
    lemma_trim_path(path);
    lemma_trim_partial(partial);
    lemma_path_context(use_start, segments, partial, Set::empty());
}

proof fn lemma_trim_path(path: Seq<char>)
    requires
        path.len() > 0,
        is_word_char(path[0]),
        is_word_char(path.last()) || path.last() == ':',
    ensures
        trim_of(path) == path,
{
    lemma_word_is_not_white(path[0]);
    lemma_word_is_not_white(path.last());
    lemma_trim_nothing(path);
}

proof fn lemma_trim_partial(partial: Seq<char>)
    requires
        is_beginning(partial),
    ensures
        trim_of(partial) == partial,
{
    if partial.len() > 0 {
        assert(is_word_char(partial[0]));
        assert(is_word_char(partial[partial.len() - 1]));
        lemma_word_is_not_white(partial[0]);
        lemma_word_is_not_white(partial.last());
    }
    lemma_trim_nothing(partial);
}

/// Behind the `use` alone, or behind the beginning of a name, the names are asked for that a path
/// can begin with.
pub proof fn law_beginning_of_path_is_completed(use_start: nat, partial: Seq<char>)
    requires
        is_beginning(partial),
    ensures
        declaration_context(use_start, partial) == Some(
            ContextView {
                use_start,
                query: QueryView::Roots,
                partial,
                already_imported: Set::empty(),
            },
        ),
{
    assert(!partial.contains(';'));
    lemma_last_index(partial, '{');
    assert forall|k: int| 0 <= k < partial.len() implies is_word_char(#[trigger] partial[k]) by {}
    assert(last_index(partial, '{') == -1);
    assert forall|k: int| !#[trigger] colons_at(partial, k) by {
        if 0 <= k < partial.len() {
            assert(is_word_char(partial[k]));
        }
    }
    lemma_last_colons_is(partial, -1);
    lemma_trim_partial(partial);
    lemma_prefix(partial);
}

/// Behind a semicolon there is no declaration to finish.
pub proof fn law_semicolon_ends_declaration(use_start: nat, declaration: Seq<char>)
    requires
        declaration.contains(';'),
    ensures
        declaration_context(use_start, declaration) is None,
{
}

/// In the braces behind a path the names of the path are looked up, what is typed behind the last
/// comma is completed, and the names before it are imported already.
pub proof fn law_list_is_completed(
    use_start: nat,
    segments: Seq<Seq<char>>,
    done: Seq<char>,
    partial: Seq<char>,
)
    requires
        are_names(segments),
        is_beginning(partial),
        !done.contains(';'),
        !done.contains('{'),
        !done.contains('}'),
    ensures
        declaration_context(use_start, joined(segments, "::"@) + "::{"@ + done.push(',') + partial)
            == Some(
            ContextView {
                use_start,
                query: QueryView::Path(segments),
                partial,
                already_imported: imported_names(pieces(done, ',')),
            },
        ),
        declaration_context(use_start, joined(segments, "::"@) + "::{"@ + partial) == Some(
            ContextView {
                use_start,
                query: QueryView::Path(segments),
                partial,
                already_imported: imported_names(pieces(Seq::empty(), ',')),
            },
        ),
{
    lemma_list(use_start, segments, done.push(',') + partial, partial, done);
    lemma_list(use_start, segments, partial, partial, Seq::empty());
    let path = joined(segments, "::"@);
    assert(path + "::{"@ + done.push(',') + partial =~= path + "::{"@ + (done.push(',') + partial));
}

/// Whether a list is what is done of it and what is typed behind the last comma.
spec fn is_list(list: Seq<char>, done: Seq<char>, partial: Seq<char>) -> bool {
    list == partial && done.len() == 0 || list == done.push(',') + partial
}

proof fn lemma_list_chars(list: Seq<char>, done: Seq<char>, partial: Seq<char>, c: char)
    requires
        is_list(list, done, partial),
        is_beginning(partial),
        c == ';' || c == '{' || c == '}',
        !done.contains(c),
    ensures
        !list.contains(c),
{
    assert forall|k: int| 0 <= k < list.len() implies #[trigger] list[k] != c by {
        if list == partial {
            assert(is_word_char(partial[k]));
        } else if k < done.len() {
            assert(list[k] == done[k]);
            assert(done.contains(done[k]));
        } else if k > done.len() {
            assert(list[k] == partial[k - done.len() - 1]);
            assert(is_word_char(partial[k - done.len() - 1]));
        }
    }
}

proof fn lemma_list_cut(list: Seq<char>, done: Seq<char>, partial: Seq<char>)
    requires
        is_list(list, done, partial),
        is_beginning(partial),
    ensures
        crate::completion::imports::context::completed_items(list) == done,
        crate::completion::imports::context::unfinished_item(list) == partial,
{
    lemma_last_index(list, ',');
    let comma = last_index(list, ',');
    if list == done.push(',') + partial {
        assert(list[done.len() as int] == ',');
        if comma > done.len() {
            assert(list[comma] == partial[comma - done.len() - 1]);
            assert(is_word_char(partial[comma - done.len() - 1]));
        }
        assert(list.take(comma) =~= done);
        assert(list.skip(comma + 1) =~= partial);
    } else {
        if comma >= 0 {
            assert(is_word_char(partial[comma]));
        }
        assert(list.skip(comma + 1) =~= partial);
        assert(done =~= Seq::<char>::empty());
    }
}

proof fn lemma_brace(path: Seq<char>, list: Seq<char>)
    requires
        !path.contains(';'),
        !list.contains(';'),
        !list.contains('{'),
    ensures
        ({
            let text = path + "::{"@ + list;
            let brace = last_index(text, '{');
            &&& !text.contains(';')
            &&& brace == path.len() + 2
            &&& text.take(brace) == path + seq![':', ':']
            &&& text.skip(brace + 1) == list
        }),
{
    reveal_strlit("::{");
    let text = path + "::{"@ + list;
    let n = path.len() as int;
    assert forall|k: int| 0 <= k < text.len() implies #[trigger] text[k] != ';' by {
        if k < n {
            assert(text[k] == path[k]);
            assert(path.contains(path[k]));
        } else if k >= n + 3 {
            assert(text[k] == list[k - n - 3]);
            assert(list.contains(list[k - n - 3]));
        }
    }
    lemma_last_index(text, '{');
    assert(text[n + 2] == '{');
    let brace = last_index(text, '{');
    if brace > n + 2 {
        assert(text[brace] == list[brace - n - 3]);
        assert(list.contains(list[brace - n - 3]));
    }
    assert(text.take(brace) =~= path + seq![':', ':']);
    assert(text.skip(brace + 1) =~= list);
}

proof fn lemma_list(
    use_start: nat,
    segments: Seq<Seq<char>>,
    list: Seq<char>,
    partial: Seq<char>,
    done: Seq<char>,
)
    requires
        are_names(segments),
        is_beginning(partial),
        is_list(list, done, partial),
        !done.contains(';'),
        !done.contains('{'),
        !done.contains('}'),
    ensures
        declaration_context(use_start, joined(segments, "::"@) + "::{"@ + list) == Some(
            ContextView {
                use_start,
                query: QueryView::Path(segments),
                partial,
                already_imported: imported_names(pieces(done, ',')),
            },
        ),
{
    let path = joined(segments, "::"@);
    assert forall|k: int| 0 <= k < segments.len() implies is_beginning(#[trigger] segments[k])
        && segments[k].len() > 0 by {
        lemma_segment(segments, k);
    }
    lemma_path_chars(segments);
    assert(!path.contains(';')) by {
        if path.contains(';') {
            let k = choose|k: int| 0 <= k < path.len() && path[k] == ';';
            assert(is_word_char(path[k]) || path[k] == ':');
        }
    }
    lemma_list_chars(list, done, partial, ';');
    lemma_list_chars(list, done, partial, '{');
    lemma_list_chars(list, done, partial, '}');
    lemma_brace(path, list);
    let before = path + seq![':', ':'];
    assert(before[0] == path[0]);
    assert(before.last() == ':');
    lemma_trim_path(before);
    assert(before.take(before.len() - 2) =~= path);
    assert(crate::completion::imports::context::ends_in_colons(before));
    lemma_list_cut(list, done, partial);
    lemma_trim_partial(partial);
    lemma_path_context(use_start, segments, partial, imported_names(pieces(done, ',')));
    assert(crate::completion::imports::context::list_context(use_start, before, list) == (
    ContextView {
        use_start,
        query: QueryView::Path(segments),
        partial,
        already_imported: imported_names(pieces(done, ',')),
    }));
}

/// A list is cut at its commas, one piece more for each.
pub proof fn law_list_is_cut_at_its_commas(list: Seq<char>, item: Seq<char>)
    requires
        !item.contains(','),
    ensures
        pieces(item, ',') == seq![item],
        pieces(list.push(',') + item, ',') == pieces(list, ',').push(item),
    decreases list.len(),
{
    lemma_first_index(item, ',');
    let own = first_index(item, ',');
    if own < item.len() {
        assert(item.contains(item[own]));
    }
    assert(pieces(item, ',') =~= seq![item]);
    let whole = list.push(',') + item;
    let at = first_index(list, ',');
    lemma_first_index(list, ',');
    if at < list.len() {
        let rest = list.skip(at + 1);
        assert(whole[at] == ',');
        assert forall|k: int| 0 <= k < at implies whole[k] != ',' by {
            assert(whole[k] == list[k]);
        }
        lemma_first_index_is(whole, ',', at);
        assert(whole.take(at) =~= list.take(at));
        assert(whole.skip(at + 1) =~= rest.push(',') + item);
        law_list_is_cut_at_its_commas(rest, item);
        assert(pieces(whole, ',') =~= pieces(list, ',').push(item));
    } else {
        let n = list.len() as int;
        assert(whole[n] == ',');
        assert forall|k: int| 0 <= k < n implies whole[k] != ',' by {
            assert(whole[k] == list[k]);
        }
        lemma_first_index_is(whole, ',', n);
        assert(whole.take(n) =~= list);
        assert(whole.skip(n + 1) =~= item);
        assert(pieces(whole, ',') =~= pieces(list, ',').push(item));
    }
}

/// Each item of a list is imported already by its first word, where that is a name.
pub proof fn law_listed_names_are_imported(
    items: Seq<Seq<char>>,
    white: Seq<char>,
    name: Seq<char>,
    more: Seq<char>,
)
    requires
        is_name(name),
        forall|k: int| 0 <= k < white.len() ==> is_white(#[trigger] white[k]),
        more.len() > 0 ==> is_white(more[0]),
    ensures
        imported_names(Seq::empty()) == Set::<Seq<char>>::empty(),
        imported_names(items.push(white + name + more)) == imported_names(items).insert(name),
        imported_names(items.push(white)) == imported_names(items),
{
    let item = white + name + more;
    assert(items.push(item).drop_last() =~= items);
    assert(items.push(white).drop_last() =~= items);
    assert(is_word_char(name[0]));
    lemma_word_is_not_white(name[0]);
    lemma_trim_start(white, name + more);
    assert(item =~= white + (name + more));
    lemma_word(name, more);
    lemma_prefix(name);
    lemma_all_white(white);
}

proof fn lemma_trim_start(white: Seq<char>, text: Seq<char>)
    requires
        text.len() > 0,
        !is_white(text[0]),
        forall|k: int| 0 <= k < white.len() ==> is_white(#[trigger] white[k]),
    ensures
        trim_start_of(white + text) == text,
    decreases white.len(),
{
    if white.len() > 0 {
        let rest = white.drop_first();
        assert(is_white(white[0]));
        assert((white + text).drop_first() =~= rest + text);
        assert forall|k: int| 0 <= k < rest.len() implies is_white(#[trigger] rest[k]) by {
            assert(rest[k] == white[k + 1]);
        }
        lemma_trim_start(rest, text);
    } else {
        assert(white + text =~= text);
    }
}

proof fn lemma_word(name: Seq<char>, more: Seq<char>)
    requires
        forall|k: int| 0 <= k < name.len() ==> is_word_char(#[trigger] name[k]),
        more.len() > 0 ==> is_white(more[0]),
    ensures
        word_at_start(name + more) == name,
    decreases name.len(),
{
    if name.len() > 0 {
        let rest = name.drop_first();
        assert(is_word_char(name[0]));
        lemma_word_is_not_white(name[0]);
        assert((name + more).drop_first() =~= rest + more);
        assert forall|k: int| 0 <= k < rest.len() implies is_word_char(#[trigger] rest[k]) by {
            assert(rest[k] == name[k + 1]);
        }
        lemma_word(rest, more);
        assert(seq![name[0]] + rest =~= name);
    } else {
        assert(name + more =~= more);
        assert(name =~= Seq::<char>::empty());
    }
}

proof fn lemma_all_white(white: Seq<char>)
    requires
        forall|k: int| 0 <= k < white.len() ==> is_white(#[trigger] white[k]),
    ensures
        first_word_of(white).len() == 0,
    decreases white.len(),
{
    if white.len() > 0 {
        let rest = white.drop_first();
        assert(is_white(white[0]));
        assert forall|k: int| 0 <= k < rest.len() implies is_white(#[trigger] rest[k]) by {
            assert(rest[k] == white[k + 1]);
        }
        lemma_all_white(rest);
    }
}

/// The declaration that is being written at a place of a source is what stands behind the last
/// `use` before the place, unless something other than tokens and white space ends the text there.
pub proof fn law_declaration_stands_behind_last_use(
    head: Seq<char>,
    declaration: Seq<char>,
    behind: Seq<char>,
    tokens: Seq<TokenView>,
    m: int,
    written: Seq<char>,
    white: Seq<char>,
)
    requires
        lexed(head + declaration) == Some(tokens),
        0 <= m < tokens.len(),
        tokens[m].kind == TokenKind::Use,
        forall|k: int| m < k < tokens.len() ==> (#[trigger] tokens[k]).kind != TokenKind::Use,
        tokens[m].end == utf8_len(head),
        head + declaration == written + white,
        tokens.last().end == utf8_len(written),
        forall|k: int| 0 <= k < white.len() ==> is_white(#[trigger] white[k]),
    ensures
        context_at(head + declaration + behind, utf8_len(head + declaration))
            == declaration_context(tokens[m].start, trim_start_of(declaration)),
{
    let text = head + declaration;
    let source = text + behind;
    let n = text.len() as int;
    assert(source.take(n) =~= text);
    lemma_byte_at_char(source, n);
    let w = written.len() as int;
    assert(text.take(w) =~= written);
    lemma_byte_at_char(text, w);
    assert(text.skip(w) =~= white);
    crate::text_laws::law_white_space_is_trimmed(white);
    lemma_last_use(tokens, m);
    let h = head.len() as int;
    assert(text.take(h) =~= head);
    lemma_byte_at_char(text, h);
    assert(text.skip(h) =~= declaration);
}

proof fn lemma_last_use(tokens: Seq<TokenView>, m: int)
    requires
        0 <= m < tokens.len(),
        tokens[m].kind == TokenKind::Use,
        forall|k: int| m < k < tokens.len() ==> (#[trigger] tokens[k]).kind != TokenKind::Use,
    ensures
        last_use_token(tokens) == Some((tokens[m].start, tokens[m].end)),
    decreases tokens.len(),
{
    let n = tokens.len() - 1;
    assert(tokens.last() == tokens[n]);
    if m < n {
        let rest = tokens.drop_last();
        assert(tokens[n].kind != TokenKind::Use);
        assert(rest[m] == tokens[m]);
        assert forall|k: int| m < k < rest.len() implies (#[trigger] rest[k]).kind
            != TokenKind::Use by {
            assert(rest[k] == tokens[k]);
        }
        lemma_last_use(rest, m);
    }
}

} // verus!
