//! The unfinished `use` declaration in front of the cursor.

use vstd::prelude::*;

use crate::chars::{
    first_index, find_char, same_chars, to_chars, to_text, trim, trim_of, trim_start, trim_start_of,
    utf8_len,
};
use crate::lexer::{
    keywords, lex, lexed, token_fits, token_views, Token, TokenKind, TokenView,
};
use crate::order::{ascending, insert_text, texts};
use crate::rope::{byte_at_char, byte_slice, char_at_byte, on_boundary};
use crate::split::{
    colon_pieces, find_boundary, find_last, find_last_colons, first_word, first_word_of, last_colons,
    last_index, pieces, slices, split_at_char, split_at_colons,
};
use crate::text::{lemma_byte_at_char, lemma_inner_slice, lemma_slice_length};

verus! {

/// What an unfinished declaration asks for.
#[derive(Debug, PartialEq, Eq)]
pub enum Query {
    /// The names that a path can begin with.
    Roots,
    /// What stands behind a path.
    Path(Vec<String>),
    /// Nothing, for the declaration cannot be finished.
    Suppressed,
}

/// What a [`Query`] says.
#[verifier::ext_equal]
pub enum QueryView {
    Roots,
    Path(Seq<Seq<char>>),
    Suppressed,
}

impl View for Query {
    type V = QueryView;

    open spec fn view(&self) -> QueryView {
        match self {
            Query::Roots => QueryView::Roots,
            Query::Path(segments) => QueryView::Path(texts(segments@)),
            Query::Suppressed => QueryView::Suppressed,
        }
    }
}

/// The unfinished `use` declaration surrounding a completion request.
///
/// It is read from the text of the source and not from a syntax tree: while `use crate::math::` is
/// being typed, there is no complete declaration to be found in one.
#[derive(Debug)]
pub struct ImportCompletionContext {
    /// The byte offset of the `use`.
    pub use_start: usize,
    pub query: Query,
    /// What is typed of the name to be completed.
    pub partial: String,
    /// The names that the list in braces holds already, in order.
    pub already_imported: Vec<String>,
}

/// What an [`ImportCompletionContext`] says.
#[verifier::ext_equal]
pub struct ContextView {
    pub use_start: nat,
    pub query: QueryView,
    pub partial: Seq<char>,
    pub already_imported: Set<Seq<char>>,
}

impl View for ImportCompletionContext {
    type V = ContextView;

    open spec fn view(&self) -> ContextView {
        ContextView {
            use_start: self.use_start as nat,
            query: self.query@,
            partial: self.partial@,
            already_imported: texts(self.already_imported@).to_set(),
        }
    }
}

/// Whether an identifier can begin with a character.
pub open spec fn begins_identifier(c: char) -> bool {
    'a' <= c <= 'z' || 'A' <= c <= 'Z' || c == '_'
}

/// Whether an identifier can go on with a character.
pub open spec fn continues_identifier(c: char) -> bool {
    begins_identifier(c) || '0' <= c <= '9'
}

/// Whether a text is the beginning of an identifier, or empty.
pub open spec fn is_identifier_prefix_of(text: Seq<char>) -> bool {
    text.len() > 0 ==> begins_identifier(text[0]) && forall|i: int|
        0 < i < text.len() ==> continues_identifier(#[trigger] text[i])
}

/// Whether a text is an identifier and no reserved word.
pub open spec fn is_identifier_text(text: Seq<char>) -> bool {
    is_identifier_prefix_of(text) && text.len() > 0 && !keywords().contains(text)
}

pub fn is_identifier_prefix(value: &[char]) -> (r: bool)
    ensures
        r == is_identifier_prefix_of(value@),
{
    let mut i: usize = 0;
    while i < value.len()
        invariant
            i <= value@.len(),
            i > 0 ==> begins_identifier(value@[0]),
            forall|k: int| 0 < k < i ==> continues_identifier(#[trigger] value@[k]),
        decreases value@.len() - i,
    {
        let c: char = value[i];
        let letter: bool = ('a' <= c && c <= 'z') || ('A' <= c && c <= 'Z') || c == '_';
        if !letter && !(i > 0 && '0' <= c && c <= '9') {
            return false;
        }
        i = i + 1;
    }
    true
}

pub fn is_identifier(value: &[char]) -> (r: bool)
    ensures
        r == is_identifier_text(value@),
{
    is_identifier_prefix(value) && value.len() > 0 && !simplicityhl::lexer::is_keyword(
        to_text(value).as_str(),
    )
}

/// The start and the end of the last `use` among some tokens.
pub open spec fn last_use_token(tokens: Seq<TokenView>) -> Option<(nat, nat)>
    decreases tokens.len(),
{
    if tokens.len() == 0 {
        None
    } else if tokens.last().kind == TokenKind::Use {
        Some((tokens.last().start, tokens.last().end))
    } else {
        last_use_token(tokens.drop_last())
    }
}

/// Where the last token ends.
pub open spec fn tokens_end(tokens: Seq<TokenView>) -> nat {
    if tokens.len() == 0 {
        0
    } else {
        tokens.last().end
    }
}

/// The start and the end of the last `use` of a source with some tokens. There is none where the
/// source ends in something that is neither a token nor white space, such as a comment.
pub open spec fn last_use(source: Seq<char>, tokens: Seq<TokenView>) -> Option<(nat, nat)> {
    if on_boundary(source, tokens_end(tokens)) && trim_of(
        source.skip(char_at_byte(source, tokens_end(tokens))),
    ).len() == 0 {
        last_use_token(tokens)
    } else {
        None
    }
}

/// The texts without their surrounding white space.
pub open spec fn trimmed(list: Seq<Seq<char>>) -> Seq<Seq<char>> {
    Seq::new(list.len(), |i: int| trim_of(list[i]))
}

/// Whether the names of a path can be looked up.
pub open spec fn is_path(segments: Seq<Seq<char>>) -> bool {
    &&& segments.len() > 0
    &&& segments[0] == "crate"@ || is_identifier_text(segments[0])
    &&& forall|i: int| 0 < i < segments.len() ==> is_identifier_text(#[trigger] segments[i])
}

/// The context of a declaration that cannot be finished.
pub open spec fn suppressed_context(use_start: nat) -> ContextView {
    ContextView {
        use_start,
        query: QueryView::Suppressed,
        partial: Seq::empty(),
        already_imported: Set::empty(),
    }
}

/// The context behind a path.
pub open spec fn path_context(
    use_start: nat,
    path: Seq<char>,
    partial: Seq<char>,
    already_imported: Set<Seq<char>>,
) -> ContextView {
    let segments = trimmed(colon_pieces(path));
    ContextView {
        use_start,
        query: if is_path(segments) && is_identifier_prefix_of(partial) {
            QueryView::Path(segments)
        } else {
            QueryView::Suppressed
        },
        partial,
        already_imported,
    }
}

/// The names that the items of a list import.
pub open spec fn imported_names(items: Seq<Seq<char>>) -> Set<Seq<char>>
    decreases items.len(),
{
    if items.len() == 0 {
        Set::empty()
    } else {
        let before = imported_names(items.drop_last());
        let name = first_word_of(items.last());
        if is_identifier_text(name) {
            before.insert(name)
        } else {
            before
        }
    }
}

/// The part of a list before its last comma, or nothing.
pub open spec fn completed_items(list: Seq<char>) -> Seq<char> {
    if last_index(list, ',') >= 0 {
        list.take(last_index(list, ','))
    } else {
        Seq::empty()
    }
}

/// The part of a list behind its last comma, or all of it.
pub open spec fn unfinished_item(list: Seq<char>) -> Seq<char> {
    list.skip(last_index(list, ',') + 1)
}

/// Whether a text ends in two colons.
pub open spec fn ends_in_colons(text: Seq<char>) -> bool {
    text.len() >= 2 && text[text.len() - 2] == ':' && text[text.len() - 1] == ':'
}

/// The context inside of braces.
pub open spec fn list_context(use_start: nat, before: Seq<char>, list: Seq<char>) -> ContextView {
    let path = trim_of(before);
    if list.contains('}') || !ends_in_colons(path) {
        suppressed_context(use_start)
    } else {
        path_context(
            use_start,
            path.take(path.len() - 2),
            trim_of(unfinished_item(list)),
            imported_names(pieces(completed_items(list), ',')),
        )
    }
}

/// The context at the end of what stands behind a `use`. A semicolon ends the declaration.
pub open spec fn declaration_context(use_start: nat, declaration: Seq<char>) -> Option<
    ContextView,
> {
    let brace = last_index(declaration, '{');
    let colons = last_colons(declaration);
    if declaration.contains(';') {
        None
    } else if brace >= 0 {
        Some(list_context(use_start, declaration.take(brace), declaration.skip(brace + 1)))
    } else if colons >= 0 {
        Some(
            path_context(
                use_start,
                trim_of(declaration.take(colons)),
                trim_of(declaration.skip(colons + 2)),
                Set::empty(),
            ),
        )
    } else if is_identifier_prefix_of(trim_of(declaration)) {
        Some(
            ContextView {
                use_start,
                query: QueryView::Roots,
                partial: trim_of(declaration),
                already_imported: Set::empty(),
            },
        )
    } else {
        Some(suppressed_context(use_start))
    }
}

/// The unfinished declaration at the end of a source with some tokens.
pub open spec fn context_among(source: Seq<char>, tokens: Seq<TokenView>) -> Option<ContextView> {
    match last_use(source, tokens) {
        None => None,
        Some((start, end)) => if on_boundary(source, end) {
            declaration_context(start, trim_start_of(source.skip(char_at_byte(source, end))))
        } else {
            None
        },
    }
}

/// The unfinished declaration at the end of a source.
pub open spec fn context_at_end(source: Seq<char>) -> Option<ContextView> {
    match lexed(source) {
        None => None,
        Some(tokens) => context_among(source, tokens),
    }
}

/// The unfinished declaration at a byte offset of a source.
pub open spec fn context_at(source: Seq<char>, offset: nat) -> Option<ContextView> {
    if on_boundary(source, offset) {
        context_at_end(source.take(char_at_byte(source, offset)))
    } else {
        None
    }
}

/// Whether a `use` stands at a byte offset of a source.
pub open spec fn begins_with_use(source: Seq<char>, offset: nat) -> bool {
    byte_slice(source, offset, offset + 3) == Some("use"@)
}

/// The last `use` is one of the tokens.
proof fn lemma_last_use_token(tokens: Seq<TokenView>)
    ensures
        last_use_token(tokens) matches Some((start, end)) ==> exists|i: int|
            0 <= i < tokens.len() && (#[trigger] tokens[i]).kind == TokenKind::Use
                && tokens[i].start == start && tokens[i].end == end,
    decreases tokens.len(),
{
    if tokens.len() > 0 {
        lemma_last_use_token(tokens.drop_last());
        if let Some((start, end)) = last_use_token(tokens) {
            if tokens.last().kind == TokenKind::Use {
                assert(tokens[tokens.len() - 1].start == start);
            } else {
                let rest = tokens.drop_last();
                let i = choose|i: int|
                    0 <= i < rest.len() && (#[trigger] rest[i]).kind == TokenKind::Use
                        && rest[i].start == start && rest[i].end == end;
                assert(tokens[i] == rest[i]);
            }
        }
    }
}

/// Where the tokens of the first characters of a source lie in them, the context starts at a `use`.
proof fn lemma_use_start(source: Seq<char>, n: int, tokens: Seq<TokenView>)
    requires
        0 <= n <= source.len(),
        forall|i: int| 0 <= i < tokens.len() ==> token_fits(#[trigger] tokens[i], source.take(n)),
    ensures
        context_among(source.take(n), tokens) matches Some(context) ==> begins_with_use(
            source,
            context.use_start,
        ),
{
    let prefix = source.take(n);
    if let Some((start, end)) = last_use(prefix, tokens) {
        lemma_last_use_token(tokens);
        let i = choose|i: int|
            0 <= i < tokens.len() && (#[trigger] tokens[i]).kind == TokenKind::Use
                && tokens[i].start == start && tokens[i].end == end;
        assert(token_fits(tokens[i], prefix));
        lemma_byte_at_char(source, 0);
        lemma_byte_at_char(source, n);
        assert(source.take(0) == Seq::<char>::empty());
        assert(source.subrange(0, n) == prefix);
        assert(byte_slice(source, 0, byte_at_char(source, n)) == Some(prefix));
        lemma_inner_slice(source, 0, byte_at_char(source, n), start, end);
        lemma_slice_length(prefix, start, end);
        reveal_strlit("use");
        reveal_with_fuel(utf8_len, 4);
        assert("use"@.drop_last().drop_last().drop_last() == Seq::<char>::empty());
        assert(utf8_len("use"@) == 3);
    }
}

/// Only a path of identifiers is looked up, and only the beginning of an identifier is completed.
pub proof fn law_malformed_paths_are_suppressed(source: Seq<char>, offset: nat)
    ensures
        match context_at(source, offset) {
            Some(context) => match context.query {
                QueryView::Path(segments) => is_path(segments) && is_identifier_prefix_of(
                    context.partial,
                ),
                QueryView::Roots => is_identifier_prefix_of(context.partial),
                QueryView::Suppressed => true,
            },
            None => true,
        },
{
}

/// The names that a list holds already are identifiers.
pub proof fn law_imported_names_are_identifiers(items: Seq<Seq<char>>, name: Seq<char>)
    requires
        imported_names(items).contains(name),
    ensures
        is_identifier_text(name),
    decreases items.len(),
{
    if items.len() > 0 && imported_names(items.drop_last()).contains(name) {
        law_imported_names_are_identifiers(items.drop_last(), name);
    }
}

/// Finds the start and the end of the last `use` of a source with some tokens.
fn last_use_keyword(source: &[char], tokens: &Vec<Token>) -> (r: Option<(usize, usize)>)
    ensures
        match r {
            Some((start, end)) => last_use(source@, token_views(tokens@)) == Some(
                (start as nat, end as nat),
            ),
            None => last_use(source@, token_views(tokens@)) is None,
        },
{
    let ghost shown = token_views(tokens@);
    let end: usize = if tokens.len() == 0 {
        0
    } else {
        tokens[tokens.len() - 1].end
    };
    let at: usize = match find_boundary(source, end) {
        Some(at) => at,
        None => return None,
    };
    let rest: &[char] = vstd::slice::slice_subrange(source, at, source.len());
    assert(rest@ == source@.skip(at as int));
    if trim(rest).len() != 0 {
        return None;
    }
    let mut n: usize = tokens.len();
    assert(shown.take(n as int) == shown);
    while n > 0
        invariant
            n <= tokens@.len(),
            shown == token_views(tokens@),
            last_use(source@, shown) == last_use_token(shown.take(n as int)),
        decreases n,
    {
        let token: &Token = &tokens[n - 1];
        assert(shown.take(n as int).last() == token@);
        assert(shown.take(n as int).drop_last() == shown.take(n - 1));
        if token.kind == TokenKind::Use {
            return Some((token.start, token.end));
        }
        n = n - 1;
    }
    None
}

/// Whether a character occurs.
fn has_char(chars: &[char], c: char) -> (r: bool)
    ensures
        r == chars@.contains(c),
{
    let at: usize = find_char(chars, c);
    proof {
        crate::chars::lemma_first_index(chars@, c);
        if chars@.contains(c) {
            let k = choose|k: int| 0 <= k < chars@.len() && chars@[k] == c;
            assert(first_index(chars@, c) <= k);
        }
    }
    at < chars.len()
}

/// The names that the items of a list import, in order.
fn collect_imported_names(items: &Vec<&[char]>) -> (r: Vec<String>)
    ensures
        ascending(texts(r@)),
        texts(r@).to_set() == imported_names(slices(items@)),
{
    let ghost shown = slices(items@);
    let mut r: Vec<String> = Vec::new();
    let mut i: usize = 0;
    assert(texts(r@) =~= Seq::<Seq<char>>::empty());
    assert(texts(r@).to_set() =~= Set::<Seq<char>>::empty());
    while i < items.len()
        invariant
            i <= items@.len(),
            shown == slices(items@),
            ascending(texts(r@)),
            texts(r@).to_set() == imported_names(shown.take(i as int)),
        decreases items@.len() - i,
    {
        assert(shown.take(i + 1).drop_last() == shown.take(i as int));
        assert(shown.take(i + 1).last() == items@[i as int]@);
        let name: &[char] = first_word(items[i]);
        if is_identifier(name) {
            insert_text(&mut r, to_text(name));
        }
        i = i + 1;
    }
    assert(shown.take(i as int) == shown);
    r
}

impl ImportCompletionContext {
    /// Whether the names that the list holds already are kept in order.
    pub open spec fn well_formed(self) -> bool {
        ascending(texts(self.already_imported@))
    }

    /// Locates an unfinished `use` declaration at a byte offset. It starts at a `use`.
    pub fn at(source: &str, offset: usize) -> (r: Option<ImportCompletionContext>)
        ensures
            match r {
                Some(context) => context.well_formed() && context_at(source@, offset as nat)
                    == Some(context@) && begins_with_use(source@, context.use_start as nat),
                None => context_at(source@, offset as nat) is None,
            },
    {
        let chars: Vec<char> = to_chars(source);
        let end: usize = match find_boundary(chars.as_slice(), offset) {
            Some(end) => end,
            None => return None,
        };
        let prefix: &[char] = vstd::slice::slice_subrange(chars.as_slice(), 0, end);
        assert(prefix@ == source@.take(end as int));
        let text: String = to_text(prefix);
        match lex(text.as_str()) {
            Some(tokens) => {
                proof {
                    let shown = token_views(tokens@);
                    assert forall|i: int| 0 <= i < shown.len() implies token_fits(
                        #[trigger] shown[i],
                        prefix@,
                    ) by {
                        assert(token_fits(tokens@[i]@, text@));
                    }
                    lemma_use_start(source@, end as int, shown);
                }
                Self::among(prefix, &tokens)
            },
            None => None,
        }
    }

    /// Locates an unfinished `use` declaration at the end of a source with some tokens.
    pub fn among(source: &[char], tokens: &Vec<Token>) -> (r: Option<ImportCompletionContext>)
        ensures
            match r {
                Some(context) => context.well_formed() && context_among(
                    source@,
                    token_views(tokens@),
                ) == Some(context@),
                None => context_among(source@, token_views(tokens@)) is None,
            },
    {
        let (use_start, use_end): (usize, usize) = match last_use_keyword(source, tokens) {
            Some(range) => range,
            None => return None,
        };
        let at: usize = match find_boundary(source, use_end) {
            Some(at) => at,
            None => return None,
        };
        let rest: &[char] = vstd::slice::slice_subrange(source, at, source.len());
        assert(rest@ == source@.skip(at as int));
        Self::in_declaration(use_start, trim_start(rest))
    }

    /// The context at the end of what stands behind a `use`.
    fn in_declaration(use_start: usize, declaration: &[char]) -> (r: Option<
        ImportCompletionContext,
    >)
        ensures
            match r {
                Some(context) => context.well_formed() && declaration_context(
                    use_start as nat,
                    declaration@,
                ) == Some(context@),
                None => declaration_context(use_start as nat, declaration@) is None,
            },
    {
        if has_char(declaration, ';') {
            return None;
        }
        let length: usize = declaration.len();
        if let Some(brace) = find_last(declaration, '{') {
            let before: &[char] = vstd::slice::slice_subrange(declaration, 0, brace);
            let list: &[char] = vstd::slice::slice_subrange(declaration, brace + 1, length);
            assert(before@ == declaration@.take(brace as int));
            assert(list@ == declaration@.skip(brace + 1));
            return Some(Self::in_list(use_start, before, list));
        }
        if let Some(colons) = find_last_colons(declaration) {
            let path: &[char] = vstd::slice::slice_subrange(declaration, 0, colons);
            let partial: &[char] = vstd::slice::slice_subrange(declaration, colons + 2, length);
            assert(path@ == declaration@.take(colons as int));
            assert(partial@ == declaration@.skip(colons + 2));
            let none: Vec<String> = Vec::new();
            assert(texts(none@) =~= Seq::<Seq<char>>::empty());
            assert(texts(none@).to_set() =~= Set::<Seq<char>>::empty());
            return Some(Self::path(use_start, trim(path), trim(partial), none));
        }
        let partial: &[char] = trim(declaration);
        if !is_identifier_prefix(partial) {
            return Some(Self::suppressed(use_start));
        }
        let context = ImportCompletionContext {
            use_start,
            query: Query::Roots,
            partial: to_text(partial),
            already_imported: Vec::new(),
        };
        assert(texts(context.already_imported@) =~= Seq::<Seq<char>>::empty());
        assert(context@.already_imported =~= Set::<Seq<char>>::empty());
        Some(context)
    }

    /// The context inside of braces.
    fn in_list(use_start: usize, before: &[char], list: &[char]) -> (r: ImportCompletionContext)
        ensures
            r.well_formed(),
            r@ == list_context(use_start as nat, before@, list@),
    {
        if has_char(list, '}') {
            return Self::suppressed(use_start);
        }
        let path: &[char] = trim(before);
        if path.len() < 2 || path[path.len() - 2] != ':' || path[path.len() - 1] != ':' {
            return Self::suppressed(use_start);
        }
        let path: &[char] = vstd::slice::slice_subrange(path, 0, path.len() - 2);
        let length: usize = list.len();
        let (completed, partial): (&[char], &[char]) = match find_last(list, ',') {
            Some(comma) => (
                vstd::slice::slice_subrange(list, 0, comma),
                vstd::slice::slice_subrange(list, comma + 1, length),
            ),
            None => (vstd::slice::slice_subrange(list, 0, 0), list),
        };
        proof {
            crate::split::lemma_last_index(list@, ',');
            assert(completed@ =~= completed_items(list@));
            assert(partial@ =~= unfinished_item(list@));
            let trimmed_path = trim_of(before@);
            assert(path@ == trimmed_path.take(trimmed_path.len() - 2));
        }
        let imported: Vec<String> = collect_imported_names(&split_at_char(completed, ','));
        Self::path(use_start, path, trim(partial), imported)
    }

    /// The context behind a path.
    fn path(
        use_start: usize,
        path: &[char],
        partial: &[char],
        already_imported: Vec<String>,
    ) -> (r: ImportCompletionContext)
        requires
            ascending(texts(already_imported@)),
        ensures
            r.well_formed(),
            r@ == path_context(
                use_start as nat,
                path@,
                partial@,
                texts(already_imported@).to_set(),
            ),
    {
        let parts: Vec<&[char]> = split_at_colons(path);
        let ghost wanted = trimmed(colon_pieces(path@));
        let mut segments: Vec<String> = Vec::new();
        let mut valid: bool = is_identifier_prefix(partial);
        let mut i: usize = 0;
        while i < parts.len()
            invariant
                i <= parts@.len(),
                parts@.len() > 0,
                wanted == trimmed(slices(parts@)),
                texts(segments@) == wanted.take(i as int),
                valid == (is_identifier_prefix_of(partial@) && (i > 0 ==> wanted[0] == "crate"@
                    || is_identifier_text(wanted[0])) && forall|k: int|
                    0 < k < i ==> is_identifier_text(#[trigger] wanted[k])),
            decreases parts@.len() - i,
        {
            let segment: &[char] = trim(parts[i]);
            assert(segment@ == wanted[i as int]);
            if !is_identifier(segment) && !(i == 0 && same_chars(
                segment,
                to_chars("crate").as_slice(),
            )) {
                valid = false;
            }
            let ghost before = texts(segments@);
            segments.push(to_text(segment));
            assert(texts(segments@) =~= before.push(segment@));
            assert(wanted.take(i + 1) =~= wanted.take(i as int).push(wanted[i as int]));
            i = i + 1;
        }
        assert(wanted.take(i as int) == wanted);
        let query: Query = if valid {
            Query::Path(segments)
        } else {
            Query::Suppressed
        };
        let r = ImportCompletionContext {
            use_start,
            query,
            partial: to_text(partial),
            already_imported,
        };
        assert(r@ =~= path_context(
            use_start as nat,
            path@,
            partial@,
            texts(already_imported@).to_set(),
        ));
        r
    }

    /// The context of a declaration that cannot be finished.
    fn suppressed(use_start: usize) -> (r: ImportCompletionContext)
        ensures
            r.well_formed(),
            r@ == suppressed_context(use_start as nat),
    {
        let r = ImportCompletionContext {
            use_start,
            query: Query::Suppressed,
            partial: String::new(),
            already_imported: Vec::new(),
        };
        assert(texts(r.already_imported@) =~= Seq::<Seq<char>>::empty());
        assert(r@.already_imported =~= Set::<Seq<char>>::empty());
        r
    }
}

} // verus!
