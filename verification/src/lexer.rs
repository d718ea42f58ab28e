//! The tokens of a source, as the compiler's lexer finds them.

use vstd::prelude::*;

use simplicityhl::lexer::Token as CompilerToken;

use crate::chars::utf8_len;
use crate::rope::byte_slice;

verus! {

/// The tokens that the editor features tell apart.
#[derive(Clone, Copy, Debug, PartialEq, Eq, Structural)]
pub enum TokenKind {
    Use,
    Fn,
    Crate,
    Ident,
    Jet,
    Macro,
    Other,
}

/// A token: its kind, the name it holds (of an identifier, a jet without its `jet::`, or a macro),
/// and the bytes that it takes up.
#[derive(Debug)]
pub struct Token {
    pub kind: TokenKind,
    pub text: String,
    pub start: usize,
    pub end: usize,
}

/// What a [`Token`] says.
pub struct TokenView {
    pub kind: TokenKind,
    pub text: Seq<char>,
    pub start: nat,
    pub end: nat,
}

impl View for Token {
    type V = TokenView;

    open spec fn view(&self) -> TokenView {
        TokenView {
            kind: self.kind,
            text: self.text@,
            start: self.start as nat,
            end: self.end as nat,
        }
    }
}

/// What a list of tokens says.
pub open spec fn token_views(tokens: Seq<Token>) -> Seq<TokenView> {
    Seq::new(tokens.len(), |i: int| tokens[i]@)
}

/// How a token is spelled, as far as its kind and the name it holds tell.
pub open spec fn spelling(token: TokenView) -> Option<Seq<char>> {
    match token.kind {
        TokenKind::Use => Some("use"@),
        TokenKind::Fn => Some("fn"@),
        TokenKind::Crate => Some("crate"@),
        TokenKind::Ident => Some(token.text),
        TokenKind::Jet => Some("jet::"@ + token.text),
        TokenKind::Macro => Some(token.text),
        TokenKind::Other => None,
    }
}

/// Whether a token lies inside of a source, with its spelling at the place; one of a jet is the text
/// `jet::` and the jet's name.
pub open spec fn token_fits(token: TokenView, source: Seq<char>) -> bool {
    &&& token.start <= token.end <= utf8_len(source)
    &&& token.kind == TokenKind::Jet ==> token.end == token.start + 5 + utf8_len(token.text)
    &&& spelling(token) matches Some(text) ==> byte_slice(source, token.start, token.end) == Some(
        text,
    )
}

/// Whether each token ends behind its start, and each of a jet has room for its `jet::`.
pub open spec fn tokens_well_formed(tokens: Seq<Token>) -> bool {
    forall|i: int|
        0 <= i < tokens.len() ==> {
            let token = #[trigger] tokens[i];
            token.start <= token.end && (token.kind == TokenKind::Jet ==> token.start + 5
                <= token.end)
        }
}

/// The tokens that `simplicityhl::lexer::lex` finds in a source.
pub uninterp spec fn lexed(source: Seq<char>) -> Option<Seq<TokenView>>;

/// `simplicityhl::lexer::lex`, from the beginning of a source: the tokens, a function of the text.
/// Each lies inside of the source, and one that is told apart stands there as it is spelled. Comments and white space give no token; the grammar of tokens is
/// left to the compiler.
#[verifier::external_body]
pub(crate) fn lex(source: &str) -> (r: Option<Vec<Token>>)
    ensures
        match r {
            Some(tokens) => lexed(source@) == Some(token_views(tokens@)) && forall|i: int|
                0 <= i < tokens@.len() ==> token_fits((#[trigger] tokens@[i])@, source@),
            None => lexed(source@) is None,
        },
{
    simplicityhl::lexer::lex(0, source, 0).0.map(|tokens| tokens.iter().map(|(token, span)| {
        let (kind, text) = match token {
            CompilerToken::Use => (TokenKind::Use, ""),
            CompilerToken::Fn => (TokenKind::Fn, ""),
            CompilerToken::Crate => (TokenKind::Crate, ""),
            CompilerToken::Ident(name) => (TokenKind::Ident, *name),
            CompilerToken::Jet(name) => (TokenKind::Jet, *name),
            CompilerToken::Macro(name) => (TokenKind::Macro, *name),
            _ => (TokenKind::Other, ""),
        };
        Token { kind, text: text.to_owned(), start: span.start, end: span.end }
    }).collect())
}

/// The reserved words of the language.
pub open spec fn keywords() -> Set<Seq<char>> {
    set![
        "pub"@, "use"@, "as"@, "fn"@, "let"@, "type"@, "mod"@, "const"@, "match"@, "enum"@,
        "crate"@, "simc"@, "true"@, "false"@,
    ]
}

/// `simplicityhl::lexer::is_keyword`: whether a text is one of the reserved words.
pub assume_specification[ simplicityhl::lexer::is_keyword ](s: &str) -> (r: bool)
    ensures
        r == keywords().contains(s@),
;

} // verus!
