//! The token model of a declaration value.
//!
//! The lexical tokenizer is an external collaborator: `tokenize` turns a
//! string into a flat sequence of classified tokens, each carrying its
//! verbatim source text, with the contents of brackets and functions laid
//! out between matching `Open`/`Close` (or `Function`/`Close`) tokens.
//! Everything downstream works on that flat sequence and is verified.

use vstd::prelude::*;
use cssparser::Token as CssToken;
use cssparser::Parser as CssParser;

verus! {

/// The three bracket shapes of the value grammar.
#[derive(Clone, Copy, PartialEq, Eq, Structural)]
pub enum Bracket {
    Paren,
    Square,
    Curly,
}

/// The classification of one token, with exactly the distinctions the
/// scanner and the substitution evaluator read. `Space` covers whitespace
/// and comments (both are skipped where the grammar skips blanks);
/// `Other` covers every remaining token (numbers, strings, urls, ...),
/// which the grammar passes through unread.
pub enum TokKind {
    Ident(String),
    Function(String),
    Open(Bracket),
    Close(Bracket),
    Comma,
    Semicolon,
    Delim(char),
    BadUrl,
    BadString,
    Space,
    Other,
}

/// One token: its classification and its verbatim source text.
pub struct Tok {
    pub kind: TokKind,
    pub text: String,
}

/// The verbatim text of the tokens from position `i` on, concatenated.
pub open spec fn texts_from(t: Seq<Tok>, i: int) -> Seq<char>
    decreases t.len() - i,
{
    if i < 0 || i >= t.len() {
        Seq::empty()
    } else {
        t[i].text@ + texts_from(t, i + 1)
    }
}

/// The verbatim text of a whole token sequence.
pub open spec fn concat_texts(t: Seq<Tok>) -> Seq<char> {
    texts_from(t, 0)
}

/// The token stream that the CSS tokenizer produces for a given string.
/// It depends on the characters of the string alone.
pub uninterp spec fn css_tokens(s: Seq<char>) -> Seq<Tok>;

#[verifier::external_type_specification]
#[verifier::external_body]
pub struct ExToken<'a>(CssToken<'a>);

#[verifier::external_type_specification]
#[verifier::external_body]
pub struct ExParser<'i>(CssParser<'i>);

/// The kind of the token that closes a block opened by `k`, if `k` opens one.
fn close_for(k: &TokKind) -> (r: Option<TokKind>)
    ensures
        r == (match k {
            TokKind::Open(b) => Some(TokKind::Close(*b)),
            TokKind::Function(_) => Some(TokKind::Close(Bracket::Paren)),
            _ => None::<TokKind>,
        }),
{
    match k {
        TokKind::Open(b) => Some(TokKind::Close(*b)),
        TokKind::Function(_) => Some(TokKind::Close(Bracket::Paren)),
        _ => None,
    }
}

/// Relies on cssparser::Token: tells its six block-opening and block-closing
/// variants apart.
#[verifier::external_body]
fn bracket_kind(t: &CssToken) -> TokKind {
    match t {
        CssToken::ParenthesisBlock => TokKind::Open(Bracket::Paren),
        CssToken::SquareBracketBlock => TokKind::Open(Bracket::Square),
        CssToken::CurlyBracketBlock => TokKind::Open(Bracket::Curly),
        CssToken::CloseParenthesis => TokKind::Close(Bracket::Paren),
        CssToken::CloseSquareBracket => TokKind::Close(Bracket::Square),
        _ => TokKind::Close(Bracket::Curly),
    }
}

/// Relies on cssparser::Token: tells its variants apart and moves each
/// name out; every variant this library does not read becomes `Other`.
#[verifier::external_body]
fn tok_kind(t: &CssToken) -> TokKind {
    match t {
        CssToken::Ident(n) => TokKind::Ident(n.as_ref().to_owned()),
        CssToken::Function(n) => TokKind::Function(n.as_ref().to_owned()),
        CssToken::ParenthesisBlock | CssToken::SquareBracketBlock | CssToken::CurlyBracketBlock => bracket_kind(t),
        CssToken::CloseParenthesis | CssToken::CloseSquareBracket | CssToken::CloseCurlyBracket => bracket_kind(t),
        CssToken::Comma => TokKind::Comma,
        CssToken::Semicolon => TokKind::Semicolon,
        CssToken::Delim(c) => TokKind::Delim(*c),
        CssToken::BadUrl(_) => TokKind::BadUrl,
        CssToken::BadString(_) => TokKind::BadString,
        CssToken::WhiteSpace(_) | CssToken::Comment(_) => TokKind::Space,
        _ => TokKind::Other,
    }
}

/// Relies on cssparser::Parser::next_including_whitespace_and_comments,
/// position, slice_from and parse_nested_block: walks every token up to the
/// end of the current block (or of the input), descending into nested
/// blocks, and records each token with the verbatim text it was read from.
#[verifier::external_body]
fn tokenize_into(input: &mut CssParser, out: &mut Vec<Tok>) {
    loop {
        let start = input.position();
        let t = match input.next_including_whitespace_and_comments() { Ok(t) => t.clone(), Err(_) => return };
        let kind = tok_kind(&t);
        let closer = close_for(&kind);
        out.push(Tok { kind, text: input.slice_from(start).to_owned() });
        if let Some(ck) = closer {
            let mut end = input.position();
            let _ = input.parse_nested_block(
                |p| -> Result<(), cssparser::ParseError<()>> { tokenize_into(p, out); end = p.position(); Ok(()) },
            );
            out.push(Tok { kind: ck, text: input.slice_from(end).to_owned() });
        }
    }
}

/// Relies on cssparser's tokenizer, through `tokenize_into`: the tokens of a
/// string depend on its characters alone, and their verbatim texts, in
/// order, spell the string itself.
#[verifier::external_body]
pub(crate) fn tokenize(css: &str) -> (r: Vec<Tok>)
    ensures
        r@ == css_tokens(css@),
        concat_texts(r@) == css@,
{
    let mut parser = CssParser::new(css);
    let mut out = Vec::new();
    tokenize_into(&mut parser, &mut out);
    out
}

} // verus!
