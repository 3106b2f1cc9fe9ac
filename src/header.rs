use vstd::prelude::*;
use crate::token::{Delimiter, Token, TokenView, view_token, view_tokens, lemma_view_tokens_index};

verus! {

/// What the header lacked where it failed.
#[derive(Clone, Copy, Debug, PartialEq, Eq, Structural)]
pub enum Expected {
    /// The parameter: an identifier that is not a keyword.
    Ident,
    /// The keyword `in`.
    KeywordIn,
    /// A bound: an integer literal whose value fits in `usize`.
    IntLiteral,
    /// The range operator `..`.
    Range,
    /// The body: a group in braces.
    BraceGroup,
    /// The end of the input, after the body.
    End,
}

/// A malformed header: the index of the offending token in the input, and what was expected
/// there.
#[derive(Clone, Copy, Debug, PartialEq, Eq, Structural)]
pub struct SyntaxError {
    pub position: usize,
    pub expected: Expected,
}

/// A parsed header `param in start..end { body }`.
#[derive(Debug)]
pub struct Invocation {
    pub param: String,
    pub start: usize,
    pub end: usize,
    pub body: Vec<Token>,
}

pub struct InvocationView {
    pub param: Seq<char>,
    pub start: usize,
    pub end: usize,
    pub body: Seq<TokenView>,
}

impl View for Invocation {
    type V = InvocationView;

    open spec fn view(&self) -> InvocationView {
        InvocationView {
            param: self.param@,
            start: self.start,
            end: self.end,
            body: view_tokens(self.body@),
        }
    }
}

/// Whether syn takes `text` as an identifier in parameter position (no keyword, no `_`).
pub uninterp spec fn accepts_as_ident(text: Seq<char>) -> bool;

/// The `usize` value that syn reads from an integer literal's text, if it is one and fits.
pub uninterp spec fn int_literal_value(text: Seq<char>) -> Option<usize>;

/// Relies on syn::parse_str::<syn::Ident>: succeeds exactly when `text` is one identifier that
/// syn's `Ident` parser accepts.
#[verifier::external_body]
fn accepts_ident(text: &str) -> (r: bool)
    ensures
        r == accepts_as_ident(text@),
{
    syn::parse_str::<syn::Ident>(text).is_ok()
}

/// Relies on syn::parse_str::<syn::LitInt> and syn::LitInt::base10_parse::<usize>: the value of
/// an integer literal's text, `None` when it is no integer literal or does not fit.
#[verifier::external_body]
fn int_literal(text: &str) -> (r: Option<usize>)
    ensures
        r == int_literal_value(text@),
{
    match syn::parse_str::<syn::LitInt>(text) {
        Ok(lit) => lit.base10_parse::<usize>().ok(),
        Err(_) => None,
    }
}

pub open spec fn keyword_in() -> Seq<char> {
    seq!['i', 'n']
}

pub open spec fn is_param(t: TokenView) -> bool {
    t is Ident && accepts_as_ident(t->Ident_0)
}

pub open spec fn is_bound(t: TokenView) -> bool {
    t is Literal && int_literal_value(t->Literal_0) is Some
}

pub open spec fn bound_value(t: TokenView) -> usize {
    int_literal_value(t->Literal_0)->Some_0
}

pub open spec fn syntax_error(position: usize, expected: Expected) -> SyntaxError {
    SyntaxError { position, expected }
}

/// The header grammar `param in start..end { body }`, with nothing after the body; the
/// first token out of place gives the error.
pub open spec fn parse_spec(s: Seq<TokenView>) -> Result<InvocationView, SyntaxError> {
    if !(s.len() > 0 && is_param(s[0])) {
        Err(syntax_error(0, Expected::Ident))
    } else if !(s.len() > 1 && s[1] == TokenView::Ident(keyword_in())) {
        Err(syntax_error(1, Expected::KeywordIn))
    } else if !(s.len() > 2 && is_bound(s[2])) {
        Err(syntax_error(2, Expected::IntLiteral))
    } else if !(s.len() > 4 && s[3] == TokenView::Punct('.', true) && s[4] is Punct
        && s[4]->Punct_0 == '.') {
        Err(syntax_error(3, Expected::Range))
    } else if !(s.len() > 5 && is_bound(s[5])) {
        Err(syntax_error(5, Expected::IntLiteral))
    } else if !(s.len() > 6 && s[6] is Group && s[6]->Group_0 == Delimiter::Brace) {
        Err(syntax_error(6, Expected::BraceGroup))
    } else if s.len() > 7 {
        Err(syntax_error(7, Expected::End))
    } else {
        Ok(
            InvocationView {
                param: s[0]->Ident_0,
                start: bound_value(s[2]),
                end: bound_value(s[5]),
                body: s[6]->Group_1,
            },
        )
    }
}

fn param_text(t: &Token) -> (r: Option<&String>)
    ensures
        r is Some <==> is_param(view_token(*t)),
        r is Some ==> r->Some_0@ == view_token(*t)->Ident_0,
{
    match t {
        Token::Ident(s) => {
            if accepts_ident(s.as_str()) {
                Some(s)
            } else {
                None
            }
        },
        _ => None,
    }
}

fn bound(t: &Token) -> (r: Option<usize>)
    ensures
        r is Some <==> is_bound(view_token(*t)),
        r is Some ==> r->Some_0 == bound_value(view_token(*t)),
{
    match t {
        Token::Literal(s) => int_literal(s.as_str()),
        _ => None,
    }
}

fn is_keyword_in(t: &Token) -> (r: bool)
    ensures
        r == (view_token(*t) == TokenView::Ident(keyword_in())),
{
    match t {
        Token::Ident(s) => {
            proof {
                reveal_strlit("in");
            }
            let k = String::from_str("in");
            assert(k@ =~= keyword_in());
            *s == k
        },
        _ => false,
    }
}

fn is_dot(t: &Token, must_join: bool) -> (r: bool)
    ensures
        r == (view_token(*t) is Punct && view_token(*t)->Punct_0 == '.' && (must_join
            ==> view_token(*t)->Punct_1)),
{
    match t {
        Token::Punct(c, joint) => *c == '.' && (!must_join || *joint),
        _ => false,
    }
}

/// Parses `param in start..end { body }`, taking the body out of the input; a token out of
/// place gives a `SyntaxError` at its index.
pub fn parse_header(tokens: Vec<Token>) -> (r: Result<Invocation, SyntaxError>)
    ensures
        match parse_spec(view_tokens(tokens@)) {
            Ok(inv) => r is Ok && r->Ok_0@ == inv,
            Err(e) => r == Err::<Invocation, SyntaxError>(e),
        },
{
    let ghost v = view_tokens(tokens@);
    proof {
        lemma_view_tokens_index(tokens@);
    }
    let n = tokens.len();
    let param = if n > 0 {
        param_text(&tokens[0])
    } else {
        None
    };
    let param = match param {
        Some(p) => p.clone(),
        None => {
            return Err(SyntaxError { position: 0, expected: Expected::Ident });
        },
    };
    if !(n > 1 && is_keyword_in(&tokens[1])) {
        return Err(SyntaxError { position: 1, expected: Expected::KeywordIn });
    }
    let start = if n > 2 {
        bound(&tokens[2])
    } else {
        None
    };
    let start = match start {
        Some(b) => b,
        None => {
            return Err(SyntaxError { position: 2, expected: Expected::IntLiteral });
        },
    };
    if !(n > 4 && is_dot(&tokens[3], true) && is_dot(&tokens[4], false)) {
        return Err(SyntaxError { position: 3, expected: Expected::Range });
    }
    let end = if n > 5 {
        bound(&tokens[5])
    } else {
        None
    };
    let end = match end {
        Some(b) => b,
        None => {
            return Err(SyntaxError { position: 5, expected: Expected::IntLiteral });
        },
    };
    let braced = n > 6 && match &tokens[6] {
        Token::Group(d, _) => *d == Delimiter::Brace,
        _ => false,
    };
    if !braced {
        return Err(SyntaxError { position: 6, expected: Expected::BraceGroup });
    }
    if n > 7 {
        return Err(SyntaxError { position: 7, expected: Expected::End });
    }
    let mut tokens = tokens;
    let last = tokens.pop();
    match last {
        Some(Token::Group(_, body)) => Ok(Invocation { param, start, end, body }),
        _ => Err(SyntaxError { position: 6, expected: Expected::BraceGroup }),
    }
}

} // verus!
