use vstd::prelude::*;

verus! {

/// The bracket kind of a group.
#[derive(Clone, Copy, Debug, PartialEq, Eq, Structural)]
pub enum Delimiter {
    Parenthesis,
    Brace,
    Bracket,
    /// A group without visible delimiters.
    Invisible,
}

/// One node of a token tree.
#[derive(Debug, PartialEq, Eq)]
pub enum Token {
    /// An identifier or keyword, by its text.
    Ident(String),
    /// A literal, by its source text (`3`, `"a"`, `1u8`).
    Literal(String),
    /// One punctuation character, and whether it is joined to the next one (as in `..`).
    Punct(char, bool),
    /// A delimited group owning its interior.
    Group(Delimiter, Vec<Token>),
}

/// The mathematical model of a token.
pub enum TokenView {
    Ident(Seq<char>),
    Literal(Seq<char>),
    Punct(char, bool),
    Group(Delimiter, Seq<TokenView>),
}

pub open spec fn view_token(t: Token) -> TokenView
    decreases t,
{
    match t {
        Token::Ident(s) => TokenView::Ident(s@),
        Token::Literal(s) => TokenView::Literal(s@),
        Token::Punct(c, j) => TokenView::Punct(c, j),
        Token::Group(d, v) => TokenView::Group(d, view_tokens(v@)),
    }
}

pub open spec fn view_tokens(s: Seq<Token>) -> Seq<TokenView>
    decreases s,
    via view_tokens_decreases
{
    if s.len() == 0 {
        Seq::empty()
    } else {
        view_tokens(s.drop_last()).push(view_token(s.last()))
    }
}

#[via_fn]
proof fn view_tokens_decreases(s: Seq<Token>) {
    if s.len() > 0 {
        vstd::seq::axiom_seq_len_decreases(s, s.drop_last());
    }
}

pub proof fn lemma_view_tokens_push(s: Seq<Token>, t: Token)
    ensures
        view_tokens(s.push(t)) == view_tokens(s).push(view_token(t)),
{
    assert(s.push(t).drop_last() =~= s);
}

pub proof fn lemma_view_tokens_index(s: Seq<Token>)
    ensures
        view_tokens(s).len() == s.len(),
        forall|i: int| 0 <= i < s.len() ==> #[trigger] view_tokens(s)[i] == view_token(s[i]),
    decreases s.len(),
{
    if s.len() > 0 {
        lemma_view_tokens_index(s.drop_last());
    }
}

pub proof fn lemma_view_tokens_take(s: Seq<Token>, i: int)
    requires
        0 <= i < s.len(),
    ensures
        view_tokens(s.take(i + 1)) == view_tokens(s.take(i)).push(view_token(s[i])),
{
    assert(s.take(i + 1).drop_last() =~= s.take(i));
}

pub proof fn lemma_view_tokens_append(a: Seq<Token>, b: Seq<Token>)
    ensures
        view_tokens(a + b) == view_tokens(a) + view_tokens(b),
    decreases b.len(),
{
    if b.len() == 0 {
        assert(a + b =~= a);
        assert(view_tokens(a) + view_tokens(b) =~= view_tokens(a));
    } else {
        assert((a + b).drop_last() =~= a + b.drop_last());
        lemma_view_tokens_append(a, b.drop_last());
        assert(view_tokens(a) + view_tokens(b) =~= (view_tokens(a) + view_tokens(b.drop_last())).push(
            view_token(b.last()),
        ));
    }
}

} // verus!
