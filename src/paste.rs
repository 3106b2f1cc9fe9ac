use vstd::prelude::*;
use vstd::string::StringExecFns;
use crate::token::{
    Token,
    TokenView,
    view_token,
    view_tokens,
    lemma_view_tokens_push,
    lemma_view_tokens_index,
};

verus! {

pub open spec fn is_tilde(t: TokenView) -> bool {
    match t {
        TokenView::Punct(c, _) => c == '~',
        _ => false,
    }
}

/// `s[i]`, `s[i + 1]`, `s[i + 2]` are an identifier, a `~` and a literal.
pub open spec fn fuses_at(s: Seq<TokenView>, i: int) -> bool {
    &&& 0 <= i
    &&& i + 2 < s.len()
    &&& s[i] is Ident
    &&& is_tilde(s[i + 1])
    &&& s[i + 2] is Literal
}

/// The identifier made of an identifier's text followed by a literal's text.
pub open spec fn fused(prefix: TokenView, suffix: TokenView) -> TokenView {
    TokenView::Ident(prefix->Ident_0 + suffix->Literal_0)
}

/// Left to right, each `identifier ~ literal` becomes one identifier; every group is pasted
/// inside; every other token is kept.
pub open spec fn paste_spec(s: Seq<TokenView>) -> Seq<TokenView>
    decreases s,
    via paste_spec_decreases
{
    if s.len() == 0 {
        Seq::empty()
    } else if fuses_at(s, 0) {
        seq![fused(s[0], s[2])] + paste_spec(s.skip(3))
    } else {
        seq![paste_token(s[0])] + paste_spec(s.skip(1))
    }
}

pub open spec fn paste_token(t: TokenView) -> TokenView
    decreases t,
{
    match t {
        TokenView::Group(d, inner) => TokenView::Group(d, paste_spec(inner)),
        _ => t,
    }
}

#[via_fn]
proof fn paste_spec_decreases(s: Seq<TokenView>) {
    if s.len() > 0 {
        if fuses_at(s, 0) {
            vstd::seq::axiom_seq_len_decreases(s, s.skip(3));
        } else {
            vstd::seq::axiom_seq_len_decreases(s, s.skip(1));
        }
    }
}

/// The identifier that `a ~ c` fuse into, when `a` is an identifier, `b` is `~` and `c` is a
/// literal.
fn fuse_triple(a: &Token, b: &Token, c: &Token) -> (r: Option<String>)
    ensures
        r is Some <==> (view_token(*a) is Ident && is_tilde(view_token(*b)) && view_token(*c) is Literal),
        r is Some ==> TokenView::Ident(r->Some_0@) == fused(view_token(*a), view_token(*c)),
{
    match (a, b, c) {
        (Token::Ident(p), Token::Punct(t, _), Token::Literal(l)) => {
            if *t == '~' {
                Some(p.clone().concat(l.as_str()))
            } else {
                None
            }
        },
        _ => None,
    }
}

/// Fuses each `identifier ~ literal` into one identifier, left to right and inside every group;
/// all other tokens are kept.
pub fn paste(tokens: &Vec<Token>) -> (r: Vec<Token>)
    ensures
        view_tokens(r@) == paste_spec(view_tokens(tokens@)),
    decreases tokens,
{
    let ghost v = view_tokens(tokens@);
    proof {
        lemma_view_tokens_index(tokens@);
        assert(v.skip(0) =~= v);
        assert(view_tokens(Seq::<Token>::empty()) + v =~= v);
    }
    let mut out: Vec<Token> = Vec::new();
    let mut i: usize = 0;
    while i < tokens.len()
        invariant
            i <= tokens.len(),
            v == view_tokens(tokens@),
            v.len() == tokens@.len(),
            forall|k: int| 0 <= k < tokens@.len() ==> #[trigger] v[k] == view_token(tokens@[k]),
            view_tokens(out@) + paste_spec(v.skip(i as int)) == paste_spec(v),
        decreases tokens.len() - i,
    {
        let ghost rest = v.skip(i as int);
        let ghost before = view_tokens(out@);
        let mut fusion: Option<String> = None;
        if tokens.len() - i > 2 {
            fusion = fuse_triple(&tokens[i], &tokens[i + 1], &tokens[i + 2]);
        }
        proof {
            assert(rest[0] == v[i as int]);
            if i + 2 < tokens.len() {
                assert(rest[1] == v[i + 1]);
                assert(rest[2] == v[i + 2]);
            }
            assert(fusion is Some <==> fuses_at(rest, 0));
        }
        match fusion {
            Some(text) => {
                let t = Token::Ident(text);
                proof {
                    lemma_view_tokens_push(out@, t);
                    assert(rest.skip(3) =~= v.skip(i + 3));
                    assert(before.push(view_token(t)) + paste_spec(rest.skip(3)) =~= before + (seq![
                        fused(rest[0], rest[2]),
                    ] + paste_spec(rest.skip(3))));
                }
                out.push(t);
                i = i + 3;
            },
            None => {
                let t = match &tokens[i] {
                    Token::Ident(s) => Token::Ident(s.clone()),
                    Token::Literal(s) => Token::Literal(s.clone()),
                    Token::Punct(c, j) => Token::Punct(*c, *j),
                    Token::Group(d, inner) => {
                        proof {
                            assert(decreases_to!(tokens@[i as int] => inner));
                        }
                        Token::Group(*d, paste(inner))
                    },
                };
                proof {
                    assert(view_token(t) == paste_token(v[i as int]));
                    lemma_view_tokens_push(out@, t);
                    assert(rest.skip(1) =~= v.skip(i + 1));
                    assert(before.push(view_token(t)) + paste_spec(rest.skip(1)) =~= before + (seq![
                        paste_token(rest[0]),
                    ] + paste_spec(rest.skip(1))));
                }
                out.push(t);
                i = i + 1;
            },
        }
    }
    proof {
        assert(v.skip(tokens@.len() as int) =~= Seq::<TokenView>::empty());
        assert(view_tokens(out@) + Seq::<TokenView>::empty() =~= view_tokens(out@));
    }
    out
}

/// Whether pasting finds nothing to fuse in `s`, at any depth.
pub open spec fn pastes_nothing(s: Seq<TokenView>) -> bool
    decreases s,
    via pastes_nothing_decreases
{
    s.len() == 0 || (!fuses_at(s, 0) && token_pastes_nothing(s[0]) && pastes_nothing(s.skip(1)))
}

pub open spec fn token_pastes_nothing(t: TokenView) -> bool
    decreases t,
{
    match t {
        TokenView::Group(_, inner) => pastes_nothing(inner),
        _ => true,
    }
}

#[via_fn]
proof fn pastes_nothing_decreases(s: Seq<TokenView>) {
    if s.len() > 0 {
        vstd::seq::axiom_seq_len_decreases(s, s.skip(1));
    }
}

/// One step of pasting: an identifier, a `~` and a literal in a row become the one identifier
/// whose text is the two texts joined; in any other case (an identifier then another
/// identifier, a literal first, a middle token other than `~`) the first token is kept, with
/// only a group's interior pasted, and the scan goes on at the next token.
pub proof fn lemma_paste_step(s: Seq<TokenView>)
    requires
        s.len() > 0,
    ensures
        fuses_at(s, 0) ==> paste_spec(s) == seq![
            TokenView::Ident(s[0]->Ident_0 + s[2]->Literal_0),
        ] + paste_spec(s.skip(3)),
        !fuses_at(s, 0) ==> paste_spec(s) == seq![paste_token(s[0])] + paste_spec(s.skip(1)),
        !fuses_at(s, 0) && !(s[0] is Group) ==> paste_spec(s)[0] == s[0],
{
}

/// Pasting leaves unchanged a sequence in which it finds nothing to fuse.
pub proof fn lemma_paste_fixed_point(s: Seq<TokenView>)
    requires
        pastes_nothing(s),
    ensures
        paste_spec(s) == s,
    decreases s,
{
    if s.len() > 0 {
        vstd::seq::axiom_seq_len_decreases(s, s.skip(1));
        lemma_paste_fixed_point(s.skip(1));
        let t = s[0];
        if let TokenView::Group(d, inner) = t {
            assert(decreases_to!(s => t));
            assert(token_pastes_nothing(t));
            assert(pastes_nothing(inner));
            lemma_paste_fixed_point(inner);
        }
        assert(paste_token(t) == t);
        assert(seq![t] + s.skip(1) =~= s);
    }
}

/// Pasting twice is pasting once, when the first pass leaves nothing to fuse.
pub proof fn lemma_paste_idempotent(s: Seq<TokenView>)
    requires
        pastes_nothing(paste_spec(s)),
    ensures
        paste_spec(paste_spec(s)) == paste_spec(s),
{
    lemma_paste_fixed_point(paste_spec(s));
}

} // verus!
