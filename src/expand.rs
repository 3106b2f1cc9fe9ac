use vstd::prelude::*;
use crate::token::{
    Token,
    TokenView,
    view_token,
    view_tokens,
    lemma_view_tokens_push,
    lemma_view_tokens_take,
    lemma_view_tokens_append,
};

verus! {

pub open spec fn digit_char(d: nat) -> char {
    seq!['0', '1', '2', '3', '4', '5', '6', '7', '8', '9'][d as int]
}

/// The decimal digits of `n`, most significant first, without sign or suffix.
pub open spec fn decimal(n: nat) -> Seq<char>
    decreases n,
{
    if n < 10 {
        seq![digit_char(n)]
    } else {
        decimal(n / 10).push(digit_char(n % 10))
    }
}

/// A token with every identifier `name` replaced by the literal `lit`, at every depth.
pub open spec fn subst_token(t: TokenView, name: Seq<char>, lit: Seq<char>) -> TokenView
    decreases t,
{
    match t {
        TokenView::Ident(s) => if s == name {
            TokenView::Literal(lit)
        } else {
            t
        },
        TokenView::Group(d, inner) => TokenView::Group(d, subst_tokens(inner, name, lit)),
        _ => t,
    }
}

pub open spec fn subst_tokens(s: Seq<TokenView>, name: Seq<char>, lit: Seq<char>) -> Seq<TokenView>
    decreases s,
    via subst_tokens_decreases
{
    if s.len() == 0 {
        Seq::empty()
    } else {
        subst_tokens(s.drop_last(), name, lit).push(subst_token(s.last(), name, lit))
    }
}

#[via_fn]
proof fn subst_tokens_decreases(s: Seq<TokenView>, name: Seq<char>, lit: Seq<char>) {
    if s.len() > 0 {
        vstd::seq::axiom_seq_len_decreases(s, s.drop_last());
    }
}

/// The copies of `body` for `start <= i < end`, in ascending order of `i`, each with `name`
/// replaced by the decimal literal of `i`.
pub open spec fn expand_spec(body: Seq<TokenView>, name: Seq<char>, start: nat, end: nat) -> Seq<
    TokenView,
>
    decreases end,
{
    if end <= start {
        Seq::empty()
    } else {
        expand_spec(body, name, start, (end - 1) as nat) + subst_tokens(
            body,
            name,
            decimal((end - 1) as nat),
        )
    }
}

pub proof fn lemma_subst_tokens_push(s: Seq<TokenView>, t: TokenView, name: Seq<char>, lit: Seq<char>)
    ensures
        subst_tokens(s.push(t), name, lit) == subst_tokens(s, name, lit).push(subst_token(t, name, lit)),
{
    assert(s.push(t).drop_last() =~= s);
}

/// Relies on proc_macro2::Literal::usize_unsuffixed and its `Display`: the literal's text is
/// the value's decimal digits, with no suffix.
#[verifier::external_body]
fn usize_literal_text(value: usize) -> (r: String)
    ensures
        r@ == decimal(value as nat),
{
    proc_macro2::Literal::usize_unsuffixed(value).to_string()
}

/// Replaces every identifier `name`, at every depth, by the unsuffixed decimal literal of
/// `value`; every other token is kept as it is.
pub fn substitute(tokens: &Vec<Token>, name: &String, value: usize) -> (r: Vec<Token>)
    ensures
        view_tokens(r@) == subst_tokens(view_tokens(tokens@), name@, decimal(value as nat)),
    decreases tokens,
{
    let ghost lit = decimal(value as nat);
    let mut out: Vec<Token> = Vec::new();
    let mut i: usize = 0;
    while i < tokens.len()
        invariant
            i <= tokens.len(),
            lit == decimal(value as nat),
            view_tokens(out@) == subst_tokens(view_tokens(tokens@.take(i as int)), name@, lit),
        decreases tokens.len() - i,
    {
        let t = match &tokens[i] {
            Token::Ident(s) => {
                if *s == *name {
                    Token::Literal(usize_literal_text(value))
                } else {
                    Token::Ident(s.clone())
                }
            },
            Token::Literal(s) => Token::Literal(s.clone()),
            Token::Punct(c, j) => Token::Punct(*c, *j),
            Token::Group(d, inner) => {
                proof {
                    assert(decreases_to!(tokens@[i as int] => inner));
                }
                Token::Group(*d, substitute(inner, name, value))
            },
        };
        proof {
            lemma_view_tokens_take(tokens@, i as int);
            lemma_view_tokens_push(out@, t);
            let v = view_tokens(tokens@.take(i as int));
            assert(view_token(t) == subst_token(view_token(tokens@[i as int]), name@, lit));
            lemma_subst_tokens_push(v, view_token(tokens@[i as int]), name@, lit);
        }
        out.push(t);
        i = i + 1;
    }
    proof {
        assert(tokens@.take(tokens@.len() as int) =~= tokens@);
    }
    out
}

/// The copies of `body` for every `i` with `start <= i < end`, in ascending order of `i`,
/// each made by `substitute(body, name, i)`; empty when `start >= end`.
pub fn expand(body: &Vec<Token>, name: &String, start: usize, end: usize) -> (r: Vec<Token>)
    ensures
        view_tokens(r@) == expand_spec(view_tokens(body@), name@, start as nat, end as nat),
{
    let mut out: Vec<Token> = Vec::new();
    if start >= end {
        return out;
    }
    let mut i: usize = start;
    while i < end
        invariant
            start <= i <= end,
            view_tokens(out@) == expand_spec(view_tokens(body@), name@, start as nat, i as nat),
        decreases end - i,
    {
        let mut copy = substitute(body, name, i);
        proof {
            lemma_view_tokens_append(out@, copy@);
        }
        out.append(&mut copy);
        i = i + 1;
    }
    out
}

/// Whether the identifier `name` occurs in `t`, at any depth.
pub open spec fn mentions_token(t: TokenView, name: Seq<char>) -> bool
    decreases t,
{
    match t {
        TokenView::Ident(s) => s == name,
        TokenView::Group(_, inner) => mentions_tokens(inner, name),
        _ => false,
    }
}

pub open spec fn mentions_tokens(s: Seq<TokenView>, name: Seq<char>) -> bool
    decreases s,
    via mentions_tokens_decreases
{
    if s.len() == 0 {
        false
    } else {
        mentions_tokens(s.drop_last(), name) || mentions_token(s.last(), name)
    }
}

#[via_fn]
proof fn mentions_tokens_decreases(s: Seq<TokenView>, name: Seq<char>) {
    if s.len() > 0 {
        vstd::seq::axiom_seq_len_decreases(s, s.drop_last());
    }
}

/// Substitution maps each token on its own, in place: an identifier `name` becomes the
/// literal, a group keeps its delimiter and has its interior substituted, and every other
/// token (a literal, a punctuation, another identifier) stays as it is.
pub proof fn lemma_subst_tokens_index(s: Seq<TokenView>, name: Seq<char>, lit: Seq<char>)
    ensures
        subst_tokens(s, name, lit).len() == s.len(),
        forall|i: int|
            0 <= i < s.len() ==> #[trigger] subst_tokens(s, name, lit)[i] == subst_token(
                s[i],
                name,
                lit,
            ),
    decreases s.len(),
{
    if s.len() > 0 {
        lemma_subst_tokens_index(s.drop_last(), name, lit);
    }
}

/// A sequence in which `name` occurs at no depth comes out of substitution unchanged.
pub proof fn lemma_subst_untouched(s: Seq<TokenView>, name: Seq<char>, lit: Seq<char>)
    requires
        !mentions_tokens(s, name),
    ensures
        subst_tokens(s, name, lit) == s,
    decreases s,
{
    if s.len() > 0 {
        vstd::seq::axiom_seq_len_decreases(s, s.drop_last());
        lemma_subst_untouched(s.drop_last(), name, lit);
        let t = s.last();
        assert(!mentions_token(t, name));
        match t {
            TokenView::Group(d, inner) => {
                assert(decreases_to!(s => t));
                assert(!mentions_tokens(inner, name));
                lemma_subst_untouched(inner, name, lit);
            },
            TokenView::Ident(x) => {
                assert(x != name);
            },
            _ => {},
        }
        assert(subst_token(t, name, lit) == t);
        assert(s.drop_last().push(t) =~= s);
    }
}

/// After substitution no identifier `name` is left at any depth.
pub proof fn lemma_subst_replaces_all(s: Seq<TokenView>, name: Seq<char>, lit: Seq<char>)
    ensures
        !mentions_tokens(subst_tokens(s, name, lit), name),
    decreases s,
{
    if s.len() > 0 {
        vstd::seq::axiom_seq_len_decreases(s, s.drop_last());
        lemma_subst_replaces_all(s.drop_last(), name, lit);
        let t = s.last();
        if let TokenView::Group(d, inner) = t {
            assert(decreases_to!(s => t));
            lemma_subst_replaces_all(inner, name, lit);
        }
        assert(!mentions_token(subst_token(t, name, lit), name));
        let r = subst_tokens(s, name, lit);
        assert(r.drop_last() =~= subst_tokens(s.drop_last(), name, lit));
        assert(r.last() == subst_token(t, name, lit));
    }
}

/// The literal put in place of the parameter holds decimal digits only, with no sign or suffix.
pub proof fn lemma_decimal_digits(n: nat)
    ensures
        decimal(n).len() > 0,
        forall|i: int| 0 <= i < decimal(n).len() ==> '0' <= #[trigger] decimal(n)[i] <= '9',
    decreases n,
{
    if n >= 10 {
        lemma_decimal_digits(n / 10);
    }
}

/// An empty or reversed range gives no tokens, whatever the body.
pub proof fn lemma_expand_empty_range(body: Seq<TokenView>, name: Seq<char>, start: nat, end: nat)
    requires
        start >= end,
    ensures
        expand_spec(body, name, start, end) == Seq::<TokenView>::empty(),
{
}

/// The expansion is `end - start` copies of the body laid end to end: copy `k` is the body
/// with `name` replaced by the decimal literal of `start + k`.
pub proof fn lemma_expand_copies(body: Seq<TokenView>, name: Seq<char>, start: nat, end: nat)
    requires
        start <= end,
    ensures
        expand_spec(body, name, start, end).len() == (end - start) * body.len(),
        forall|k: int|
            0 <= k < end - start ==> #[trigger] expand_spec(body, name, start, end).subrange(
                k * body.len(),
                (k + 1) * body.len(),
            ) == subst_tokens(body, name, decimal((start + k) as nat)),
    decreases end,
{
    let l = body.len() as int;
    if end > start {
        let prev = (end - 1) as nat;
        lemma_expand_copies(body, name, start, prev);
        let a = expand_spec(body, name, start, prev);
        let b = subst_tokens(body, name, decimal(prev));
        lemma_subst_tokens_index(body, name, decimal(prev));
        let e = expand_spec(body, name, start, end);
        assert(e == a + b);
        assert(a.len() == (prev - start) * l);
        assert((end - start) * l == (prev - start) * l + l) by (nonlinear_arith)
            requires
                end == prev + 1,
                prev >= start,
        ;
        assert forall|k: int| 0 <= k < end - start implies #[trigger] e.subrange(k * l, (k + 1) * l)
            == subst_tokens(body, name, decimal((start + k) as nat)) by {
            if k < prev - start {
                assert((k + 1) * l <= (prev - start) * l) by (nonlinear_arith)
                    requires
                        k + 1 <= prev - start,
                        l >= 0,
                ;
                assert(k * l >= 0) by (nonlinear_arith)
                    requires
                        k >= 0,
                        l >= 0,
                ;
                assert(e.len() == a.len() + b.len());
                assert((k + 1) * l <= a.len());
                assert(k * l <= (k + 1) * l) by (nonlinear_arith)
                    requires
                        l >= 0,
                ;
                let lo = k * l;
                let hi = (k + 1) * l;
                assert(e.subrange(lo, hi) =~= a.subrange(lo, hi));
            } else {
                assert(k == prev - start);
                assert((k + 1) * l == k * l + l) by (nonlinear_arith);
                assert(e.subrange(k * l, (k + 1) * l) =~= b);
            }
        }
    }
}

} // verus!
