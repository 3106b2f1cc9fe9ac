use seq_gen::expand::{expand, substitute};
use seq_gen::header::{parse_header, Expected, SyntaxError};
use seq_gen::paste::paste;
use seq_gen::token::{Delimiter, Token};

fn id(s: &str) -> Token {
    Token::Ident(s.to_string())
}

fn lit(s: &str) -> Token {
    Token::Literal(s.to_string())
}

fn punct(c: char) -> Token {
    Token::Punct(c, false)
}

fn joint(c: char) -> Token {
    Token::Punct(c, true)
}

fn group(d: Delimiter, inner: Vec<Token>) -> Token {
    Token::Group(d, inner)
}

fn braces(inner: Vec<Token>) -> Token {
    group(Delimiter::Brace, inner)
}

/// `param in start..end { body }`
fn header(param: &str, start: &str, end: &str, body: Vec<Token>) -> Vec<Token> {
    vec![id(param), id("in"), lit(start), joint('.'), punct('.'), lit(end), braces(body)]
}

fn err(position: usize, expected: Expected) -> Result<Vec<Token>, SyntaxError> {
    Err(SyntaxError { position, expected })
}

#[test]
fn scenario_struct_names_are_pasted() {
    let body = vec![id("struct"), id("Foo"), punct('~'), id("N"), punct(';')];
    let input = header("N", "0", "3", body);
    let expected = vec![
        id("struct"),
        id("Foo0"),
        punct(';'),
        id("struct"),
        id("Foo1"),
        punct(';'),
        id("struct"),
        id("Foo2"),
        punct(';'),
    ];
    assert_eq!(seq_gen::seq(input), Ok(expected));
}

#[test]
fn scenario_expansion_before_pasting() {
    let body = vec![id("struct"), id("Foo"), punct('~'), id("N"), punct(';')];
    let expanded = expand(&body, &"N".to_string(), 0, 3);
    let mut expected = Vec::new();
    for n in ["0", "1", "2"] {
        expected.extend(vec![id("struct"), id("Foo"), punct('~'), lit(n), punct(';')]);
    }
    assert_eq!(expanded, expected);
}

#[test]
fn scenario_empty_range_gives_nothing() {
    let input = header("I", "5", "5", vec![id("anything")]);
    assert_eq!(seq_gen::seq(input), Ok(vec![]));
}

#[test]
fn reversed_range_gives_nothing() {
    let input = header("I", "7", "2", vec![id("I"), punct(';')]);
    assert_eq!(seq_gen::seq(input), Ok(vec![]));
    assert_eq!(expand(&vec![id("I")], &"I".to_string(), 9, 3), vec![]);
}

#[test]
fn scenario_missing_in_is_a_syntax_error() {
    let input = vec![id("I"), lit("0"), joint('.'), punct('.'), lit("3"), braces(vec![])];
    assert_eq!(seq_gen::seq(input), err(1, Expected::KeywordIn));
}

#[test]
fn scenario_nested_group_is_substituted() {
    let body = vec![
        id("mod"),
        id("m"),
        braces(vec![
            id("const"),
            id("X"),
            punct(':'),
            id("usize"),
            punct('='),
            id("I"),
            punct(';'),
        ]),
    ];
    let input = header("I", "0", "2", body);
    let copy = |n: &str| {
        vec![
            id("mod"),
            id("m"),
            braces(vec![
                id("const"),
                id("X"),
                punct(':'),
                id("usize"),
                punct('='),
                lit(n),
                punct(';'),
            ]),
        ]
    };
    let mut expected = copy("0");
    expected.extend(copy("1"));
    assert_eq!(seq_gen::seq(input), Ok(expected));
}

#[test]
fn substitute_keeps_other_tokens_at_every_depth() {
    let tokens = vec![
        id("a"),
        lit("\"I\""),
        punct('+'),
        group(
            Delimiter::Parenthesis,
            vec![group(Delimiter::Bracket, vec![id("J"), id("I"), id("II")])],
        ),
        group(Delimiter::Invisible, vec![id("i")]),
    ];
    let expected = vec![
        id("a"),
        lit("\"I\""),
        punct('+'),
        group(
            Delimiter::Parenthesis,
            vec![group(Delimiter::Bracket, vec![id("J"), lit("4"), id("II")])],
        ),
        group(Delimiter::Invisible, vec![id("i")]),
    ];
    assert_eq!(substitute(&tokens, &"I".to_string(), 4), expected);
}

#[test]
fn substitute_replaces_every_occurrence_without_suffix() {
    let tokens = vec![id("N"), punct('*'), id("N"), braces(vec![id("N")])];
    let expected = vec![lit("12"), punct('*'), lit("12"), braces(vec![lit("12")])];
    assert_eq!(substitute(&tokens, &"N".to_string(), 12), expected);
}

#[test]
fn substitute_writes_large_values_in_decimal() {
    let out = substitute(&vec![id("N")], &"N".to_string(), 4096);
    assert_eq!(out, vec![lit("4096")]);
    let out = substitute(&vec![id("N")], &"N".to_string(), usize::MAX);
    assert_eq!(out, vec![Token::Literal(usize::MAX.to_string())]);
}

#[test]
fn expand_makes_one_copy_per_integer() {
    let body = vec![id("f"), group(Delimiter::Parenthesis, vec![id("K")]), punct(';')];
    let out = expand(&body, &"K".to_string(), 3, 7);
    assert_eq!(out.len(), 4 * body.len());
    for (k, n) in ["3", "4", "5", "6"].iter().enumerate() {
        let copy = vec![id("f"), group(Delimiter::Parenthesis, vec![lit(n)]), punct(';')];
        assert_eq!(&out[3 * k..3 * (k + 1)], &copy[..]);
    }
}

#[test]
fn paste_fuses_identifier_tilde_literal() {
    let tokens = vec![id("x"), punct('~'), lit("3"), punct(';')];
    assert_eq!(paste(&tokens), vec![id("x3"), punct(';')]);
}

#[test]
fn paste_leaves_other_patterns_alone() {
    let cases = vec![
        vec![id("a"), punct('~'), id("b")],
        vec![lit("1"), punct('~'), lit("2")],
        vec![id("a"), punct('-'), lit("2")],
        vec![id("a"), lit("2")],
        vec![id("a"), punct('~')],
        vec![punct('~'), lit("2")],
    ];
    for tokens in cases {
        let kept = tokens.iter().map(copy_token).collect::<Vec<_>>();
        assert_eq!(paste(&tokens), kept);
    }
}

fn copy_token(t: &Token) -> Token {
    match t {
        Token::Ident(s) => Token::Ident(s.clone()),
        Token::Literal(s) => Token::Literal(s.clone()),
        Token::Punct(c, j) => Token::Punct(*c, *j),
        Token::Group(d, inner) => Token::Group(*d, inner.iter().map(copy_token).collect()),
    }
}

#[test]
fn paste_goes_into_groups() {
    let tokens = vec![braces(vec![group(
        Delimiter::Parenthesis,
        vec![id("v"), punct('~'), lit("10"), punct(',')],
    )])];
    let expected = vec![braces(vec![group(Delimiter::Parenthesis, vec![id("v10"), punct(',')])])];
    assert_eq!(paste(&tokens), expected);
}

#[test]
fn paste_does_not_reach_across_a_group_boundary() {
    let tokens = vec![id("a"), punct('~'), group(Delimiter::Parenthesis, vec![lit("1")])];
    let kept = tokens.iter().map(copy_token).collect::<Vec<_>>();
    assert_eq!(paste(&tokens), kept);
}

#[test]
fn paste_fuses_a_tilde_after_a_kept_tilde() {
    let tokens = vec![id("a"), punct('~'), id("b"), punct('~'), lit("1")];
    assert_eq!(paste(&tokens), vec![id("a"), punct('~'), id("b1")]);
}

#[test]
fn paste_twice_is_paste_once_when_nothing_is_left() {
    let tokens = vec![id("F"), punct('~'), lit("1"), id("x"), punct('~'), braces(vec![id("y")])];
    let once = paste(&tokens);
    assert_eq!(paste(&once), once);
}

#[test]
fn paste_chain_leaves_a_second_fusion() {
    let tokens = vec![id("a"), punct('~'), lit("1"), punct('~'), lit("2")];
    let once = paste(&tokens);
    assert_eq!(once, vec![id("a1"), punct('~'), lit("2")]);
    assert_eq!(paste(&once), vec![id("a12")]);
}

#[test]
fn header_is_parsed_into_its_parts() {
    let inv = parse_header(header("n", "2", "5", vec![id("n")])).unwrap();
    assert_eq!(inv.param, "n");
    assert_eq!(inv.start, 2);
    assert_eq!(inv.end, 5);
    assert_eq!(inv.body, vec![id("n")]);
}

#[test]
fn bounds_are_read_by_value() {
    let inv = parse_header(header("n", "0x10", "3usize", vec![])).unwrap();
    assert_eq!(inv.start, 16);
    assert_eq!(inv.end, 3);
    let inv = parse_header(header("n", "1_000", "0b11", vec![])).unwrap();
    assert_eq!(inv.start, 1000);
    assert_eq!(inv.end, 3);
}

#[test]
fn keyword_parameter_is_rejected() {
    assert_eq!(seq_gen::seq(header("fn", "0", "1", vec![])), err(0, Expected::Ident));
    assert_eq!(seq_gen::seq(header("_", "0", "1", vec![])), err(0, Expected::Ident));
    assert_eq!(seq_gen::seq(vec![lit("1")]), err(0, Expected::Ident));
    assert_eq!(seq_gen::seq(vec![]), err(0, Expected::Ident));
}

#[test]
fn raw_identifier_parameter_is_accepted() {
    let input = header("r#fn", "0", "1", vec![id("r#fn")]);
    assert_eq!(seq_gen::seq(input), Ok(vec![lit("0")]));
}

#[test]
fn bad_start_bound_is_rejected() {
    assert_eq!(seq_gen::seq(header("i", "x", "3", vec![])), err(2, Expected::IntLiteral));
    let mut input = header("i", "0", "3", vec![]);
    input[2] = id("zero");
    assert_eq!(seq_gen::seq(input), err(2, Expected::IntLiteral));
    assert_eq!(seq_gen::seq(header("i", "1.5", "3", vec![])), err(2, Expected::IntLiteral));
    let too_big = "99999999999999999999999999";
    assert_eq!(seq_gen::seq(header("i", too_big, "3", vec![])), err(2, Expected::IntLiteral));
    assert_eq!(seq_gen::seq(vec![id("i"), id("in")]), err(2, Expected::IntLiteral));
}

#[test]
fn missing_range_operator_is_rejected() {
    let mut input = header("i", "0", "3", vec![]);
    input[3] = punct('.');
    assert_eq!(seq_gen::seq(input), err(3, Expected::Range));
    let mut input = header("i", "0", "3", vec![]);
    input[4] = punct('=');
    assert_eq!(seq_gen::seq(input), err(3, Expected::Range));
}

#[test]
fn bad_end_bound_is_rejected() {
    assert_eq!(seq_gen::seq(header("i", "0", "\"3\"", vec![])), err(5, Expected::IntLiteral));
}

#[test]
fn body_must_be_braced() {
    let mut input = header("i", "0", "3", vec![]);
    input[6] = group(Delimiter::Parenthesis, vec![id("i")]);
    assert_eq!(seq_gen::seq(input), err(6, Expected::BraceGroup));
    let mut input = header("i", "0", "3", vec![]);
    input.pop();
    assert_eq!(seq_gen::seq(input), err(6, Expected::BraceGroup));
}

#[test]
fn nothing_may_follow_the_body() {
    let mut input = header("i", "0", "3", vec![]);
    input.push(punct(';'));
    assert_eq!(seq_gen::seq(input), err(7, Expected::End));
}
