use tokenizer::lexer::tokenize;
use tokenizer::lexer::Lexer;
use tokenizer::lexer::Token;

#[test]
fn empty_input_yields_no_tokens() {
    assert_eq!(tokenize(""), vec![]);
}

#[test]
fn whitespace_only_input_yields_no_tokens() {
    assert_eq!(tokenize(" \t\n  "), vec![]);
}

#[test]
fn single_zero() {
    assert_eq!(tokenize("0"), vec![Token::Integer(0)]);
}

#[test]
fn single_integer() {
    assert_eq!(tokenize("123"), vec![Token::Integer(123)]);
}

#[test]
fn name_amid_whitespace() {
    assert_eq!(tokenize("  abc_1  "), vec![Token::Name("abc_1")]);
}

#[test]
fn mixed_stream() {
    assert_eq!(
        tokenize("+(   )_HELLO1_X_,234+FOO!994"),
        vec![
            Token::Literal('+'),
            Token::Literal('('),
            Token::Literal(')'),
            Token::Name("_HELLO1_X_"),
            Token::Literal(','),
            Token::Integer(234),
            Token::Literal('+'),
            Token::Name("FOO"),
            Token::Literal('!'),
            Token::Integer(994),
        ]
    );
}

#[test]
fn leading_zeros_parse_numerically() {
    assert_eq!(tokenize("0099"), vec![Token::Integer(99)]);
}

#[test]
fn adjacent_runs_split_greedily() {
    assert_eq!(
        tokenize("a1 1a"),
        vec![Token::Name("a1"), Token::Integer(1), Token::Name("a")]
    );
}

#[test]
fn maximal_munch_at_run_boundaries() {
    assert_eq!(
        tokenize("12ab_3"),
        vec![Token::Integer(12), Token::Name("ab_3")]
    );
}

#[test]
fn repeated_literals_come_one_at_a_time() {
    assert_eq!(
        tokenize("++"),
        vec![Token::Literal('+'), Token::Literal('+')]
    );
}

#[test]
fn determinism_across_fresh_instances() {
    let input = "+( foo )bar_9 10x";
    let first = tokenize(input);
    let second = tokenize(input);
    assert_eq!(first, second);
}

#[test]
fn whitespace_between_tokens_is_transparent() {
    let tight = tokenize("a +b");
    let spaced = tokenize("  a  \t +\n b ");
    assert_eq!(tight, spaced);
    assert_eq!(
        tight,
        vec![Token::Name("a"), Token::Literal('+'), Token::Name("b")]
    );
}

#[test]
fn exhaustion_is_idempotent() {
    let mut lexer = Lexer::new("x");
    assert_eq!(lexer.next_token(), Some(Token::Name("x")));
    assert_eq!(lexer.next_token(), None);
    assert_eq!(lexer.next_token(), None);
    assert_eq!(lexer.next_token(), None);
}

#[test]
fn exhaustion_on_trailing_whitespace() {
    let mut lexer = Lexer::new("7  ");
    assert_eq!(lexer.next_token(), Some(Token::Integer(7)));
    assert_eq!(lexer.next_token(), None);
    assert_eq!(lexer.next_token(), None);
}

#[test]
fn step_by_step_production() {
    let mut lexer = Lexer::new("ab 12!");
    assert_eq!(lexer.next_token(), Some(Token::Name("ab")));
    assert_eq!(lexer.next_token(), Some(Token::Integer(12)));
    assert_eq!(lexer.next_token(), Some(Token::Literal('!')));
    assert_eq!(lexer.next_token(), None);
}

#[test]
fn largest_value_fits() {
    assert_eq!(
        tokenize("18446744073709551615"),
        vec![Token::Integer(u64::MAX)]
    );
}

#[test]
fn overflowing_digits_wrap_around() {
    assert_eq!(tokenize("18446744073709551616"), vec![Token::Integer(0)]);
    assert_eq!(tokenize("18446744073709551626"), vec![Token::Integer(10)]);
}

#[test]
fn unicode_whitespace_is_skipped() {
    assert_eq!(
        tokenize("a\u{3000}b\u{00A0}1"),
        vec![Token::Name("a"), Token::Name("b"), Token::Integer(1)]
    );
}

#[test]
fn non_ascii_characters_are_literals() {
    assert_eq!(
        tokenize("h\u{e9}llo"),
        vec![
            Token::Name("h"),
            Token::Literal('\u{e9}'),
            Token::Name("llo"),
        ]
    );
}

#[test]
fn underscore_starts_a_name() {
    assert_eq!(tokenize("_9a"), vec![Token::Name("_9a")]);
}

#[test]
fn names_borrow_from_the_input() {
    let input = String::from("  spanned_name  ");
    let tokens = tokenize(&input);
    assert_eq!(tokens.len(), 1);
    match tokens[0] {
        Token::Name(name) => assert_eq!(name, "spanned_name"),
        _ => panic!("expected a name token"),
    }
}

#[test]
fn debug_form_names_variant_and_payload() {
    assert_eq!(format!("{:?}", Token::Integer(234)), "Integer(234)");
    assert_eq!(format!("{:?}", Token::Name("FOO")), "Name(\"FOO\")");
    assert_eq!(format!("{:?}", Token::Literal('+')), "Literal('+')");
}
