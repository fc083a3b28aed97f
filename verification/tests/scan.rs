use lexer::scanner::Lexer;
use lexer::token::Token;

fn collect_tokens(source: &str) -> Vec<Token> {
    let mut l = Lexer::new(source);
    let mut out: Vec<Token> = Vec::new();
    while let Some(t) = l.next() {
        out.push(t);
    }
    out
}

#[test]
fn test() {
    let source = "four = 2 + 2; omg = 12345 / 0;";

    let expect = &[
        Token::Identifier,
        Token::Assign,
        Token::Number,
        Token::Add,
        Token::Number,
        Token::Semicolon,
        Token::Identifier,
        Token::Assign,
        Token::Number,
        Token::Divide,
        Token::Number,
        Token::Semicolon,
    ];

    let lexer = Lexer::new(source);
    println!("{:?}", lexer);

    assert!(collect_tokens(source) == expect.to_vec());
}

#[test]
fn identifier_run_is_one_token() {
    assert_eq!(collect_tokens("a"), vec![Token::Identifier]);
    assert_eq!(collect_tokens("_"), vec![Token::Identifier]);
    assert_eq!(collect_tokens("abc"), vec![Token::Identifier]);
    assert_eq!(collect_tokens("abc_XYZ_q"), vec![Token::Identifier]);
    assert_eq!(
        collect_tokens("zzzzzzzzzzzzzzzzzzzzzzzzzzzzzzzz"),
        vec![Token::Identifier]
    );
}

#[test]
fn number_run_is_one_token() {
    assert_eq!(collect_tokens("0"), vec![Token::Number]);
    assert_eq!(collect_tokens("42"), vec![Token::Number]);
    assert_eq!(collect_tokens("00123456789"), vec![Token::Number]);
}

#[test]
fn each_operator_in_isolation() {
    let cases = [
        ("+", Token::Add),
        ("-", Token::Subtract),
        ("*", Token::Multiply),
        ("/", Token::Divide),
        ("=", Token::Assign),
        (";", Token::Semicolon),
    ];
    for (source, expected) in cases.iter() {
        let mut l = Lexer::new(source);
        assert_eq!(l.next(), Some(*expected));
        assert_eq!(l.next(), None);
        assert_eq!(l.next(), None);
    }
}

#[test]
fn whitespace_only_is_empty() {
    assert_eq!(collect_tokens(""), Vec::<Token>::new());
    assert_eq!(collect_tokens(" "), Vec::<Token>::new());
    assert_eq!(collect_tokens("\t"), Vec::<Token>::new());
    assert_eq!(collect_tokens("\n"), Vec::<Token>::new());
    assert_eq!(collect_tokens("  \t\n \n\t  "), Vec::<Token>::new());
    let mut l = Lexer::new(" \t\n");
    assert_eq!(l.next(), None);
    assert_eq!(l.next(), None);
}

#[test]
fn extra_whitespace_changes_nothing() {
    let reference = collect_tokens("x=1");
    assert_eq!(
        reference,
        vec![Token::Identifier, Token::Assign, Token::Number]
    );
    assert_eq!(collect_tokens("x =1"), reference);
    assert_eq!(collect_tokens("x = 1"), reference);
    assert_eq!(collect_tokens("x\t \n= \t1\n"), reference);
    assert_eq!(collect_tokens("  x  =  1  "), reference);
}

#[test]
fn assignment_scenario() {
    let mut l = Lexer::new("x=1");
    assert_eq!(l.next(), Some(Token::Identifier));
    assert_eq!(l.next(), Some(Token::Assign));
    assert_eq!(l.next(), Some(Token::Number));
    assert_eq!(l.next(), None);
    assert_eq!(l.next(), None);
}

#[test]
fn unrecognized_character_halts() {
    let mut l = Lexer::new("a#b");
    assert_eq!(l.next(), Some(Token::Identifier));
    assert_eq!(l.next(), None);
    assert_eq!(l.next(), None);
    assert_eq!(l.next(), None);
}

#[test]
fn halt_is_permanent_despite_later_tokens() {
    let mut l = Lexer::new("a # b + 1;");
    assert_eq!(l.next(), Some(Token::Identifier));
    assert_eq!(l.next(), None);
    assert_eq!(l.next(), None);
    assert_eq!(l.next(), None);
}

#[test]
fn unrecognized_character_at_start() {
    assert_eq!(collect_tokens("#"), Vec::<Token>::new());
    assert_eq!(collect_tokens(" \t#ab"), Vec::<Token>::new());
    assert_eq!(collect_tokens("?1"), Vec::<Token>::new());
}

#[test]
fn two_lexers_over_same_input_are_independent() {
    let source = "four = 2 + 2; omg = 12345 / 0;";

    // Exhaust one instance completely before the other starts.
    let first = collect_tokens(source);
    let second = collect_tokens(source);
    assert_eq!(first, second);
    assert_eq!(first.len(), 12);

    // Interleaved advancement: the instances do not disturb each other.
    let mut a = Lexer::new(source);
    let mut b = Lexer::new(source);
    let mut from_a: Vec<Token> = Vec::new();
    loop {
        let ta = a.next();
        let tb = b.next();
        assert_eq!(ta, tb);
        match ta {
            Some(t) => from_a.push(t),
            None => break,
        }
    }
    assert_eq!(from_a, first);
}

#[test]
fn adjacent_operators_each_yield_a_token() {
    assert_eq!(collect_tokens("+-"), vec![Token::Add, Token::Subtract]);
    assert_eq!(
        collect_tokens("*/=;"),
        vec![
            Token::Multiply,
            Token::Divide,
            Token::Assign,
            Token::Semicolon,
        ]
    );
}

#[test]
fn digits_end_an_identifier_run() {
    assert_eq!(
        collect_tokens("ab12cd"),
        vec![Token::Identifier, Token::Number, Token::Identifier]
    );
    assert_eq!(
        collect_tokens("x1"),
        vec![Token::Identifier, Token::Number]
    );
}

#[test]
fn end_of_input_ends_a_run() {
    let mut l = Lexer::new("foo = 123");
    assert_eq!(l.next(), Some(Token::Identifier));
    assert_eq!(l.next(), Some(Token::Assign));
    assert_eq!(l.next(), Some(Token::Number));
    assert_eq!(l.next(), None);
}
