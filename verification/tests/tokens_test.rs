use patlang::tokens::{
    has_pair, is_operator_token, single_char_to_token, string_to, tre_chars_to_token,
    two_chars_to_token, Token,
};

fn ident(s: &str) -> Token {
    Token::Identifier(s.chars().collect())
}

fn text_of(t: &Token) -> String {
    match t {
        Token::AND => "&&".to_string(),
        Token::Add => "+".to_string(),
        Token::ArgTerm => ",".to_string(),
        Token::Assign => "=".to_string(),
        Token::CodeEnd => "\\".to_string(),
        Token::CodeStart => "/".to_string(),
        Token::CommentEnd => "*/".to_string(),
        Token::CommentStart => "/*".to_string(),
        Token::END => "end".to_string(),
        Token::Eq => "==".to_string(),
        Token::FunStart => ":".to_string(),
        Token::Identifier(name) => name.iter().collect(),
        Token::LeftB => "[".to_string(),
        Token::LeftP => "(".to_string(),
        Token::LeftW => "{".to_string(),
        Token::MUL => "*".to_string(),
        Token::NEQ => "=/=".to_string(),
        Token::Pipe => "|".to_string(),
        Token::Qualify => "::".to_string(),
        Token::RightB => "]".to_string(),
        Token::RightP => ")".to_string(),
        Token::RightW => "}".to_string(),
        Token::SUB => "-".to_string(),
    }
}

fn round_trip(src: &str) -> String {
    let tokens = string_to(src.to_string());
    let mut out = String::new();
    for t in tokens.iter() {
        out.push_str(&text_of(t));
    }
    out
}

#[test]
fn tokenizes_a_sum() {
    assert_eq!(string_to("a+b".to_string()), vec![ident("a"), Token::Add, ident("b")]);
}

#[test]
fn empty_text_has_no_tokens() {
    assert_eq!(string_to(String::new()), Vec::<Token>::new());
}

#[test]
fn trailing_identifier_is_flushed() {
    assert_eq!(string_to("abc".to_string()), vec![ident("abc")]);
    assert_eq!(string_to("(abc".to_string()), vec![Token::LeftP, ident("abc")]);
}

#[test]
fn single_character_text() {
    assert_eq!(string_to("x".to_string()), vec![ident("x")]);
    assert_eq!(string_to("+".to_string()), vec![Token::Add]);
}

#[test]
fn equality_is_not_two_assignments() {
    assert_eq!(string_to("a==b".to_string()), vec![ident("a"), Token::Eq, ident("b")]);
    assert_eq!(string_to("a=b".to_string()), vec![ident("a"), Token::Assign, ident("b")]);
    assert_eq!(string_to("==".to_string()), vec![Token::Eq]);
    assert_eq!(string_to("===".to_string()), vec![Token::Eq, Token::Assign]);
}

#[test]
fn inequality_is_one_token() {
    assert_eq!(string_to("a=/=b".to_string()), vec![ident("a"), Token::NEQ, ident("b")]);
    assert_eq!(string_to("=/=".to_string()), vec![Token::NEQ]);
}

#[test]
fn end_is_a_keyword_wherever_it_stands() {
    assert_eq!(string_to("f:end".to_string()), vec![ident("f"), Token::FunStart, Token::END]);
    assert_eq!(string_to("send".to_string()), vec![ident("s"), Token::END]);
    assert_eq!(string_to("en".to_string()), vec![ident("en")]);
}

#[test]
fn comment_delimiters() {
    assert_eq!(
        string_to("/*c*/".to_string()),
        vec![Token::CommentStart, ident("c"), Token::CommentEnd]
    );
    assert_eq!(string_to("a*/".to_string()), vec![ident("a"), Token::CommentEnd]);
    assert_eq!(string_to("/x".to_string()), vec![Token::CodeStart, ident("x")]);
}

#[test]
fn qualifier_is_one_token() {
    assert_eq!(
        string_to("log::rust(x)".to_string()),
        vec![
            ident("log"),
            Token::Qualify,
            ident("rust"),
            Token::LeftP,
            ident("x"),
            Token::RightP
        ]
    );
    assert_eq!(string_to("f:".to_string()), vec![ident("f"), Token::FunStart]);
}

#[test]
fn logical_and_needs_both_characters() {
    assert_eq!(string_to("a&&b".to_string()), vec![ident("a"), Token::AND, ident("b")]);
    assert_eq!(string_to("a&b".to_string()), vec![ident("a&b")]);
}

#[test]
fn every_single_character_token() {
    assert_eq!(
        string_to("+()[]{},|/\\:*-=".to_string()),
        vec![
            Token::Add,
            Token::LeftP,
            Token::RightP,
            Token::LeftB,
            Token::RightB,
            Token::LeftW,
            Token::RightW,
            Token::ArgTerm,
            Token::Pipe,
            Token::CodeStart,
            Token::CodeEnd,
            Token::FunStart,
            Token::MUL,
            Token::SUB,
            Token::Assign
        ]
    );
}

#[test]
fn numbers_and_booleans_stay_identifiers() {
    assert_eq!(string_to("12".to_string()), vec![ident("12")]);
    assert_eq!(string_to("true".to_string()), vec![ident("true")]);
    assert_eq!(string_to("1-2".to_string()), vec![ident("1"), Token::SUB, ident("2")]);
}

#[test]
fn tokenizes_a_function_definition() {
    assert_eq!(
        string_to("f:(0)/10\\(N)/20\\end".to_string()),
        vec![
            ident("f"),
            Token::FunStart,
            Token::LeftP,
            ident("0"),
            Token::RightP,
            Token::CodeStart,
            ident("10"),
            Token::CodeEnd,
            Token::LeftP,
            ident("N"),
            Token::RightP,
            Token::CodeStart,
            ident("20"),
            Token::CodeEnd,
            Token::END
        ]
    );
}

#[test]
fn token_texts_give_the_source_back() {
    for src in [
        "",
        "x",
        "abc",
        "a+b",
        "a==b=/=c&&d",
        "f:(0)/10\\(N)/20\\end",
        "g:(x){x==1}/1\\{x==2}/2\\/3\\end",
        "/*note*/main:()/log::rust(x)\\end",
        "[H|T],[a,b]",
        "send&end==",
        "a&b*/c",
    ] {
        assert_eq!(round_trip(src), src);
    }
}

#[test]
fn openers_have_their_closers() {
    assert_eq!(has_pair(&Token::CommentStart), Some(Token::CommentEnd));
    assert_eq!(has_pair(&Token::LeftP), Some(Token::RightP));
    assert_eq!(has_pair(&Token::LeftB), Some(Token::RightB));
    assert_eq!(has_pair(&Token::LeftW), Some(Token::RightW));
    assert_eq!(has_pair(&Token::CodeStart), Some(Token::CodeEnd));
    assert_eq!(has_pair(&Token::FunStart), Some(Token::END));
}

#[test]
fn other_tokens_have_no_closer() {
    assert_eq!(has_pair(&Token::RightP), None);
    assert_eq!(has_pair(&Token::END), None);
    assert_eq!(has_pair(&Token::Add), None);
    assert_eq!(has_pair(&ident("x")), None);
    assert_eq!(has_pair(&Token::Qualify), None);
}

#[test]
fn operators_are_recognized() {
    for t in [Token::Add, Token::Eq, Token::NEQ, Token::AND, Token::MUL, Token::SUB] {
        assert!(is_operator_token(&t));
    }
    for t in [Token::Assign, Token::ArgTerm, Token::Pipe, Token::LeftP, ident("+"), Token::Qualify]
    {
        assert!(!is_operator_token(&t));
    }
}

#[test]
fn character_matchers_fall_back_to_shorter_tokens() {
    assert_eq!(single_char_to_token('+'), Some((Token::Add, 1)));
    assert_eq!(single_char_to_token('a'), None);
    assert_eq!(two_chars_to_token('=', '='), Some((Token::Eq, 2)));
    assert_eq!(two_chars_to_token('=', 'a'), Some((Token::Assign, 1)));
    assert_eq!(two_chars_to_token('a', '='), None);
    assert_eq!(tre_chars_to_token('e', 'n', 'd'), Some((Token::END, 3)));
    assert_eq!(tre_chars_to_token('=', '/', '='), Some((Token::NEQ, 3)));
    assert_eq!(tre_chars_to_token('=', '=', 'x'), Some((Token::Eq, 2)));
    assert_eq!(tre_chars_to_token(':', ':', 'x'), Some((Token::Qualify, 2)));
    assert_eq!(tre_chars_to_token('e', 'n', 'x'), None);
}

#[test]
fn tokens_compare_by_their_text() {
    assert_eq!(ident("ab"), ident("ab"));
    assert_ne!(ident("ab"), ident("ac"));
    assert_ne!(ident("ab"), ident("abc"));
    assert_ne!(ident("+"), Token::Add);
    assert_eq!(ident("ab").clone(), ident("ab"));
    assert_eq!(Token::NEQ.clone(), Token::NEQ);
}
