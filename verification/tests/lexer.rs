use asynckit::remangle::lexer::{Lexer, Token};

#[test]
fn test_lexer() {
    assert_eq!(Lexer::new("a::b::c<d>").collect_tokens(),
               vec![Token::Ident("a"),
                    Token::Oper("::"),
                    Token::Ident("b"),
                    Token::Oper("::"),
                    Token::Ident("c"),
                    Token::Oper("<"),
                    Token::Ident("d"),
                    Token::Oper(">")]);
}

#[test]
fn lexer_keywords_and_arrows() {
    assert_eq!(Lexer::new("  <impl fn(&mut T) -> u8 for X>").collect_tokens(),
               vec![Token::Oper("<"),
                    Token::Oper("impl"),
                    Token::Oper("fn"),
                    Token::Oper("("),
                    Token::Oper("&"),
                    Token::Oper("mut"),
                    Token::Ident("T"),
                    Token::Oper(")"),
                    Token::Oper("->"),
                    Token::Ident("u8"),
                    Token::Oper("for"),
                    Token::Ident("X"),
                    Token::Oper(">")]);
}

#[test]
fn lexer_empty_and_spaces() {
    assert_eq!(Lexer::new("   ").collect_tokens(), vec![]);
    assert_eq!(Lexer::new("").collect_tokens(), vec![]);
    assert_eq!(Lexer::new("x-y").collect_tokens(),
               vec![Token::Ident("x"), Token::Oper("-"), Token::Ident("y")]);
}

#[test]
fn tokens_spell_the_input_without_spaces() {
    let input = " impl<T:: Foo>  for &mut [u8] -> fn() ";
    let text: String = Lexer::new(input)
        .collect_tokens()
        .iter()
        .map(|t| match t {
            Token::Ident(s) | Token::Oper(s) => *s,
        })
        .collect();
    assert_eq!(text, input.replace(' ', ""));
    let mut lexer = Lexer::new("   ");
    assert!(lexer.next_token().is_none());
    assert!(lexer.next_token().is_none());
}
