use rust_lox::scanner::{Init_Scanner, Scan_Token, Scanner, Token, TokenType};
use rust_lox::scanner::TokenType::{
    TokenAnd, TokenBang, TokenBangEqual, TokenClass, TokenComma, TokenDot, TokenElse, TokenEof,
    TokenEqual, TokenEqualEqual, TokenFalse, TokenFor, TokenFun, TokenGreater, TokenGreaterEqual,
    TokenIdentifier, TokenIf, TokenLeftBrace, TokenLeftParen, TokenLess, TokenLessEqual, TokenMinus,
    TokenNil, TokenOr, TokenPlus, TokenPrint, TokenReturn, TokenRightBrace, TokenRightParen,
    TokenSemicolon, TokenSlash, TokenStar, TokenSuper, TokenThis, TokenTrue, TokenVar, TokenWhile,
};

fn tokens(source: &str) -> Vec<Token> {
    let chars: Vec<char> = source.chars().collect();
    let mut scanner: Scanner = Init_Scanner(&chars);
    let mut out = Vec::new();
    loop {
        let t = Scan_Token(&mut scanner);
        out.push(t);
        if t.token_type == TokenType::TokenEof {
            return out;
        }
    }
}

fn kinds(source: &str) -> Vec<TokenType> {
    tokens(source).iter().map(|t| t.token_type).collect()
}

#[test]
fn punctuation_uses_maximal_munch() {
    assert_eq!(
        kinds("( ) { } , . - + ; / * ! != = == < <= > >="),
        vec![
            TokenLeftParen, TokenRightParen, TokenLeftBrace, TokenRightBrace, TokenComma, TokenDot,
            TokenMinus, TokenPlus, TokenSemicolon, TokenSlash, TokenStar, TokenBang, TokenBangEqual,
            TokenEqual, TokenEqualEqual, TokenLess, TokenLessEqual, TokenGreater, TokenGreaterEqual,
            TokenEof
        ]
    );
}

#[test]
fn keywords_and_identifiers() {
    assert_eq!(
        kinds("and class else false for fun if nil or print return super this true var while"),
        vec![
            TokenAnd, TokenClass, TokenElse, TokenFalse, TokenFor, TokenFun, TokenIf, TokenNil, TokenOr,
            TokenPrint, TokenReturn, TokenSuper, TokenThis, TokenTrue, TokenVar, TokenWhile, TokenEof
        ]
    );
    assert_eq!(
        kinds("andy f t fo _x x1 truer"),
        vec![
            TokenIdentifier, TokenIdentifier, TokenIdentifier, TokenIdentifier, TokenIdentifier,
            TokenIdentifier, TokenIdentifier, TokenEof
        ]
    );
}

#[test]
fn numbers() {
    let t = tokens("12.5 7 1.");
    assert_eq!(t[0].token_type, TokenType::TokenNumber);
    assert_eq!((t[0].start, t[0].length), (0, 4));
    assert_eq!((t[1].start, t[1].length), (5, 1));
    assert_eq!(t[2].token_type, TokenType::TokenNumber);
    assert_eq!(t[2].length, 1);
    assert_eq!(t[3].token_type, TokenType::TokenDot);
}

#[test]
fn strings_count_lines() {
    let t = tokens("\"a\nb\" x");
    assert_eq!(t[0].token_type, TokenType::TokenString);
    assert_eq!((t[0].start, t[0].length, t[0].line), (0, 5, 2));
    assert_eq!(t[1].line, 2);
}

#[test]
fn unterminated_string_is_an_error_token() {
    let t = tokens("\"abc");
    assert_eq!(t[0].token_type, TokenType::TokenError);
    assert_eq!((t[0].start, t[0].length), (0, 4));
    assert_eq!(t[1].token_type, TokenType::TokenEof);
}

#[test]
fn unexpected_character_is_an_error_token() {
    let t = tokens("@");
    assert_eq!(t[0].token_type, TokenType::TokenError);
    assert_eq!(t[0].length, 1);
}

#[test]
fn comments_and_whitespace_are_skipped() {
    let t = tokens("// comment\n  x // trailing\n\ty");
    assert_eq!(t.len(), 3);
    assert_eq!((t[0].start, t[0].line), (13, 2));
    assert_eq!((t[1].start, t[1].line), (28, 3));
}

#[test]
fn end_of_file_is_terminal() {
    let chars: Vec<char> = "x".chars().collect();
    let mut scanner = Init_Scanner(&chars);
    Scan_Token(&mut scanner);
    for _ in 0..3 {
        assert_eq!(Scan_Token(&mut scanner).token_type, TokenType::TokenEof);
    }
}
