//! The lexer: turns source characters into tokens on demand.
use vstd::prelude::*;

verus! {

/// The kinds of token.
#[derive(Clone, Copy, Debug, PartialEq, Eq, Structural)]
pub enum TokenType {
    // Single-character tokens.
    TokenLeftParen,
    TokenRightParen,
    TokenLeftBrace,
    TokenRightBrace,
    TokenComma,
    TokenDot,
    TokenMinus,
    TokenPlus,
    TokenSemicolon,
    TokenSlash,
    TokenStar,
    // One or two character tokens.
    TokenBang,
    TokenBangEqual,
    TokenEqual,
    TokenEqualEqual,
    TokenGreater,
    TokenGreaterEqual,
    TokenLess,
    TokenLessEqual,
    // Literals.
    TokenIdentifier,
    TokenString,
    TokenNumber,
    // Keywords.
    TokenAnd,
    TokenClass,
    TokenElse,
    TokenFalse,
    TokenFor,
    TokenFun,
    TokenIf,
    TokenNil,
    TokenOr,
    TokenPrint,
    TokenReturn,
    TokenSuper,
    TokenThis,
    TokenTrue,
    TokenVar,
    TokenWhile,
    TokenError,
    TokenEof,
}

/// A token: its kind, the span `start .. start + length` of source text it
/// covers, and the line the scanner had reached when it ended.
/// An error token spans the offending text; it starts with a quote exactly
/// when it reports an unterminated string.
#[derive(Clone, Copy, Debug, PartialEq, Eq, Structural)]
pub struct Token {
    pub token_type: TokenType,
    pub start: usize,
    pub length: usize,
    pub line: u32,
}

/// The lexer state: the source, the start of the lexeme being scanned, the
/// cursor and the current line.
pub struct Scanner {
    pub source: Vec<char>,
    pub start: usize,
    pub current: usize,
    pub line: u32,
}

pub open spec fn is_digit(c: char) -> bool {
    '0' <= c && c <= '9'
}

pub open spec fn is_alpha(c: char) -> bool {
    ('a' <= c && c <= 'z') || ('A' <= c && c <= 'Z') || c == '_'
}

/// The number of line breaks in `s`.
pub open spec fn newlines(s: Seq<char>) -> nat
    decreases s.len(),
{
    if s.len() == 0 {
        0
    } else {
        newlines(s.drop_last()) + if s.last() == '\n' { 1nat } else { 0nat }
    }
}

/// Where the next lexeme starts: spaces, tabs, carriage returns, line breaks
/// and `//` comments up to the end of their line are skipped from `p` on.
pub open spec fn skip_ws(src: Seq<char>, p: int, in_comment: bool) -> int
    decreases src.len() - p,
{
    if p < 0 || p >= src.len() {
        p
    } else if in_comment {
        if src[p] == '\n' {
            skip_ws(src, p + 1, false)
        } else {
            skip_ws(src, p + 1, true)
        }
    } else if src[p] == ' ' || src[p] == '\r' || src[p] == '\t' || src[p] == '\n' {
        skip_ws(src, p + 1, false)
    } else if src[p] == '/' && p + 1 < src.len() && src[p + 1] == '/' {
        skip_ws(src, p + 2, true)
    } else {
        p
    }
}

/// The first index from `p` on that holds a quote, or the end.
pub open spec fn string_close(src: Seq<char>, p: int) -> int
    decreases src.len() - p,
{
    if p < 0 || p >= src.len() || src[p] == '"' {
        p
    } else {
        string_close(src, p + 1)
    }
}

/// The first index from `p` on that is not a digit, or the end.
pub open spec fn digits_end(src: Seq<char>, p: int) -> int
    decreases src.len() - p,
{
    if p < 0 || p >= src.len() || !is_digit(src[p]) {
        p
    } else {
        digits_end(src, p + 1)
    }
}

/// The first index from `p` on that is neither a letter, `_` nor a digit, or the end.
pub open spec fn ident_end(src: Seq<char>, p: int) -> int
    decreases src.len() - p,
{
    if p < 0 || p >= src.len() || !(is_alpha(src[p]) || is_digit(src[p])) {
        p
    } else {
        ident_end(src, p + 1)
    }
}

/// The kind of an identifier-shaped word: a keyword's own kind, else identifier.
pub open spec fn keyword_kind(w: Seq<char>) -> TokenType {
    if w == seq!['a', 'n', 'd'] {
        TokenType::TokenAnd
    } else if w == seq!['c', 'l', 'a', 's', 's'] {
        TokenType::TokenClass
    } else if w == seq!['e', 'l', 's', 'e'] {
        TokenType::TokenElse
    } else if w == seq!['f', 'a', 'l', 's', 'e'] {
        TokenType::TokenFalse
    } else if w == seq!['f', 'o', 'r'] {
        TokenType::TokenFor
    } else if w == seq!['f', 'u', 'n'] {
        TokenType::TokenFun
    } else if w == seq!['i', 'f'] {
        TokenType::TokenIf
    } else if w == seq!['n', 'i', 'l'] {
        TokenType::TokenNil
    } else if w == seq!['o', 'r'] {
        TokenType::TokenOr
    } else if w == seq!['p', 'r', 'i', 'n', 't'] {
        TokenType::TokenPrint
    } else if w == seq!['r', 'e', 't', 'u', 'r', 'n'] {
        TokenType::TokenReturn
    } else if w == seq!['s', 'u', 'p', 'e', 'r'] {
        TokenType::TokenSuper
    } else if w == seq!['t', 'h', 'i', 's'] {
        TokenType::TokenThis
    } else if w == seq!['t', 'r', 'u', 'e'] {
        TokenType::TokenTrue
    } else if w == seq!['v', 'a', 'r'] {
        TokenType::TokenVar
    } else if w == seq!['w', 'h', 'i', 'l', 'e'] {
        TokenType::TokenWhile
    } else {
        TokenType::TokenIdentifier
    }
}

/// A punctuation kind that may be followed by `=` to form a two-character token.
pub open spec fn with_equal(single: TokenType, double: TokenType, src: Seq<char>, p: int) -> (
    TokenType,
    int,
) {
    if p + 1 < src.len() && src[p + 1] == '=' {
        (double, p + 2)
    } else {
        (single, p + 1)
    }
}

/// The token that starts at `p` (where whitespace has been skipped): its kind
/// and the index just past it.
pub open spec fn lex(src: Seq<char>, p: int) -> (TokenType, int) {
    if p < 0 || p >= src.len() {
        (TokenType::TokenEof, p)
    } else {
        let c = src[p];
        if c == '(' {
            (TokenType::TokenLeftParen, p + 1)
        } else if c == ')' {
            (TokenType::TokenRightParen, p + 1)
        } else if c == '{' {
            (TokenType::TokenLeftBrace, p + 1)
        } else if c == '}' {
            (TokenType::TokenRightBrace, p + 1)
        } else if c == ';' {
            (TokenType::TokenSemicolon, p + 1)
        } else if c == ',' {
            (TokenType::TokenComma, p + 1)
        } else if c == '.' {
            (TokenType::TokenDot, p + 1)
        } else if c == '-' {
            (TokenType::TokenMinus, p + 1)
        } else if c == '+' {
            (TokenType::TokenPlus, p + 1)
        } else if c == '/' {
            (TokenType::TokenSlash, p + 1)
        } else if c == '*' {
            (TokenType::TokenStar, p + 1)
        } else if c == '!' {
            with_equal(TokenType::TokenBang, TokenType::TokenBangEqual, src, p)
        } else if c == '=' {
            with_equal(TokenType::TokenEqual, TokenType::TokenEqualEqual, src, p)
        } else if c == '<' {
            with_equal(TokenType::TokenLess, TokenType::TokenLessEqual, src, p)
        } else if c == '>' {
            with_equal(TokenType::TokenGreater, TokenType::TokenGreaterEqual, src, p)
        } else if c == '"' {
            let q = string_close(src, p + 1);
            if q >= src.len() {
                (TokenType::TokenError, q)
            } else {
                (TokenType::TokenString, q + 1)
            }
        } else if is_digit(c) {
            let e = digits_end(src, p);
            if e + 1 < src.len() && src[e] == '.' && is_digit(src[e + 1]) {
                (TokenType::TokenNumber, digits_end(src, e + 1))
            } else {
                (TokenType::TokenNumber, e)
            }
        } else if is_alpha(c) {
            let e = ident_end(src, p);
            (keyword_kind(src.subrange(p, e)), e)
        } else {
            (TokenType::TokenError, p + 1)
        }
    }
}

pub proof fn lemma_newlines_step(src: Seq<char>, a: int, b: int)
    requires
        0 <= a <= b < src.len(),
    ensures
        newlines(src.subrange(a, b + 1)) == newlines(src.subrange(a, b)) + if src[b] == '\n' {
            1nat
        } else {
            0nat
        },
{
    assert(src.subrange(a, b + 1).drop_last() =~= src.subrange(a, b));
}

proof fn lemma_newlines_empty(src: Seq<char>, a: int)
    requires
        0 <= a <= src.len(),
    ensures
        newlines(src.subrange(a, a)) == 0,
{
    assert(src.subrange(a, a).len() == 0);
}

impl Scanner {
    pub open spec fn wf(&self) -> bool {
        &&& self.start <= self.current <= self.source@.len()
        &&& self.source@.len() < u32::MAX
        &&& 1 <= self.line
        &&& self.line as int <= self.current as int + 1
    }

    /// The text scanned since the start of the current lexeme.
    pub open spec fn lexeme(&self) -> Seq<char> {
        self.source@.subrange(self.start as int, self.current as int)
    }
}

/// A scanner positioned at the start of `source`, on line 1.
#[allow(non_snake_case)]
pub fn Init_Scanner(source: &Vec<char>) -> (s: Scanner)
    requires
        source@.len() < u32::MAX,
    ensures
        s.wf(),
        s.source@ == source@,
        s.start == 0,
        s.current == 0,
        s.line == 1,
{
    Scanner { source: source.clone(), start: 0, current: 0, line: 1 }
}

#[allow(non_snake_case)]
pub fn isAtEnd(scanner: &Scanner) -> (r: bool)
    ensures
        r == (scanner.current >= scanner.source@.len()),
{
    scanner.current >= scanner.source.len()
}

/// The character at `location`, or `'\0'` past the end.
pub fn get_character_from_scanner_source(location: usize, scanner: &Scanner) -> (c: char)
    ensures
        location < scanner.source@.len() ==> c == scanner.source@[location as int],
        location >= scanner.source@.len() ==> c == '\0',
{
    if location < scanner.source.len() {
        scanner.source[location]
    } else {
        '\0'
    }
}

/// The character under the cursor, or `'\0'` at the end.
pub fn peek(scanner: &Scanner) -> (c: char)
    ensures
        scanner.current < scanner.source@.len() ==> c == scanner.source@[scanner.current as int],
        scanner.current >= scanner.source@.len() ==> c == '\0',
{
    get_character_from_scanner_source(scanner.current, scanner)
}

/// The character after the cursor, or `'\0'` if there is none.
#[allow(non_snake_case)]
pub fn peekNext(scanner: &Scanner) -> (c: char)
    requires
        scanner.current <= scanner.source@.len(),
    ensures
        scanner.current + 1 < scanner.source@.len() ==> c == scanner.source@[scanner.current + 1],
        scanner.current + 1 >= scanner.source@.len() ==> c == '\0',
{
    let n = scanner.source.len();
    if scanner.current >= n {
        return '\0';
    }
    get_character_from_scanner_source(scanner.current + 1, scanner)
}

/// Consumes and returns the character under the cursor.
pub fn advance(scanner: &mut Scanner) -> (c: char)
    requires
        old(scanner).current < old(scanner).source@.len(),
        old(scanner).source@.len() < u32::MAX,
    ensures
        c == old(scanner).source@[old(scanner).current as int],
        final(scanner).current == old(scanner).current + 1,
        final(scanner).source == old(scanner).source,
        final(scanner).start == old(scanner).start,
        final(scanner).line == old(scanner).line,
{
    let c = scanner.source[scanner.current];
    scanner.current = scanner.current + 1;
    c
}

/// Consumes the character under the cursor if it is `expected`.
#[allow(non_snake_case)]
pub fn matchCharacter(expected: char, scanner: &mut Scanner) -> (r: bool)
    requires
        old(scanner).current <= old(scanner).source@.len(),
    ensures
        r == (old(scanner).current < old(scanner).source@.len()
            && old(scanner).source@[old(scanner).current as int] == expected),
        final(scanner).current == old(scanner).current + if r { 1int } else { 0int },
        final(scanner).source == old(scanner).source,
        final(scanner).start == old(scanner).start,
        final(scanner).line == old(scanner).line,
{
    let n = scanner.source.len();
    if scanner.current >= n {
        return false;
    }
    if scanner.source[scanner.current] != expected {
        return false;
    }
    scanner.current = scanner.current + 1;
    true
}

/// A token of the given kind over the current lexeme.
#[allow(non_snake_case)]
pub fn Make_Token(token_type: TokenType, scanner: &Scanner) -> (t: Token)
    requires
        scanner.start <= scanner.current,
    ensures
        t == (Token {
            token_type,
            start: scanner.start,
            length: (scanner.current - scanner.start) as usize,
            line: scanner.line,
        }),
{
    Token {
        token_type,
        start: scanner.start,
        length: scanner.current - scanner.start,
        line: scanner.line,
    }
}

/// An error token over the current lexeme.
#[allow(non_snake_case)]
pub fn Error_Token(scanner: &Scanner) -> (t: Token)
    requires
        scanner.start <= scanner.current,
    ensures
        t == (Token {
            token_type: TokenType::TokenError,
            start: scanner.start,
            length: (scanner.current - scanner.start) as usize,
            line: scanner.line,
        }),
{
    Make_Token(TokenType::TokenError, scanner)
}


pub proof fn lemma_newlines_concat(src: Seq<char>, a: int, b: int, c: int)
    requires
        0 <= a <= b <= c <= src.len(),
    ensures
        newlines(src.subrange(a, c)) == newlines(src.subrange(a, b)) + newlines(src.subrange(b, c)),
    decreases c - b,
{
    if c == b {
        lemma_newlines_empty(src, b);
    } else {
        lemma_newlines_concat(src, a, b, c - 1);
        lemma_newlines_step(src, a, c - 1);
        lemma_newlines_step(src, b, c - 1);
    }
}

/// The scanner has moved forward over `source`, from cursor `from` on line
/// `line0`, counting every line break it passed.
pub open spec fn counted(s: Scanner, src: Seq<char>, from: int, line0: u32) -> bool {
    &&& s.wf()
    &&& s.source@ == src
    &&& 0 <= from <= s.current
    &&& s.line == line0 + newlines(src.subrange(from, s.current as int))
}

pub fn is_ascii_digit(c: char) -> (r: bool)
    ensures
        r == is_digit(c),
{
    '0' <= c && c <= '9'
}

pub fn is_ascii_alpha(c: char) -> (r: bool)
    ensures
        r == is_alpha(c),
{
    ('a' <= c && c <= 'z') || ('A' <= c && c <= 'Z') || c == '_'
}

/// Consumes one character, counting it if it is a line break.
fn step(scanner: &mut Scanner, Ghost(from): Ghost<int>, Ghost(line0): Ghost<u32>)
    requires
        counted(*old(scanner), old(scanner).source@, from, line0),
        old(scanner).current < old(scanner).source@.len(),
    ensures
        counted(*final(scanner), old(scanner).source@, from, line0),
        final(scanner).current == old(scanner).current + 1,
        final(scanner).start == old(scanner).start,
{
    let ghost src = scanner.source@;
    proof {
        lemma_newlines_step(src, from, scanner.current as int);
    }
    if scanner.source[scanner.current] == '\n' {
        scanner.line = scanner.line + 1;
    }
    advance(scanner);
}

/// Skips whitespace and comments.
#[allow(non_snake_case)]
pub fn Skip_Whitespace(scanner: &mut Scanner)
    requires
        old(scanner).wf(),
    ensures
        counted(*final(scanner), old(scanner).source@, old(scanner).current as int, old(scanner).line),
        final(scanner).start == old(scanner).start,
        final(scanner).current == skip_ws(old(scanner).source@, old(scanner).current as int, false),
{
    let ghost src = scanner.source@;
    let ghost c0 = scanner.current as int;
    let ghost l0 = scanner.line;
    let ghost target = skip_ws(src, c0, false);
    proof {
        lemma_newlines_empty(src, c0);
    }
    loop
        invariant
            counted(*scanner, src, c0, l0),
            src == old(scanner).source@,
            c0 == old(scanner).current,
            l0 == old(scanner).line,
            target == skip_ws(src, c0, false),
            scanner.start == old(scanner).start,
            skip_ws(src, scanner.current as int, false) == target,
        decreases src.len() - scanner.current,
    {
        if isAtEnd(scanner) {
            return;
        }
        let c = peek(scanner);
        if c == ' ' || c == '\r' || c == '\t' || c == '\n' {
            step(scanner, Ghost(c0), Ghost(l0));
        } else if c == '/' && peekNext(scanner) == '/' {
            let ghost before = scanner.current;
            step(scanner, Ghost(c0), Ghost(l0));
            step(scanner, Ghost(c0), Ghost(l0));
            while !isAtEnd(scanner) && peek(scanner) != '\n'
                invariant
                    counted(*scanner, src, c0, l0),
                    before < scanner.current,
                    target == skip_ws(src, c0, false),
                    src == old(scanner).source@,
                    c0 == old(scanner).current,
                    l0 == old(scanner).line,
                    scanner.start == old(scanner).start,
                    skip_ws(src, scanner.current as int, true) == target,
                decreases src.len() - scanner.current,
            {
                step(scanner, Ghost(c0), Ghost(l0));
            }
        } else {
            return;
        }
    }
}

/// Consumes a run of digits.
pub fn consume_digits(scanner: &mut Scanner)
    requires
        old(scanner).wf(),
    ensures
        counted(*final(scanner), old(scanner).source@, old(scanner).current as int, old(scanner).line),
        final(scanner).start == old(scanner).start,
        final(scanner).current == digits_end(old(scanner).source@, old(scanner).current as int),
{
    let ghost src = scanner.source@;
    let ghost c0 = scanner.current as int;
    let ghost l0 = scanner.line;
    proof {
        lemma_newlines_empty(src, c0);
    }
    while !isAtEnd(scanner) && is_ascii_digit(peek(scanner))
        invariant
            counted(*scanner, src, c0, l0),
            src == old(scanner).source@,
            c0 == old(scanner).current,
            l0 == old(scanner).line,
            scanner.start == old(scanner).start,
            digits_end(src, scanner.current as int) == digits_end(src, c0),
        decreases src.len() - scanner.current,
    {
        step(scanner, Ghost(c0), Ghost(l0));
    }
}

/// The rest of a number literal whose first digit has been consumed.
pub fn digit(scanner: &mut Scanner) -> (t: Token)
    requires
        old(scanner).wf(),
        old(scanner).current == old(scanner).start + 1,
        is_digit(old(scanner).source@[old(scanner).start as int]),
    ensures
        counted(*final(scanner), old(scanner).source@, old(scanner).current as int, old(scanner).line),
        final(scanner).start == old(scanner).start,
        final(scanner).current == lex(old(scanner).source@, old(scanner).start as int).1,
        t.token_type == lex(old(scanner).source@, old(scanner).start as int).0,
        t.start == final(scanner).start,
        t.length == final(scanner).current - final(scanner).start,
        t.line == final(scanner).line,
{
    let ghost src = scanner.source@;
    let ghost c0 = scanner.current as int;
    let ghost l0 = scanner.line;
    consume_digits(scanner);
    if peek(scanner) == '.' && !isAtEnd(scanner) && is_ascii_digit(peekNext(scanner)) {
        let ghost c1 = scanner.current as int;
        let ghost l1 = scanner.line;
        step(scanner, Ghost(c0), Ghost(l0));
        let ghost c2 = scanner.current as int;
        let ghost l2 = scanner.line;
        consume_digits(scanner);
        proof {
            lemma_newlines_concat(src, c0, c2, scanner.current as int);
        }
    }
    Make_Token(TokenType::TokenNumber, scanner)
}

/// The rest of a string literal whose opening quote has been consumed.
pub fn string_token(scanner: &mut Scanner) -> (t: Token)
    requires
        old(scanner).wf(),
        old(scanner).current == old(scanner).start + 1,
        old(scanner).source@[old(scanner).start as int] == '"',
    ensures
        counted(*final(scanner), old(scanner).source@, old(scanner).current as int, old(scanner).line),
        final(scanner).start == old(scanner).start,
        final(scanner).current == lex(old(scanner).source@, old(scanner).start as int).1,
        t.token_type == lex(old(scanner).source@, old(scanner).start as int).0,
        t.start == final(scanner).start,
        t.length == final(scanner).current - final(scanner).start,
        t.line == final(scanner).line,
{
    let ghost src = scanner.source@;
    let ghost c0 = scanner.current as int;
    let ghost l0 = scanner.line;
    proof {
        lemma_newlines_empty(src, c0);
    }
    while !isAtEnd(scanner) && peek(scanner) != '"'
        invariant
            counted(*scanner, src, c0, l0),
            src == old(scanner).source@,
            c0 == old(scanner).current,
            l0 == old(scanner).line,
            scanner.start == old(scanner).start,
            string_close(src, scanner.current as int) == string_close(src, c0),
        decreases src.len() - scanner.current,
    {
        step(scanner, Ghost(c0), Ghost(l0));
    }
    if isAtEnd(scanner) {
        return Error_Token(scanner);
    }
    step(scanner, Ghost(c0), Ghost(l0));
    Make_Token(TokenType::TokenString, scanner)
}


/// `kind` when the current lexeme is its first `start` characters followed by
/// `rest`, otherwise identifier.
pub fn check_keyword(start: usize, rest: &Vec<char>, kind: TokenType, scanner: &Scanner) -> (r: TokenType)
    requires
        scanner.wf(),
        start <= scanner.current - scanner.start,
        kind != TokenType::TokenIdentifier,
    ensures
        (r == kind) == (scanner.lexeme() == scanner.lexeme().subrange(0, start as int) + rest@),
        r == kind || r == TokenType::TokenIdentifier,
{
    let ghost w = scanner.lexeme();
    let length = scanner.current - scanner.start;
    if length - start != rest.len() {
        assert((w.subrange(0, start as int) + rest@).len() != w.len());
        return TokenType::TokenIdentifier;
    }
    let mut i: usize = 0;
    while i < rest.len()
        invariant
            scanner.wf(),
            kind != TokenType::TokenIdentifier,
            w == scanner.lexeme(),
            length == w.len(),
            start + rest@.len() == length,
            i <= rest.len(),
            forall|k: int| 0 <= k < i ==> w[start + k] == rest@[k],
        decreases rest.len() - i,
    {
        if scanner.source[scanner.start + start + i] != rest[i] {
            assert(w[start + i] != rest@[i as int]);
            assert((w.subrange(0, start as int) + rest@)[start + i] == rest@[i as int]);
            return TokenType::TokenIdentifier;
        }
        i = i + 1;
    }
    assert(w =~= w.subrange(0, start as int) + rest@);
    kind
}


fn single(c: char) -> (v: Vec<char>)
    ensures
        v@ == seq![c],
{
    let mut v = Vec::new();
    v.push(c);
    assert(v@ =~= seq![c]);
    v
}

/// The kind of the identifier-shaped current lexeme: dispatches on its first
/// characters, then compares the rest with the one keyword that can match.
pub fn identifier_type(scanner: &Scanner) -> (r: TokenType)
    requires
        scanner.wf(),
        scanner.current > scanner.start,
    ensures
        r == keyword_kind(scanner.lexeme()),
{
    let ghost w = scanner.lexeme();
    let length = scanner.current - scanner.start;
    let c = scanner.source[scanner.start];
    assert(w[0] == c);
    if c == 'a' {
        assert(w.subrange(0, 1) + seq!['n', 'd'] =~= seq!['a', 'n', 'd']);
        let r = check_keyword(1, &vec!['n', 'd'], TokenType::TokenAnd, scanner);
        return r;
    } else if c == 'c' {
        assert(w.subrange(0, 1) + seq!['l', 'a', 's', 's'] =~= seq!['c', 'l', 'a', 's', 's']);
        let r = check_keyword(1, &vec!['l', 'a', 's', 's'], TokenType::TokenClass, scanner);
        return r;
    } else if c == 'e' {
        assert(w.subrange(0, 1) + seq!['l', 's', 'e'] =~= seq!['e', 'l', 's', 'e']);
        let r = check_keyword(1, &vec!['l', 's', 'e'], TokenType::TokenElse, scanner);
        return r;
    } else if c == 'i' {
        assert(w.subrange(0, 1) + seq!['f'] =~= seq!['i', 'f']);
        let r = check_keyword(1, &single('f'), TokenType::TokenIf, scanner);
        return r;
    } else if c == 'n' {
        assert(w.subrange(0, 1) + seq!['i', 'l'] =~= seq!['n', 'i', 'l']);
        let r = check_keyword(1, &vec!['i', 'l'], TokenType::TokenNil, scanner);
        return r;
    } else if c == 'o' {
        assert(w.subrange(0, 1) + seq!['r'] =~= seq!['o', 'r']);
        let r = check_keyword(1, &single('r'), TokenType::TokenOr, scanner);
        return r;
    } else if c == 'p' {
        assert(w.subrange(0, 1) + seq!['r', 'i', 'n', 't'] =~= seq!['p', 'r', 'i', 'n', 't']);
        let r = check_keyword(1, &vec!['r', 'i', 'n', 't'], TokenType::TokenPrint, scanner);
        return r;
    } else if c == 'r' {
        assert(w.subrange(0, 1) + seq!['e', 't', 'u', 'r', 'n'] =~= seq!['r', 'e', 't', 'u', 'r', 'n']);
        let r = check_keyword(1, &vec!['e', 't', 'u', 'r', 'n'], TokenType::TokenReturn, scanner);
        return r;
    } else if c == 's' {
        assert(w.subrange(0, 1) + seq!['u', 'p', 'e', 'r'] =~= seq!['s', 'u', 'p', 'e', 'r']);
        let r = check_keyword(1, &vec!['u', 'p', 'e', 'r'], TokenType::TokenSuper, scanner);
        return r;
    } else if c == 'v' {
        assert(w.subrange(0, 1) + seq!['a', 'r'] =~= seq!['v', 'a', 'r']);
        let r = check_keyword(1, &vec!['a', 'r'], TokenType::TokenVar, scanner);
        return r;
    } else if c == 'w' {
        assert(w.subrange(0, 1) + seq!['h', 'i', 'l', 'e'] =~= seq!['w', 'h', 'i', 'l', 'e']);
        let r = check_keyword(1, &vec!['h', 'i', 'l', 'e'], TokenType::TokenWhile, scanner);
        return r;
    } else if c == 'f' && length > 1 {
        let c2 = scanner.source[scanner.start + 1];
        assert(w[1] == c2);
        if c2 == 'a' {
            assert(w.subrange(0, 2) + seq!['l', 's', 'e'] =~= seq!['f', 'a', 'l', 's', 'e']);
            let r = check_keyword(2, &vec!['l', 's', 'e'], TokenType::TokenFalse, scanner);
            return r;
        } else if c2 == 'o' {
            assert(w.subrange(0, 2) + seq!['r'] =~= seq!['f', 'o', 'r']);
            let r = check_keyword(2, &single('r'), TokenType::TokenFor, scanner);
            return r;
        } else if c2 == 'u' {
            assert(w.subrange(0, 2) + seq!['n'] =~= seq!['f', 'u', 'n']);
            let r = check_keyword(2, &single('n'), TokenType::TokenFun, scanner);
            return r;
        } else {
            return TokenType::TokenIdentifier;
        }
    } else if c == 't' && length > 1 {
        let c2 = scanner.source[scanner.start + 1];
        assert(w[1] == c2);
        if c2 == 'h' {
            assert(w.subrange(0, 2) + seq!['i', 's'] =~= seq!['t', 'h', 'i', 's']);
            let r = check_keyword(2, &vec!['i', 's'], TokenType::TokenThis, scanner);
            return r;
        } else if c2 == 'r' {
            assert(w.subrange(0, 2) + seq!['u', 'e'] =~= seq!['t', 'r', 'u', 'e']);
            let r = check_keyword(2, &vec!['u', 'e'], TokenType::TokenTrue, scanner);
            return r;
        } else {
            return TokenType::TokenIdentifier;
        }
    } else {
        assert(w.len() == length);
        return TokenType::TokenIdentifier;
    }
}


/// The rest of an identifier or keyword whose first letter has been consumed.
pub fn identifier(scanner: &mut Scanner) -> (t: Token)
    requires
        old(scanner).wf(),
        old(scanner).current == old(scanner).start + 1,
        is_alpha(old(scanner).source@[old(scanner).start as int]),
    ensures
        counted(*final(scanner), old(scanner).source@, old(scanner).current as int, old(scanner).line),
        final(scanner).start == old(scanner).start,
        final(scanner).current == lex(old(scanner).source@, old(scanner).start as int).1,
        t.token_type == lex(old(scanner).source@, old(scanner).start as int).0,
        t.start == final(scanner).start,
        t.length == final(scanner).current - final(scanner).start,
        t.line == final(scanner).line,
{
    let ghost src = scanner.source@;
    let ghost c0 = scanner.current as int;
    let ghost l0 = scanner.line;
    proof {
        lemma_newlines_empty(src, c0);
    }
    while !isAtEnd(scanner) && (is_ascii_alpha(peek(scanner)) || is_ascii_digit(peek(scanner)))
        invariant
            counted(*scanner, src, c0, l0),
            src == old(scanner).source@,
            c0 == old(scanner).current,
            l0 == old(scanner).line,
            scanner.start == old(scanner).start,
            ident_end(src, scanner.current as int) == ident_end(src, scanner.start as int),
        decreases src.len() - scanner.current,
    {
        step(scanner, Ghost(c0), Ghost(l0));
    }
    let kind = identifier_type(scanner);
    Make_Token(kind, scanner)
}

/// Skips whitespace and comments, then scans exactly one token. At the end of
/// the source it returns the end-of-file token, and keeps doing so.
#[allow(non_snake_case)]
pub fn Scan_Token(scanner: &mut Scanner) -> (t: Token)
    requires
        old(scanner).wf(),
    ensures
        final(scanner).wf(),
        final(scanner).source@ == old(scanner).source@,
        ({
            let src = old(scanner).source@;
            let p = skip_ws(src, old(scanner).current as int, false);
            let (kind, end) = lex(src, p);
            &&& final(scanner).start == p
            &&& final(scanner).current == end
            &&& t.token_type == kind
            &&& t.start == p
            &&& t.length == end - p
            &&& t.line == final(scanner).line
            &&& final(scanner).line == old(scanner).line + newlines(src.subrange(old(scanner).current as int, end))
        }),
{
    let ghost src = scanner.source@;
    let ghost c0 = scanner.current as int;
    let ghost l0 = scanner.line;
    Skip_Whitespace(scanner);
    scanner.start = scanner.current;
    let ghost p = scanner.current as int;
    let ghost l1 = scanner.line;
    proof {
        lemma_newlines_empty(src, p);
    }
    if isAtEnd(scanner) {
        return Make_Token(TokenType::TokenEof, scanner);
    }
    let c = peek(scanner);
    step(scanner, Ghost(p), Ghost(l1));
    let t = if c == '(' {
        Make_Token(TokenType::TokenLeftParen, scanner)
    } else if c == ')' {
        Make_Token(TokenType::TokenRightParen, scanner)
    } else if c == '{' {
        Make_Token(TokenType::TokenLeftBrace, scanner)
    } else if c == '}' {
        Make_Token(TokenType::TokenRightBrace, scanner)
    } else if c == ';' {
        Make_Token(TokenType::TokenSemicolon, scanner)
    } else if c == ',' {
        Make_Token(TokenType::TokenComma, scanner)
    } else if c == '.' {
        Make_Token(TokenType::TokenDot, scanner)
    } else if c == '-' {
        Make_Token(TokenType::TokenMinus, scanner)
    } else if c == '+' {
        Make_Token(TokenType::TokenPlus, scanner)
    } else if c == '/' {
        Make_Token(TokenType::TokenSlash, scanner)
    } else if c == '*' {
        Make_Token(TokenType::TokenStar, scanner)
    } else if c == '!' || c == '=' || c == '<' || c == '>' {
        let ghost q = scanner.current as int;
        let double = matchCharacter('=', scanner);
        proof {
            if double {
                lemma_newlines_step(src, p, q);
            }
        }
        let kind = if c == '!' {
            if double { TokenType::TokenBangEqual } else { TokenType::TokenBang }
        } else if c == '=' {
            if double { TokenType::TokenEqualEqual } else { TokenType::TokenEqual }
        } else if c == '<' {
            if double { TokenType::TokenLessEqual } else { TokenType::TokenLess }
        } else {
            if double { TokenType::TokenGreaterEqual } else { TokenType::TokenGreater }
        };
        Make_Token(kind, scanner)
    } else if c == '"' {
        let ghost q = scanner.current as int;
        let t = string_token(scanner);
        proof {
            lemma_newlines_concat(src, p, q, scanner.current as int);
        }
        t
    } else if is_ascii_digit(c) {
        let ghost q = scanner.current as int;
        let t = digit(scanner);
        proof {
            lemma_newlines_concat(src, p, q, scanner.current as int);
            assert(digits_end(src, p) == digits_end(src, q));
        }
        t
    } else if is_ascii_alpha(c) {
        let ghost q = scanner.current as int;
        let t = identifier(scanner);
        proof {
            lemma_newlines_concat(src, p, q, scanner.current as int);
        }
        t
    } else {
        Error_Token(scanner)
    };
    proof {
        lemma_newlines_concat(src, c0, p, scanner.current as int);
    }
    t
}


proof fn lemma_skip_ws_bounds(src: Seq<char>, p: int, b: bool)
    requires
        0 <= p <= src.len(),
    ensures
        p <= skip_ws(src, p, b) <= src.len(),
    decreases src.len() - p,
{
    if p < src.len() {
        if b {
            lemma_skip_ws_bounds(src, p + 1, src[p] != '\n');
        } else if src[p] == ' ' || src[p] == '\r' || src[p] == '\t' || src[p] == '\n' {
            lemma_skip_ws_bounds(src, p + 1, false);
        } else if src[p] == '/' && p + 1 < src.len() && src[p + 1] == '/' {
            lemma_skip_ws_bounds(src, p + 2, true);
        }
    }
}

proof fn lemma_string_close_bounds(src: Seq<char>, p: int)
    requires
        0 <= p <= src.len(),
    ensures
        p <= string_close(src, p) <= src.len(),
    decreases src.len() - p,
{
    if p < src.len() && src[p] != '"' {
        lemma_string_close_bounds(src, p + 1);
    }
}

proof fn lemma_digits_end_bounds(src: Seq<char>, p: int)
    requires
        0 <= p <= src.len(),
    ensures
        p <= digits_end(src, p) <= src.len(),
    decreases src.len() - p,
{
    if p < src.len() && is_digit(src[p]) {
        lemma_digits_end_bounds(src, p + 1);
    }
}

proof fn lemma_ident_end_bounds(src: Seq<char>, p: int)
    requires
        0 <= p <= src.len(),
    ensures
        p <= ident_end(src, p) <= src.len(),
    decreases src.len() - p,
{
    if p < src.len() && (is_alpha(src[p]) || is_digit(src[p])) {
        lemma_ident_end_bounds(src, p + 1);
    }
}

/// Every token but the end-of-file token covers at least one character; the
/// end-of-file token comes exactly at the end; a string token covers its two quotes.
pub proof fn lemma_lex_bounds(src: Seq<char>, c: int)
    requires
        0 <= c <= src.len(),
    ensures
        ({
            let p = skip_ws(src, c, false);
            let (kind, end) = lex(src, p);
            &&& c <= p <= end <= src.len()
            &&& (kind == TokenType::TokenEof) == (p == src.len())
            &&& kind == TokenType::TokenEof ==> end == p
            &&& kind != TokenType::TokenEof ==> p < end
            &&& kind == TokenType::TokenString ==> end - p >= 2
        }),
{
    lemma_skip_ws_bounds(src, c, false);
    let p = skip_ws(src, c, false);
    if p < src.len() {
        lemma_string_close_bounds(src, p + 1);
        lemma_digits_end_bounds(src, p);
        lemma_digits_end_bounds(src, p + 1);
        lemma_ident_end_bounds(src, p + 1);
        let e = digits_end(src, p);
        if e + 1 < src.len() {
            lemma_digits_end_bounds(src, e + 1);
        }
        lemma_ident_end_bounds(src, p);
    }
}


/// Scanning from `a` reaches `b` exactly, through tokens none of which is an
/// error token.
pub open spec fn clean(src: Seq<char>, a: int, b: int) -> bool
    decreases b - a,
{
    if a >= b {
        a == b
    } else {
        let (kind, end) = lex(src, skip_ws(src, a, false));
        &&& kind != TokenType::TokenError
        &&& a < end <= b
        &&& clean(src, end, b)
    }
}

/// A clean scan extends by one more token that is not an error token.
pub proof fn lemma_clean_step(src: Seq<char>, a: int, b: int)
    requires
        0 <= a <= b <= src.len(),
        clean(src, a, b),
        lex(src, skip_ws(src, b, false)).0 != TokenType::TokenError,
    ensures
        clean(src, a, lex(src, skip_ws(src, b, false)).1),
    decreases b - a,
{
    lemma_lex_bounds(src, b);
    let e = lex(src, skip_ws(src, b, false)).1;
    if a == b {
        if b < e {
            assert(clean(src, e, e));
        }
    } else {
        lemma_lex_bounds(src, a);
        let (kind, end) = lex(src, skip_ws(src, a, false));
        lemma_clean_step(src, end, b);
    }
}


/// Clean scans from one position follow the same chain of tokens: a clean
/// scan to the end passes through every position a clean scan reaches.
pub proof fn lemma_clean_suffix(src: Seq<char>, a: int, b: int)
    requires
        0 <= a <= b <= src.len(),
        clean(src, a, src.len() as int),
        clean(src, a, b),
    ensures
        clean(src, b, src.len() as int),
    decreases b - a,
{
    if a < b {
        let (kind, end) = lex(src, skip_ws(src, a, false));
        lemma_clean_suffix(src, end, b);
    }
}

/// On a clean scan to the end, no token met is an error token.
pub proof fn lemma_clean_no_error(src: Seq<char>, b: int)
    requires
        0 <= b <= src.len(),
        clean(src, 0, src.len() as int),
        clean(src, 0, b),
    ensures
        lex(src, skip_ws(src, b, false)).0 != TokenType::TokenError,
{
    lemma_clean_suffix(src, 0, b);
    lemma_lex_bounds(src, b);
    if b < src.len() {
        let p = skip_ws(src, b, false);
        if p == src.len() {
            assert(lex(src, p).0 == TokenType::TokenEof);
        }
    }
}

/// Scanning from `a` reaches `b` exactly, error tokens included.
pub open spec fn reaches(src: Seq<char>, a: int, b: int) -> bool
    decreases b - a,
{
    if a >= b {
        a == b
    } else {
        let (kind, end) = lex(src, skip_ws(src, a, false));
        &&& a < end <= b
        &&& reaches(src, end, b)
    }
}

/// A scan that reaches `b` extends by one more token.
pub proof fn lemma_reaches_step(src: Seq<char>, a: int, b: int)
    requires
        0 <= a <= b <= src.len(),
        reaches(src, a, b),
    ensures
        reaches(src, a, lex(src, skip_ws(src, b, false)).1),
    decreases b - a,
{
    lemma_lex_bounds(src, b);
    let e = lex(src, skip_ws(src, b, false)).1;
    if a == b {
        if b < e {
            assert(reaches(src, e, e));
        }
    } else {
        lemma_lex_bounds(src, a);
        let (kind, end) = lex(src, skip_ws(src, a, false));
        lemma_reaches_step(src, end, b);
    }
}

/// On a source free of lexical errors, every position a scan reaches is
/// followed by a token that is not an error token.
pub proof fn lemma_reaches_no_error(src: Seq<char>, a: int, b: int)
    requires
        0 <= a <= b <= src.len(),
        clean(src, a, src.len() as int),
        reaches(src, a, b),
    ensures
        lex(src, skip_ws(src, b, false)).0 != TokenType::TokenError,
    decreases b - a,
{
    lemma_lex_bounds(src, b);
    if a == b {
        if b < src.len() {
            let p = skip_ws(src, b, false);
            if p == src.len() {
                assert(lex(src, p).0 == TokenType::TokenEof);
            }
        }
    } else {
        let (kind, end) = lex(src, skip_ws(src, a, false));
        lemma_reaches_no_error(src, end, b);
    }
}

} // verus!
