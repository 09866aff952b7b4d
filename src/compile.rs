//! The single-pass compiler: a Pratt parser that emits bytecode as it parses.
use vstd::prelude::*;
use crate::chunk::{add_constant, init_chunk, op_byte, write_chunk, Chunk, OpCode, MAX_CONSTANTS};
use crate::number::NumberHost;
use crate::object::{Obj, StringTable};
use crate::scanner::{
    clean, reaches, lemma_reaches_no_error, lemma_reaches_step, lemma_clean_no_error, lemma_clean_step, lemma_lex_bounds, lex, skip_ws, Init_Scanner,
    Scan_Token, Scanner, Token, TokenType,
};
use crate::text::{decimal, push_decimal, push_str, string_of};
use crate::value::{is_string, string_ref, NumberAsValue, ObjAsValue, Value};

verus! {

/// The parser's view of the token stream, and its error state.
pub struct Parser {
    pub current: Token,
    pub previous: Token,
    pub had_error: bool,
    pub panic_mode: bool,
}

impl Parser {
    /// A parser that has not read any token yet.
    pub fn new() -> (p: Parser)
        ensures
            !p.had_error,
            !p.panic_mode,
            p.current.token_type != TokenType::TokenError,
            p.current.token_type != TokenType::TokenString,
            p.current.token_type != TokenType::TokenEof,
            p.current.start == 0 && p.current.length == 0,
            p.previous == p.current,
    {
        let t = Token { token_type: TokenType::TokenWhile, start: 0, length: 0, line: 1 };
        Parser { current: t, previous: t, had_error: false, panic_mode: false }
    }
}

/// Binding power, from loosest to tightest.
#[derive(Clone, Copy, Debug, PartialEq, Eq, Structural)]
pub enum Precedence {
    PrecNone,
    PrecAssignment,
    PrecOr,
    PrecAnd,
    PrecEquality,
    PrecComparison,
    PrecTerm,
    PrecFactor,
    PrecUnary,
    PrecCall,
    PrecPrimary,
}

pub open spec fn level(p: Precedence) -> u8 {
    match p {
        Precedence::PrecNone => 1,
        Precedence::PrecAssignment => 2,
        Precedence::PrecOr => 3,
        Precedence::PrecAnd => 4,
        Precedence::PrecEquality => 5,
        Precedence::PrecComparison => 6,
        Precedence::PrecTerm => 7,
        Precedence::PrecFactor => 8,
        Precedence::PrecUnary => 9,
        Precedence::PrecCall => 10,
        Precedence::PrecPrimary => 11,
    }
}

impl Precedence {
    pub fn level(self) -> (r: u8)
        ensures
            r == level(self),
    {
        match self {
            Precedence::PrecNone => 1,
            Precedence::PrecAssignment => 2,
            Precedence::PrecOr => 3,
            Precedence::PrecAnd => 4,
            Precedence::PrecEquality => 5,
            Precedence::PrecComparison => 6,
            Precedence::PrecTerm => 7,
            Precedence::PrecFactor => 8,
            Precedence::PrecUnary => 9,
            Precedence::PrecCall => 10,
            Precedence::PrecPrimary => 11,
        }
    }

    /// The precedence at a level, if there is one.
    pub fn get_precedence(precedence: u8) -> (r: Option<Precedence>)
        ensures
            match r {
                Some(p) => level(p) == precedence,
                None => precedence < 1 || precedence > 11,
            },
    {
        match precedence {
            1 => Some(Precedence::PrecNone),
            2 => Some(Precedence::PrecAssignment),
            3 => Some(Precedence::PrecOr),
            4 => Some(Precedence::PrecAnd),
            5 => Some(Precedence::PrecEquality),
            6 => Some(Precedence::PrecComparison),
            7 => Some(Precedence::PrecTerm),
            8 => Some(Precedence::PrecFactor),
            9 => Some(Precedence::PrecUnary),
            10 => Some(Precedence::PrecCall),
            11 => Some(Precedence::PrecPrimary),
            _ => None,
        }
    }

    /// The next tighter precedence (the tightest stays itself).
    pub fn higher(self) -> (r: Precedence)
        ensures
            level(self) < 11 ==> level(r) == level(self) + 1,
            level(self) == 11 ==> r == self,
    {
        match Precedence::get_precedence(self.level() + 1) {
            Some(p) => p,
            None => self,
        }
    }
}

/// The parse handlers that a token can start or continue an expression with.
#[derive(Clone, Copy, Debug, PartialEq, Eq, Structural)]
pub enum ParseFn {
    Grouping,
    Unary,
    Binary,
    Number,
    String,
    Literal,
    Variable,
}

/// One row of the Pratt table.
#[derive(Clone, Copy, Debug, PartialEq, Eq, Structural)]
pub struct ParseRule {
    pub prefix: Option<ParseFn>,
    pub infix: Option<ParseFn>,
    pub precedence: Precedence,
}

pub open spec fn rule(prefix: Option<ParseFn>, infix: Option<ParseFn>, precedence: Precedence) -> ParseRule {
    ParseRule { prefix, infix, precedence }
}

/// The Pratt table: how each kind of token parses.
pub open spec fn rule_for(kind: TokenType) -> ParseRule {
    match kind {
        TokenType::TokenLeftParen => rule(Some(ParseFn::Grouping), None, Precedence::PrecNone),
        TokenType::TokenMinus => rule(Some(ParseFn::Unary), Some(ParseFn::Binary), Precedence::PrecTerm),
        TokenType::TokenPlus => rule(None, Some(ParseFn::Binary), Precedence::PrecTerm),
        TokenType::TokenSlash => rule(None, Some(ParseFn::Binary), Precedence::PrecFactor),
        TokenType::TokenStar => rule(None, Some(ParseFn::Binary), Precedence::PrecFactor),
        TokenType::TokenBang => rule(Some(ParseFn::Unary), None, Precedence::PrecNone),
        TokenType::TokenBangEqual => rule(None, Some(ParseFn::Binary), Precedence::PrecEquality),
        TokenType::TokenEqualEqual => rule(None, Some(ParseFn::Binary), Precedence::PrecEquality),
        TokenType::TokenGreater => rule(None, Some(ParseFn::Binary), Precedence::PrecComparison),
        TokenType::TokenGreaterEqual => rule(None, Some(ParseFn::Binary), Precedence::PrecComparison),
        TokenType::TokenLess => rule(None, Some(ParseFn::Binary), Precedence::PrecComparison),
        TokenType::TokenLessEqual => rule(None, Some(ParseFn::Binary), Precedence::PrecComparison),
        TokenType::TokenIdentifier => rule(Some(ParseFn::Variable), None, Precedence::PrecNone),
        TokenType::TokenString => rule(Some(ParseFn::String), None, Precedence::PrecNone),
        TokenType::TokenNumber => rule(Some(ParseFn::Number), None, Precedence::PrecNone),
        TokenType::TokenFalse => rule(Some(ParseFn::Literal), None, Precedence::PrecNone),
        TokenType::TokenNil => rule(Some(ParseFn::Literal), None, Precedence::PrecNone),
        TokenType::TokenTrue => rule(Some(ParseFn::Literal), None, Precedence::PrecNone),
        _ => rule(None, None, Precedence::PrecNone),
    }
}

pub fn get_rule(kind: TokenType) -> (r: ParseRule)
    ensures
        r == rule_for(kind),
{
    match kind {
        TokenType::TokenLeftParen => ParseRule { prefix: Some(ParseFn::Grouping), infix: None, precedence: Precedence::PrecNone },
        TokenType::TokenMinus => ParseRule { prefix: Some(ParseFn::Unary), infix: Some(ParseFn::Binary), precedence: Precedence::PrecTerm },
        TokenType::TokenPlus => ParseRule { prefix: None, infix: Some(ParseFn::Binary), precedence: Precedence::PrecTerm },
        TokenType::TokenSlash => ParseRule { prefix: None, infix: Some(ParseFn::Binary), precedence: Precedence::PrecFactor },
        TokenType::TokenStar => ParseRule { prefix: None, infix: Some(ParseFn::Binary), precedence: Precedence::PrecFactor },
        TokenType::TokenBang => ParseRule { prefix: Some(ParseFn::Unary), infix: None, precedence: Precedence::PrecNone },
        TokenType::TokenBangEqual => ParseRule { prefix: None, infix: Some(ParseFn::Binary), precedence: Precedence::PrecEquality },
        TokenType::TokenEqualEqual => ParseRule { prefix: None, infix: Some(ParseFn::Binary), precedence: Precedence::PrecEquality },
        TokenType::TokenGreater => ParseRule { prefix: None, infix: Some(ParseFn::Binary), precedence: Precedence::PrecComparison },
        TokenType::TokenGreaterEqual => ParseRule { prefix: None, infix: Some(ParseFn::Binary), precedence: Precedence::PrecComparison },
        TokenType::TokenLess => ParseRule { prefix: None, infix: Some(ParseFn::Binary), precedence: Precedence::PrecComparison },
        TokenType::TokenLessEqual => ParseRule { prefix: None, infix: Some(ParseFn::Binary), precedence: Precedence::PrecComparison },
        TokenType::TokenIdentifier => ParseRule { prefix: Some(ParseFn::Variable), infix: None, precedence: Precedence::PrecNone },
        TokenType::TokenString => ParseRule { prefix: Some(ParseFn::String), infix: None, precedence: Precedence::PrecNone },
        TokenType::TokenNumber => ParseRule { prefix: Some(ParseFn::Number), infix: None, precedence: Precedence::PrecNone },
        TokenType::TokenFalse => ParseRule { prefix: Some(ParseFn::Literal), infix: None, precedence: Precedence::PrecNone },
        TokenType::TokenNil => ParseRule { prefix: Some(ParseFn::Literal), infix: None, precedence: Precedence::PrecNone },
        TokenType::TokenTrue => ParseRule { prefix: Some(ParseFn::Literal), infix: None, precedence: Precedence::PrecNone },
        _ => ParseRule { prefix: None, infix: None, precedence: Precedence::PrecNone },
    }
}

/// The instructions a binary operator compiles to. `!=`, `>=` and `<=` are
/// the negations of `==`, `<` and `>`.
pub open spec fn binary_ops(kind: TokenType) -> Seq<u8> {
    match kind {
        TokenType::TokenPlus => seq![op_byte(OpCode::OpAdd)],
        TokenType::TokenMinus => seq![op_byte(OpCode::OpSubtract)],
        TokenType::TokenStar => seq![op_byte(OpCode::OpMultiply)],
        TokenType::TokenSlash => seq![op_byte(OpCode::OpDivide)],
        TokenType::TokenBangEqual => seq![op_byte(OpCode::OpEqual), op_byte(OpCode::OpNot)],
        TokenType::TokenEqualEqual => seq![op_byte(OpCode::OpEqual)],
        TokenType::TokenGreater => seq![op_byte(OpCode::OpGreater)],
        TokenType::TokenGreaterEqual => seq![op_byte(OpCode::OpLess), op_byte(OpCode::OpNot)],
        TokenType::TokenLess => seq![op_byte(OpCode::OpLess)],
        TokenType::TokenLessEqual => seq![op_byte(OpCode::OpGreater), op_byte(OpCode::OpNot)],
        _ => seq![],
    }
}

/// The text of a token.
pub open spec fn token_text(src: Seq<char>, t: Token) -> Seq<char> {
    src.subrange(t.start as int, t.start + t.length)
}

/// A compile error report: `[line L] Error at <lexeme>: <message>`, with
/// `at end` for the end of the source and no location for a lexical error.
pub open spec fn report(src: Seq<char>, t: Token, message: Seq<char>) -> Seq<char> {
    let place = if t.token_type == TokenType::TokenEof {
        " at end"@
    } else if t.token_type == TokenType::TokenError {
        Seq::<char>::empty()
    } else {
        " at "@ + token_text(src, t)
    };
    "[line "@ + decimal(t.line as nat) + "] Error"@ + place + ": "@ + message
}

/// The token scanned from position `q`: its kind and the index just past it.
pub open spec fn tok(src: Seq<char>, q: int) -> (TokenType, int) {
    lex(src, skip_ws(src, q, false))
}

/// Where an expression parsed at binding power `prec` ends, when the
/// lookahead is scanned from `q`; `None` when no such expression starts there.
/// An expression is a prefix form followed by binary operators that bind at
/// least as tightly as `prec`, each with a right operand one level tighter;
/// at assignment level it may not be followed by `=`.
#[verifier::opaque]
pub open spec fn parse_expr(src: Seq<char>, q: int, prec: int) -> Option<int>
    decreases src.len() - q, 0int,
{
    let (k, e) = tok(src, q);
    if q < 0 || e <= q || e > src.len() {
        None
    } else {
        match rule_for(k).prefix {
            None => None,
            Some(f) => match parse_prefix(src, e, f, prec <= 2) {
                None => None,
                Some(q1) => if q1 < e || q1 > src.len() {
                    None
                } else {
                    parse_infix(src, q1, prec, prec <= 2)
                },
            },
        }
    }
}

/// Where the prefix form `f`, whose first token ends at `e`, ends.
pub open spec fn parse_prefix(src: Seq<char>, e: int, f: ParseFn, can_assign: bool) -> Option<int>
    decreases src.len() - e, 1int,
{
    if e < 0 || e > src.len() {
        None
    } else {
        match f {
            ParseFn::Grouping => match parse_expr(src, e, 2) {
                None => None,
                Some(q2) => if q2 < e || q2 > src.len() {
                    None
                } else if tok(src, q2).0 == TokenType::TokenRightParen {
                    Some(tok(src, q2).1)
                } else {
                    None
                },
            },
            ParseFn::Unary => parse_expr(src, e, 9),
            ParseFn::Variable => {
                let (k2, e2) = tok(src, e);
                if can_assign && k2 == TokenType::TokenEqual {
                    if e2 <= e || e2 > src.len() {
                        None
                    } else {
                        parse_expr(src, e2, 2)
                    }
                } else {
                    Some(e)
                }
            },
            _ => Some(e),
        }
    }
}

/// Where the binary operators from position `q` on end.
pub open spec fn parse_infix(src: Seq<char>, q: int, prec: int, can_assign: bool) -> Option<int>
    decreases src.len() - q, 0int,
{
    let (k, e) = tok(src, q);
    if q < 0 || q > src.len() {
        None
    } else if prec <= level(rule_for(k).precedence) {
        if e <= q || e > src.len() {
            None
        } else {
            match parse_expr(src, e, level(rule_for(k).precedence) + 1) {
                None => None,
                Some(q2) => if q2 <= q || q2 > src.len() {
                    None
                } else {
                    parse_infix(src, q2, prec, can_assign)
                },
            }
        }
    } else if can_assign && k == TokenType::TokenEqual {
        None
    } else {
        Some(q)
    }
}

/// Where the handler `f` of the Pratt table ends, run on the token of kind
/// `k` that ends at `e`.
pub open spec fn handler_result(src: Seq<char>, e: int, f: ParseFn, k: TokenType, can_assign: bool) -> Option<int> {
    if f == ParseFn::Binary {
        parse_expr(src, e, level(rule_for(k).precedence) + 1)
    } else {
        parse_prefix(src, e, f, can_assign)
    }
}

/// The code of the handler `f` run on the token of kind `k` ending at `e`.
pub open spec fn handler_code(src: Seq<char>, e: int, f: ParseFn, k: TokenType, can_assign: bool, c: nat) -> (Seq<u8>, nat) {
    if f == ParseFn::Binary {
        let (ce, n) = code_expr(src, e, level(rule_for(k).precedence) + 1, c);
        (ce + binary_ops(k), n)
    } else {
        code_prefix(src, e, f, k, can_assign, c)
    }
}

/// A `;` after what ends at `r`.
pub open spec fn then_semicolon(src: Seq<char>, r: Option<int>) -> Option<int> {
    match r {
        None => None,
        Some(q) => if tok(src, q).0 == TokenType::TokenSemicolon {
            Some(tok(src, q).1)
        } else {
            None
        },
    }
}

/// Where the declaration whose first token is scanned from `q` ends:
/// `var <name> [= <expression>];`, `print <expression>;` or `<expression>;`.
pub open spec fn parse_declaration(src: Seq<char>, q: int) -> Option<int> {
    let (k, e) = tok(src, q);
    if k == TokenType::TokenVar {
        parse_var(src, e)
    } else if k == TokenType::TokenPrint {
        then_semicolon(src, parse_expr(src, e, 2))
    } else {
        then_semicolon(src, parse_expr(src, q, 2))
    }
}

/// Where `<name> [= <expression>];` ends, after a `var` that ends at `e`.
pub open spec fn parse_var(src: Seq<char>, e: int) -> Option<int> {
    let (k2, e2) = tok(src, e);
    if k2 != TokenType::TokenIdentifier {
        None
    } else {
        let (k3, e3) = tok(src, e2);
        then_semicolon(src, if k3 == TokenType::TokenEqual { parse_expr(src, e3, 2) } else { Some(e2) })
    }
}

/// The code an expression parsed at binding power `prec` from `q` compiles
/// to, when `c` constants are already in the pool, and how many constants it
/// adds: operands first, then operators (postfix order).
#[verifier::opaque]
pub open spec fn code_expr(src: Seq<char>, q: int, prec: int, c: nat) -> (Seq<u8>, nat)
    decreases src.len() - q, 0int,
{
    let (k, e) = tok(src, q);
    if q < 0 || e <= q || e > src.len() {
        (seq![], 0)
    } else {
        match rule_for(k).prefix {
            None => (seq![], 0),
            Some(f) => {
                let (c1, n1) = code_prefix(src, e, f, k, prec <= 2, c);
                match parse_prefix(src, e, f, prec <= 2) {
                    None => (c1, n1),
                    Some(q1) => if q1 < e || q1 > src.len() {
                        (c1, n1)
                    } else {
                        let (c2, n2) = code_infix(src, q1, prec, prec <= 2, c + n1);
                        (c1 + c2, n1 + n2)
                    },
                }
            },
        }
    }
}

/// The code of the prefix form `f` started by the token of kind `k` ending at `e`.
pub open spec fn code_prefix(src: Seq<char>, e: int, f: ParseFn, k: TokenType, can_assign: bool, c: nat) -> (Seq<u8>, nat)
    decreases src.len() - e, 1int,
{
    if e < 0 || e > src.len() {
        (seq![], 0)
    } else {
        match f {
            ParseFn::Grouping => code_expr(src, e, 2, c),
            ParseFn::Unary => {
                let (ce, n) = code_expr(src, e, 9, c);
                (ce.push(if k == TokenType::TokenMinus { op_byte(OpCode::OpNegate) } else { op_byte(OpCode::OpNot) }), n)
            },
            ParseFn::Number => (seq![op_byte(OpCode::OpConstant), c as u8], 1),
            ParseFn::String => (seq![op_byte(OpCode::OpConstant), c as u8], 1),
            ParseFn::Literal => (seq![
                if k == TokenType::TokenFalse {
                    op_byte(OpCode::OpFalse)
                } else if k == TokenType::TokenTrue {
                    op_byte(OpCode::OpTrue)
                } else {
                    op_byte(OpCode::OpNil)
                },
            ], 0),
            ParseFn::Variable => {
                let (k2, e2) = tok(src, e);
                if can_assign && k2 == TokenType::TokenEqual {
                    if e2 <= e || e2 > src.len() {
                        (seq![], 0)
                    } else {
                        let (ce, n) = code_expr(src, e2, 2, c + 1);
                        (ce.push(op_byte(OpCode::OpSetGlobal)).push(c as u8), n + 1)
                    }
                } else {
                    (seq![op_byte(OpCode::OpGetGlobal), c as u8], 1)
                }
            },
            ParseFn::Binary => (seq![], 0),
        }
    }
}

/// The code of the binary operators from position `q` on.
pub open spec fn code_infix(src: Seq<char>, q: int, prec: int, can_assign: bool, c: nat) -> (Seq<u8>, nat)
    decreases src.len() - q, 0int,
{
    let (k, e) = tok(src, q);
    if q < 0 || q > src.len() {
        (seq![], 0)
    } else if prec <= level(rule_for(k).precedence) {
        if e <= q || e > src.len() {
            (seq![], 0)
        } else {
            let lvl = level(rule_for(k).precedence) + 1;
            let (ce, n) = code_expr(src, e, lvl, c);
            match parse_expr(src, e, lvl) {
                None => (seq![], 0),
                Some(q2) => if q2 <= q || q2 > src.len() {
                    (seq![], 0)
                } else {
                    let (cr, nr) = code_infix(src, q2, prec, can_assign, c + n);
                    (ce + binary_ops(k) + cr, n + nr)
                },
            }
        }
    } else {
        (seq![], 0)
    }
}

/// The code of `<name> [= <expression>];` after a `var` ending at `e`: the
/// name is constant `c`, the initial value defaults to `nil`.
pub open spec fn code_var(src: Seq<char>, e: int, c: nat) -> (Seq<u8>, nat) {
    let (k2, e2) = tok(src, e);
    let (k3, e3) = tok(src, e2);
    let (ci, n) = if k3 == TokenType::TokenEqual {
        code_expr(src, e3, 2, c + 1)
    } else {
        (seq![op_byte(OpCode::OpNil)], 0)
    };
    (ci.push(op_byte(OpCode::OpDefineGlobal)).push(c as u8), n + 1)
}

/// The code of the declaration whose first token is scanned from `q`.
pub open spec fn code_declaration(src: Seq<char>, q: int, c: nat) -> (Seq<u8>, nat) {
    let (k, e) = tok(src, q);
    if k == TokenType::TokenVar {
        code_var(src, e, c)
    } else if k == TokenType::TokenPrint {
        let (ce, n) = code_expr(src, e, 2, c);
        (ce.push(op_byte(OpCode::OpPrint)), n)
    } else {
        let (ce, n) = code_expr(src, q, 2, c);
        (ce.push(op_byte(OpCode::OpPop)), n)
    }
}

/// The code of the declarations from position `q` on.
#[verifier::opaque]
pub open spec fn code_program(src: Seq<char>, q: int, c: nat) -> Seq<u8>
    decreases src.len() - q,
{
    if q < 0 || q > src.len() || tok(src, q).0 == TokenType::TokenEof {
        seq![]
    } else {
        match parse_declaration(src, q) {
            None => seq![],
            Some(q2) => if q < q2 <= src.len() {
                let (cd, n) = code_declaration(src, q, c);
                cd + code_program(src, q2, c + n)
            } else {
                seq![]
            },
        }
    }
}

/// How many constants the declarations from position `q` on add to a pool
/// that already holds `c`.
#[verifier::opaque]
pub open spec fn constants_program(src: Seq<char>, q: int, c: nat) -> nat
    decreases src.len() - q,
{
    if q < 0 || q > src.len() || tok(src, q).0 == TokenType::TokenEof {
        0
    } else {
        match parse_declaration(src, q) {
            None => 0,
            Some(q2) => if q < q2 <= src.len() {
                let (cd, n) = code_declaration(src, q, c);
                n + constants_program(src, q2, c + n)
            } else {
                0
            },
        }
    }
}

/// What a constant of the pool is: `(true, _)` a number, `(false, text)` an
/// interned string holding `text`.
pub open spec fn const_ok(v: Value, d: (bool, Seq<char>), strings: Seq<Seq<char>>) -> bool {
    if d.0 {
        v.value_type is ValNumber
    } else {
        &&& is_string(v)
        &&& string_ref(v).index < strings.len()
        &&& strings[string_ref(v).index as int] == d.1
    }
}

/// The constants an expression parsed at `prec` from `q` adds to the pool,
/// in order.
#[verifier::opaque]
pub open spec fn pool_expr(src: Seq<char>, q: int, prec: int) -> Seq<(bool, Seq<char>)>
    decreases src.len() - q, 0int,
{
    let (k, e) = tok(src, q);
    if q < 0 || e <= q || e > src.len() {
        seq![]
    } else {
        match rule_for(k).prefix {
            None => seq![],
            Some(f) => {
                let p1 = pool_prefix(src, skip_ws(src, q, false), e, f, k, prec <= 2);
                match parse_prefix(src, e, f, prec <= 2) {
                    None => p1,
                    Some(q1) => if q1 < e || q1 > src.len() {
                        p1
                    } else {
                        p1 + pool_infix(src, q1, prec, prec <= 2)
                    },
                }
            },
        }
    }
}

/// The constants of the prefix form `f` whose first token spans `st .. e`:
/// a number literal gives a number, a string literal its text between the
/// quotes, a name its text.
pub open spec fn pool_prefix(src: Seq<char>, st: int, e: int, f: ParseFn, k: TokenType, can_assign: bool) -> Seq<(bool, Seq<char>)>
    decreases src.len() - e, 1int,
{
    if e < 0 || e > src.len() {
        seq![]
    } else {
        match f {
            ParseFn::Grouping => pool_expr(src, e, 2),
            ParseFn::Unary => pool_expr(src, e, 9),
            ParseFn::Number => seq![(true, Seq::<char>::empty())],
            ParseFn::String => seq![(false, src.subrange(st + 1, e - 1))],
            ParseFn::Variable => {
                let (k2, e2) = tok(src, e);
                if can_assign && k2 == TokenType::TokenEqual {
                    if e2 <= e || e2 > src.len() {
                        seq![]
                    } else {
                        seq![(false, src.subrange(st, e))] + pool_expr(src, e2, 2)
                    }
                } else {
                    seq![(false, src.subrange(st, e))]
                }
            },
            _ => seq![],
        }
    }
}

/// The constants of the binary operators from position `q` on.
pub open spec fn pool_infix(src: Seq<char>, q: int, prec: int, can_assign: bool) -> Seq<(bool, Seq<char>)>
    decreases src.len() - q, 0int,
{
    let (k, e) = tok(src, q);
    if q < 0 || q > src.len() {
        seq![]
    } else if prec <= level(rule_for(k).precedence) {
        if e <= q || e > src.len() {
            seq![]
        } else {
            let lvl = level(rule_for(k).precedence) + 1;
            match parse_expr(src, e, lvl) {
                None => seq![],
                Some(q2) => if q2 <= q || q2 > src.len() {
                    seq![]
                } else {
                    pool_expr(src, e, lvl) + pool_infix(src, q2, prec, can_assign)
                },
            }
        }
    } else {
        seq![]
    }
}

/// The constants of a handler run on the token spanning `st .. e`.
pub open spec fn handler_pool(src: Seq<char>, st: int, e: int, f: ParseFn, k: TokenType, can_assign: bool) -> Seq<(bool, Seq<char>)> {
    if f == ParseFn::Binary {
        pool_expr(src, e, level(rule_for(k).precedence) + 1)
    } else {
        pool_prefix(src, st, e, f, k, can_assign)
    }
}

/// The constants of `<name> [= <expression>];` after a `var` ending at `e`:
/// the name first.
pub open spec fn pool_var(src: Seq<char>, e: int) -> Seq<(bool, Seq<char>)> {
    let (k2, e2) = tok(src, e);
    let (k3, e3) = tok(src, e2);
    seq![(false, src.subrange(skip_ws(src, e, false), e2))] + if k3 == TokenType::TokenEqual {
        pool_expr(src, e3, 2)
    } else {
        seq![]
    }
}

/// The constants of the declaration whose first token is scanned from `q`.
pub open spec fn pool_declaration(src: Seq<char>, q: int) -> Seq<(bool, Seq<char>)> {
    let (k, e) = tok(src, q);
    if k == TokenType::TokenVar {
        pool_var(src, e)
    } else if k == TokenType::TokenPrint {
        pool_expr(src, e, 2)
    } else {
        pool_expr(src, q, 2)
    }
}

/// The constants of the declarations from position `q` on.
#[verifier::opaque]
pub open spec fn pool_program(src: Seq<char>, q: int) -> Seq<(bool, Seq<char>)>
    decreases src.len() - q,
{
    if q < 0 || q > src.len() || tok(src, q).0 == TokenType::TokenEof {
        seq![]
    } else {
        match parse_declaration(src, q) {
            None => seq![],
            Some(q2) => if q < q2 <= src.len() {
                pool_declaration(src, q) + pool_program(src, q2)
            } else {
                seq![]
            },
        }
    }
}

/// The constant pool and the string table only grew: earlier entries stay.
pub open spec fn grows(o: Compiler, n: Compiler) -> bool {
    &&& o.chunk.constants.values@.len() <= n.chunk.constants.values@.len()
    &&& forall|i: int| 0 <= i < o.chunk.constants.values@.len() ==> #[trigger] n.chunk.constants.values@[i] == o.chunk.constants.values@[i]
    &&& o.strings@.len() <= n.strings@.len()
    &&& forall|i: int| 0 <= i < o.strings@.len() ==> #[trigger] n.strings@[i] == o.strings@[i]
}

/// Without an error, the step added the constants `ds` describes.
pub open spec fn pooled(o: Compiler, n: Compiler, ds: Seq<(bool, Seq<char>)>) -> bool {
    !n.parser.had_error ==> {
        &&& n.chunk.constants.values@.len() == o.chunk.constants.values@.len() + ds.len()
        &&& forall|i: int| 0 <= i < ds.len() ==> const_ok(
            #[trigger] n.chunk.constants.values@[o.chunk.constants.values@.len() + i],
            ds[i],
            n.strings@,
        )
    }
}

proof fn lemma_pooled_compose(o: Compiler, m: Compiler, n: Compiler, d1: Seq<(bool, Seq<char>)>, d2: Seq<(bool, Seq<char>)>)
    requires
        pooled(o, m, d1),
        pooled(m, n, d2),
        grows(m, n),
        !n.parser.had_error ==> !m.parser.had_error,
    ensures
        pooled(o, n, d1 + d2),
{
    if !n.parser.had_error {
        let c = o.chunk.constants.values@.len();
        assert forall|i: int| 0 <= i < (d1 + d2).len() implies const_ok(
            #[trigger] n.chunk.constants.values@[c + i],
            (d1 + d2)[i],
            n.strings@,
        ) by {
            if i < d1.len() {
                assert(const_ok(m.chunk.constants.values@[c + i], d1[i], m.strings@));
                assert(n.chunk.constants.values@[c + i] == m.chunk.constants.values@[c + i]);
                let v = m.chunk.constants.values@[c + i];
                if !d1[i].0 {
                    assert(n.strings@[string_ref(v).index as int] == m.strings@[string_ref(v).index as int]);
                }
            } else {
                let j = i - d1.len();
                assert(const_ok(n.chunk.constants.values@[m.chunk.constants.values@.len() + j], d2[j], n.strings@));
            }
        }
    }
}

/// The declarations from position `q` on run to the end of the source.
#[verifier::opaque]
pub open spec fn parse_program(src: Seq<char>, q: int) -> bool
    decreases src.len() - q,
{
    if q < 0 || q > src.len() {
        false
    } else if tok(src, q).0 == TokenType::TokenEof {
        true
    } else {
        match parse_declaration(src, q) {
            None => false,
            Some(q2) => q < q2 && parse_program(src, q2),
        }
    }
}

proof fn lemma_infix_at_least(src: Seq<char>, q: int, prec: int, can_assign: bool)
    requires
        parse_infix(src, q, prec, can_assign) is Some,
    ensures
        q <= parse_infix(src, q, prec, can_assign)->0 <= src.len(),
    decreases src.len() - q,
{
    reveal(parse_expr);
    let (k, e) = tok(src, q);
    if prec <= level(rule_for(k).precedence) {
        let q2 = parse_expr(src, e, level(rule_for(k).precedence) + 1)->0;
        lemma_infix_at_least(src, q2, prec, can_assign);
    }
}

/// An expression covers at least one token.
proof fn lemma_expr_advances(src: Seq<char>, q: int, prec: int)
    requires
        parse_expr(src, q, prec) is Some,
    ensures
        q < parse_expr(src, q, prec)->0 <= src.len(),
{
    reveal(parse_expr);
    let (k, e) = tok(src, q);
    let q1 = parse_prefix(src, e, rule_for(k).prefix->0, prec <= 2)->0;
    lemma_infix_at_least(src, q1, prec, prec <= 2);
}

/// One level of `parse_expr` and `code_expr`: a prefix form, then operators.
pub proof fn lemma_expr_unfold(src: Seq<char>, q: int, prec: int, c: nat)
    ensures
        ({
            let (k, e) = tok(src, q);
            let ca = prec <= 2;
            if q < 0 || e <= q || e > src.len() || rule_for(k).prefix is None {
                parse_expr(src, q, prec) is None
            } else {
                let f = rule_for(k).prefix->0;
                let (c1, n1) = code_prefix(src, e, f, k, ca, c);
                &&& parse_expr(src, q, prec) == match parse_prefix(src, e, f, ca) {
                    None => None,
                    Some(q1) => if q1 < e || q1 > src.len() {
                        None
                    } else {
                        parse_infix(src, q1, prec, ca)
                    },
                }
                &&& (parse_prefix(src, e, f, ca) is Some && e <= parse_prefix(src, e, f, ca)->0 <= src.len())
                    ==> pool_expr(src, q, prec) == pool_prefix(src, skip_ws(src, q, false), e, f, k, ca)
                    + pool_infix(src, parse_prefix(src, e, f, ca)->0, prec, ca)
                &&& (parse_prefix(src, e, f, ca) is Some && e <= parse_prefix(src, e, f, ca)->0 <= src.len())
                    ==> code_expr(src, q, prec, c) == (
                    c1 + code_infix(src, parse_prefix(src, e, f, ca)->0, prec, ca, c + n1).0,
                    n1 + code_infix(src, parse_prefix(src, e, f, ca)->0, prec, ca, c + n1).1,
                )
            }
        }),
{
    reveal(parse_expr);
    reveal(code_expr);
    reveal(pool_expr);
}

proof fn lemma_semicolon_advances(src: Seq<char>, r: Option<int>)
    requires
        then_semicolon(src, r) is Some,
        r is Some,
        0 <= r->0 <= src.len(),
    ensures
        r->0 < then_semicolon(src, r)->0 <= src.len(),
{
    lemma_lex_bounds(src, r->0);
}

/// A declaration covers at least one token.
pub proof fn lemma_declaration_advances(src: Seq<char>, q: int)
    requires
        0 <= q <= src.len(),
        parse_declaration(src, q) is Some,
    ensures
        q < parse_declaration(src, q)->0 <= src.len(),
{
    lemma_lex_bounds(src, q);
    let (k, e) = tok(src, q);
    if k == TokenType::TokenVar {
        lemma_lex_bounds(src, e);
        let (k2, e2) = tok(src, e);
        lemma_lex_bounds(src, e2);
        let (k3, e3) = tok(src, e2);
        if k3 == TokenType::TokenEqual {
            lemma_expr_advances(src, e3, 2);
            lemma_semicolon_advances(src, parse_expr(src, e3, 2));
        } else {
            lemma_semicolon_advances(src, Some(e2));
        }
    } else if k == TokenType::TokenPrint {
        lemma_expr_advances(src, e, 2);
        lemma_semicolon_advances(src, parse_expr(src, e, 2));
    } else {
        lemma_expr_advances(src, q, 2);
        lemma_semicolon_advances(src, parse_expr(src, q, 2));
    }
}

/// One declaration, then the rest of the program.
pub proof fn lemma_program_step(src: Seq<char>, q: int, c: nat)
    requires
        0 <= q <= src.len(),
        tok(src, q).0 != TokenType::TokenEof,
        parse_declaration(src, q) is Some,
        q < parse_declaration(src, q)->0 <= src.len(),
    ensures
        ({
            let q2 = parse_declaration(src, q)->0;
            let (cd, n) = code_declaration(src, q, c);
            &&& parse_program(src, q) == parse_program(src, q2)
            &&& code_program(src, q, c) == cd + code_program(src, q2, c + n)
            &&& constants_program(src, q, c) == n + constants_program(src, q2, c + n)
            &&& pool_program(src, q) == pool_declaration(src, q) + pool_program(src, q2)
        }),
{
    reveal(parse_program);
    reveal(code_program);
    reveal(constants_program);
    reveal(pool_program);
}

/// A program that ends here is well formed, has no code and needs no constant.
pub proof fn lemma_program_end(src: Seq<char>, q: int, c: nat)
    requires
        0 <= q <= src.len(),
        tok(src, q).0 == TokenType::TokenEof,
    ensures
        parse_program(src, q),
        code_program(src, q, c) == Seq::<u8>::empty(),
        constants_program(src, q, c) == 0,
        pool_program(src, q) == Seq::<(bool, Seq<char>)>::empty(),
{
    reveal(parse_program);
    reveal(code_program);
    reveal(constants_program);
    reveal(pool_program);
}

/// A program that goes on past `q` is well formed only if a declaration
/// starts at `q` and a well-formed program follows it.
pub proof fn lemma_program_next(src: Seq<char>, q: int)
    requires
        0 <= q <= src.len(),
        tok(src, q).0 != TokenType::TokenEof,
        parse_program(src, q),
    ensures
        parse_declaration(src, q) is Some,
        q < parse_declaration(src, q)->0 <= src.len(),
{
    reveal(parse_program);
    let q2 = parse_declaration(src, q)->0;
    if q2 > src.len() {
        assert(!parse_program(src, q2));
    }
}

/// A well-formed program: free of lexical errors, and a sequence of declarations.
pub open spec fn valid_program(src: Seq<char>) -> bool {
    clean(src, 0, src.len() as int) && parse_program(src, 0)
}

/// The message for an error token: an unterminated string when it starts
/// with a quote, else an unexpected character.
pub open spec fn lex_error_message(src: Seq<char>, t: Token) -> Seq<char> {
    if src[t.start as int] == '"' {
        "Unterminated string."@
    } else {
        "Unexpected character"@
    }
}

/// The first report of the compilation is that the constant pool overflowed.
pub open spec fn too_many_first(c: Compiler) -> bool {
    &&& c.messages@.len() > 0
    &&& exists|t: Token| c.messages@[0]@ == #[trigger] report(c.scanner.source@, t, "Too many constants in one chunk."@)
}

/// `s` reports an error token of `src` with its lexical message.
pub open spec fn lexical_report(src: Seq<char>, s: Seq<char>) -> bool {
    exists|t: Token| t.token_type == TokenType::TokenError && s == #[trigger] report(src, t, lex_error_message(src, t))
}

/// `s` is a compile error report about some token of `src`.
pub open spec fn is_report(src: Seq<char>, s: Seq<char>) -> bool {
    exists|t: Token, message: Seq<char>| s == #[trigger] report(src, t, message)
}

/// The compiler state for one compilation.
pub struct Compiler {
    pub scanner: Scanner,
    pub parser: Parser,
    pub chunk: Chunk,
    pub strings: StringTable,
    /// The compile errors reported, one line each.
    pub messages: Vec<String>,
}

pub open spec fn token_wf(t: Token, len: int) -> bool {
    &&& t.start + t.length <= len
    &&& t.token_type == TokenType::TokenString ==> t.length >= 2
    &&& t.token_type == TokenType::TokenError ==> t.length >= 1
}

impl Compiler {
    /// The invariant: `wf_base`, and, until an error is reported, the scanner
    /// stops right after the lookahead token and has met no error token.
    pub open spec fn wf(&self) -> bool {
        &&& self.wf_base()
        &&& !self.parser.had_error ==> {
            &&& self.scanner.current == self.parser.current.start + self.parser.current.length
            &&& clean(self.scanner.source@, 0, self.scanner.current as int)
        }
    }

    pub open spec fn wf_base(&self) -> bool {
        let len = self.scanner.source@.len() as int;
        &&& self.scanner.wf()
        &&& self.strings.wf()
        &&& self.chunk.wf()
        &&& token_wf(self.parser.current, len)
        &&& token_wf(self.parser.previous, len)
        &&& self.parser.current.token_type == TokenType::TokenEof ==> self.scanner.current == len
        &&& self.parser.had_error == (self.messages@.len() > 0)
        &&& self.parser.panic_mode ==> self.parser.had_error
        &&& forall|i: int| 0 <= i < self.messages@.len() ==> is_report(self.scanner.source@, #[trigger] self.messages@[i]@)
        &&& reaches(self.scanner.source@, 0, self.scanner.current as int)
        &&& forall|i: int| 0 <= i < self.chunk.constants.values@.len()
            ==> (is_string(#[trigger] self.chunk.constants.values@[i])
                ==> string_ref(self.chunk.constants.values@[i]).index < self.strings@.len())
    }

    /// What is left to read: characters not yet scanned, and whether the
    /// lookahead token is still to be consumed.
    pub open spec fn progress(&self) -> int {
        2 * (self.scanner.source@.len() - self.scanner.current) + if self.parser.current.token_type
            == TokenType::TokenEof {
            0int
        } else {
            1int
        }
    }
}

impl Compiler {
    /// The end of the previous token: where the lookahead was scanned from.
    pub open spec fn prev_end(&self) -> int {
        self.parser.previous.start + self.parser.previous.length
    }

    /// Until an error is reported, the lookahead is the token scanned from
    /// the end of the previous one.
    pub open spec fn synced(&self) -> bool {
        !self.parser.had_error ==> {
            &&& 0 <= self.prev_end() <= self.scanner.source@.len()
            &&& self.parser.current.token_type == tok(self.scanner.source@, self.prev_end()).0
            &&& self.parser.current.start + self.parser.current.length == tok(self.scanner.source@, self.prev_end()).1
            &&& self.parser.current.start == skip_ws(self.scanner.source@, self.prev_end(), false)
        }
    }
}

/// A parsing step agrees with the grammar: without an error it ends where
/// the grammar says (`r`), and on a clean source where the grammar accepts it
/// reports an error only when the `need` constants it adds overflow the pool.
pub open spec fn follows(o: Compiler, n: Compiler, r: Option<int>, need: nat) -> bool {
    &&& !n.parser.had_error ==> r == Some(n.prev_end())
    &&& (!o.parser.had_error && r is Some && clean(o.scanner.source@, 0, o.scanner.source@.len() as int))
        ==> (!n.parser.had_error || (o.chunk.constants.values@.len() + need > MAX_CONSTANTS && too_many_first(n)))
}

/// Without an error, the step appended the code `r.0` and `r.1` constants.
pub open spec fn emits(o: Compiler, n: Compiler, r: (Seq<u8>, nat)) -> bool {
    !n.parser.had_error ==> {
        &&& n.chunk.code@ == o.chunk.code@ + r.0
        &&& n.chunk.constants.values@.len() == o.chunk.constants.values@.len() + r.1
    }
}

/// What every parsing step keeps: the invariant, the source, errors once
/// reported, and panic mode, during which nothing more is reported.
pub open spec fn keeps(o: Compiler, n: Compiler) -> bool {
    &&& n.wf()
    &&& n.scanner.source@ == o.scanner.source@
    &&& n.progress() <= o.progress()
    &&& o.parser.had_error ==> n.parser.had_error
    &&& o.parser.panic_mode ==> n.parser.panic_mode && n.messages@ == o.messages@
    &&& o.chunk.constants.values@.len() <= n.chunk.constants.values@.len()
    &&& n.synced()
    &&& (o.synced() && !n.parser.had_error) ==> o.prev_end() <= n.prev_end()
    &&& o.parser.had_error ==> n.messages@[0] == o.messages@[0]
    &&& grows(o, n)
    &&& n.messages@.len() <= o.messages@.len() + 1
    &&& n.messages@.len() > o.messages@.len() ==> n.parser.panic_mode
}

/// The step consumed the lookahead token, unless it was the end of the source.
pub open spec fn consumed(o: Compiler, n: Compiler) -> bool {
    o.parser.current.token_type != TokenType::TokenEof ==> n.progress() < o.progress()
}

impl Compiler {
    pub fn new_compiler(strings: StringTable) -> (c: Compiler)
        requires
            strings.wf(),
        ensures
            c.wf(),
            c.strings@ == strings@,
            c.scanner.source@.len() == 0,
    {
        let empty: Vec<char> = Vec::new();
        Compiler {
            scanner: Init_Scanner(&empty),
            parser: Parser::new(),
            chunk: init_chunk(),
            strings,
            messages: Vec::new(),
        }
    }

    /// Reports `message` at `token`, unless a report was already made since
    /// the last recovery point; either way the compilation has failed.
    pub fn error_at(&mut self, token: Token, message: &str)
        requires
            old(self).wf_base(),
            token_wf(token, old(self).scanner.source@.len() as int),
        ensures
            final(self).wf(),
            final(self).parser.had_error,
            final(self).parser.panic_mode,
            old(self).parser.panic_mode ==> final(self).messages@ == old(self).messages@,
            !old(self).parser.panic_mode ==> final(self).messages@.len() == old(self).messages@.len() + 1
                && final(self).messages@.last()@ == report(old(self).scanner.source@, token, message@)
                && final(self).messages@.drop_last() == old(self).messages@,
            final(self).scanner == old(self).scanner,
            final(self).chunk == old(self).chunk,
            final(self).strings == old(self).strings,
            final(self).parser.current == old(self).parser.current,
            final(self).parser.previous == old(self).parser.previous,
    {
        if self.parser.panic_mode {
            return;
        }
        self.parser.panic_mode = true;
        let mut text: Vec<char> = Vec::new();
        push_str(&mut text, "[line ");
        push_decimal(&mut text, token.line as u64);
        push_str(&mut text, "] Error");
        let ghost before_place = text@;
        if token.token_type == TokenType::TokenEof {
            push_str(&mut text, " at end");
        } else if token.token_type == TokenType::TokenError {
        } else {
            push_str(&mut text, " at ");
            let end = token.start + token.length;
            let mut i: usize = token.start;
            while i < end
                invariant
                    end == token.start + token.length,
                    token.start <= i <= end,
                    end <= self.scanner.source@.len(),
                    text@ == before_place + " at "@ + self.scanner.source@.subrange(token.start as int, i as int),
                decreases end - i,
            {
                text.push(self.scanner.source[i]);
                assert(self.scanner.source@.subrange(token.start as int, i + 1)
                    == self.scanner.source@.subrange(token.start as int, i as int).push(self.scanner.source@[i as int]));
                i = i + 1;
            }
        }
        push_str(&mut text, ": ");
        push_str(&mut text, message);
        proof {
            let place = if token.token_type == TokenType::TokenEof {
                " at end"@
            } else if token.token_type == TokenType::TokenError {
                Seq::<char>::empty()
            } else {
                " at "@ + token_text(self.scanner.source@, token)
            };
            assert(text@ =~= "[line "@ + decimal(token.line as nat) + "] Error"@ + place + ": "@ + message@);
        }
        let ghost line = text@;
        self.messages.push(string_of(&text));
        self.parser.had_error = true;
        proof {
            assert(self.messages@.drop_last() =~= old(self).messages@);
            assert(line == report(self.scanner.source@, token, message@));
            assert forall|i: int| 0 <= i < self.messages@.len() implies is_report(self.scanner.source@, #[trigger] self.messages@[i]@) by {
                if i < old(self).messages@.len() {
                    assert(self.messages@[i] == old(self).messages@[i]);
                }
            }
        }
    }

    pub fn error_at_current(&mut self, message: &str)
        requires
            old(self).wf_base(),
        ensures
            final(self).wf(),
            final(self).parser.had_error,
            final(self).parser.panic_mode,
            old(self).parser.panic_mode ==> final(self).messages@ == old(self).messages@,
            !old(self).parser.panic_mode ==> final(self).messages@ == old(self).messages@.push(final(self).messages@.last())
                && final(self).messages@.last()@ == report(old(self).scanner.source@, old(self).parser.current, message@),
            final(self).scanner == old(self).scanner,
            final(self).chunk == old(self).chunk,
            final(self).strings == old(self).strings,
            final(self).parser.current == old(self).parser.current,
            final(self).parser.previous == old(self).parser.previous,
    {
        let t = self.parser.current;
        self.error_at(t, message);
        proof {
            if !old(self).parser.panic_mode {
                assert(self.messages@ =~= old(self).messages@.push(self.messages@.last()));
            }
        }
    }

    pub fn error(&mut self, message: &str)
        requires
            old(self).wf_base(),
        ensures
            final(self).wf(),
            final(self).parser.had_error,
            final(self).parser.panic_mode,
            old(self).parser.panic_mode ==> final(self).messages@ == old(self).messages@,
            !old(self).parser.panic_mode ==> final(self).messages@ == old(self).messages@.push(final(self).messages@.last())
                && final(self).messages@.last()@ == report(old(self).scanner.source@, old(self).parser.previous, message@),
            final(self).scanner == old(self).scanner,
            final(self).chunk == old(self).chunk,
            final(self).strings == old(self).strings,
            final(self).parser.current == old(self).parser.current,
            final(self).parser.previous == old(self).parser.previous,
    {
        let t = self.parser.previous;
        self.error_at(t, message);
        proof {
            if !old(self).parser.panic_mode {
                assert(self.messages@ =~= old(self).messages@.push(self.messages@.last()));
            }
        }
    }
}

/// Nothing but the chunk changed.
pub open spec fn only_chunk(o: Compiler, n: Compiler) -> bool {
    &&& n.scanner == o.scanner
    &&& n.parser == o.parser
    &&& n.strings == o.strings
    &&& n.messages == o.messages
}

impl Compiler {
    /// Shifts the lookahead token into `previous` and reads the next one,
    /// reporting and skipping error tokens.
    pub fn advance(&mut self)
        requires
            old(self).wf(),
        ensures
            keeps(*old(self), *final(self)),
            consumed(*old(self), *final(self)),
            final(self).parser.previous == old(self).parser.current,
            final(self).parser.current.token_type != TokenType::TokenError,
            final(self).chunk == old(self).chunk,
            final(self).strings == old(self).strings,
            ({
                let next = lex(old(self).scanner.source@, skip_ws(old(self).scanner.source@, old(self).scanner.current as int, false));
                next.0 != TokenType::TokenError ==> {
                    &&& final(self).parser.current.token_type == next.0
                    &&& final(self).messages == old(self).messages
                    &&& final(self).parser.had_error == old(self).parser.had_error
                }
            }),
            (!old(self).parser.had_error && clean(old(self).scanner.source@, 0, old(self).scanner.source@.len() as int))
                ==> !final(self).parser.had_error,
            final(self).messages@.subrange(0, old(self).messages@.len() as int) == old(self).messages@,
            forall|i: int| old(self).messages@.len() <= i < final(self).messages@.len()
                ==> lexical_report(old(self).scanner.source@, #[trigger] final(self).messages@[i]@),
            clean(old(self).scanner.source@, 0, old(self).scanner.source@.len() as int) ==> final(self).messages
                == old(self).messages,
    {
        let ghost src = self.scanner.source@;
        assert(self.messages@.subrange(0, self.messages@.len() as int) =~= self.messages@);
        proof {
            if !self.parser.had_error && clean(src, 0, src.len() as int) {
                lemma_clean_no_error(src, self.scanner.current as int);
            }
            if clean(src, 0, src.len() as int) {
                lemma_reaches_no_error(src, 0, self.scanner.current as int);
            }
            if self.synced() {
                lemma_lex_bounds(src, self.prev_end());
            }
        }
        let ghost sc0 = self.scanner.current as int;
        self.parser.previous = self.parser.current;
        loop
            invariant
                self.wf_base(),
                self.scanner.source@ == src,
                src == old(self).scanner.source@,
                sc0 == old(self).scanner.current,
                self.parser.previous == old(self).parser.current,
                self.parser.current == old(self).parser.current,
                self.chunk == old(self).chunk,
                self.strings == old(self).strings,
                sc0 <= self.scanner.current,
                !self.parser.had_error ==> self.scanner.current == sc0 && !old(self).parser.had_error,
                self.scanner.current == sc0 ==> self.messages == old(self).messages
                    && self.parser.had_error == old(self).parser.had_error,
                self.scanner.current != sc0 ==> lex(src, skip_ws(src, sc0, false)).0 == TokenType::TokenError,
                (!old(self).parser.had_error && clean(src, 0, src.len() as int)) ==> lex(
                    src,
                    skip_ws(src, sc0, false),
                ).0 != TokenType::TokenError,
                clean(src, 0, src.len() as int) ==> lex(src, skip_ws(src, sc0, false)).0 != TokenType::TokenError,
                (old(self).synced() && !old(self).parser.had_error) ==> old(self).prev_end()
                    <= old(self).parser.current.start + old(self).parser.current.length,
                old(self).messages@.len() <= self.messages@.len(),
                self.messages@.len() <= old(self).messages@.len() + 1,
                self.messages@.len() > old(self).messages@.len() ==> self.parser.panic_mode,
                self.messages@.subrange(0, old(self).messages@.len() as int) == old(self).messages@,
                forall|i: int| old(self).messages@.len() <= i < self.messages@.len()
                    ==> lexical_report(src, #[trigger] self.messages@[i]@),
                old(self).parser.had_error ==> self.parser.had_error,
                old(self).parser.panic_mode ==> self.parser.panic_mode && self.messages@ == old(self).messages@,
                old(self).wf(),
            decreases src.len() - self.scanner.current,
        {
            proof {
                lemma_lex_bounds(src, self.scanner.current as int);
            }
            let ghost before = self.scanner.current as int;
            proof {
                lemma_reaches_step(src, 0, before);
            }
            let t = Scan_Token(&mut self.scanner);
            if t.token_type != TokenType::TokenError {
                self.parser.current = t;
                proof {
                    if !self.parser.had_error {
                        lemma_clean_step(src, 0, sc0);
                    }
                }
                return;
            }
            let message = if self.scanner.source[t.start] == '"' {
                "Unterminated string."
            } else {
                "Unexpected character"
            };
            assert(message@ == lex_error_message(src, t));
            let ghost before = self.messages@;
            self.error_at(t, message);
            proof {
                assert forall|i: int| old(self).messages@.len() <= i < self.messages@.len()
                    implies lexical_report(src, #[trigger] self.messages@[i]@) by {
                    if i < before.len() {
                        assert(self.messages@[i] == before[i]);
                    } else {
                        assert(self.messages@[i]@ == report(src, t, lex_error_message(src, t)));
                    }
                }
            }
        }
    }

    /// Whether the lookahead token is of the given kind.
    pub fn check(&self, kind: TokenType) -> (r: bool)
        ensures
            r == (self.parser.current.token_type == kind),
    {
        self.parser.current.token_type == kind
    }

    /// Consumes the lookahead token if it is of the given kind.
    pub fn match_token(&mut self, kind: TokenType) -> (r: bool)
        requires
            old(self).wf(),
            old(self).synced(),
        ensures
            keeps(*old(self), *final(self)),
            r == (old(self).parser.current.token_type == kind),
            r ==> consumed(*old(self), *final(self)) && final(self).parser.previous == old(self).parser.current,
            !r ==> *final(self) == *old(self),
            old(self).parser.current.token_type == TokenType::TokenEof ==> {
                &&& final(self).parser.current.token_type == TokenType::TokenEof
                &&& final(self).messages == old(self).messages
                &&& final(self).parser.had_error == old(self).parser.had_error
            },
            (!old(self).parser.had_error && clean(old(self).scanner.source@, 0, old(self).scanner.source@.len() as int))
                ==> !final(self).parser.had_error,
            final(self).chunk == old(self).chunk,
            final(self).strings == old(self).strings,
    {
        if !self.check(kind) {
            return false;
        }
        self.advance();
        true
    }

    /// Consumes the lookahead token if it is of the expected kind, else
    /// reports `message` there without consuming it.
    pub fn consume(&mut self, kind: TokenType, message: &str)
        requires
            old(self).wf(),
            old(self).synced(),
        ensures
            keeps(*old(self), *final(self)),
            old(self).parser.current.token_type == kind ==> consumed(*old(self), *final(self))
                && final(self).parser.previous == old(self).parser.current,
            old(self).parser.current.token_type != kind ==> final(self).parser.had_error
                && final(self).parser.current == old(self).parser.current
                && final(self).parser.previous == old(self).parser.previous
                && final(self).scanner == old(self).scanner
                && (!old(self).parser.panic_mode ==> final(self).messages@.last()@ == report(
                    old(self).scanner.source@,
                    old(self).parser.current,
                    message@,
                )),
            !final(self).parser.had_error ==> final(self).prev_end() == old(self).parser.current.start
                + old(self).parser.current.length,
            (old(self).parser.current.token_type == kind && !old(self).parser.had_error && clean(
                old(self).scanner.source@,
                0,
                old(self).scanner.source@.len() as int,
            )) ==> !final(self).parser.had_error,
            final(self).chunk == old(self).chunk,
            final(self).strings == old(self).strings,
    {
        if self.check(kind) {
            self.advance();
            return;
        }
        self.error_at_current(message);
    }

    /// Appends a byte, attributed to the line of the previous token.
    pub fn emit_byte(&mut self, byte: u8)
        requires
            old(self).wf(),
        ensures
            final(self).wf(),
            only_chunk(*old(self), *final(self)),
            final(self).chunk.code@ == old(self).chunk.code@.push(byte),
            final(self).chunk.constants.values@ == old(self).chunk.constants.values@,
    {
        let line = self.parser.previous.line;
        write_chunk(&mut self.chunk, byte, line);
    }

    pub fn emit_bytes(&mut self, byte1: u8, byte2: u8)
        requires
            old(self).wf(),
        ensures
            final(self).wf(),
            only_chunk(*old(self), *final(self)),
            final(self).chunk.code@ == old(self).chunk.code@.push(byte1).push(byte2),
            final(self).chunk.constants.values@ == old(self).chunk.constants.values@,
    {
        self.emit_byte(byte1);
        self.emit_byte(byte2);
    }

    pub fn emit_return(&mut self)
        requires
            old(self).wf(),
        ensures
            final(self).wf(),
            only_chunk(*old(self), *final(self)),
            final(self).chunk.code@ == old(self).chunk.code@.push(op_byte(OpCode::OpReturn)),
            final(self).chunk.constants.values@ == old(self).chunk.constants.values@,
    {
        self.emit_byte(OpCode::OpReturn.byte());
    }

    /// Adds `value` to the constant pool and returns its index; when the pool
    /// is full, reports "Too many constants in one chunk." instead.
    pub fn make_constant(&mut self, value: Value) -> (k: u8)
        requires
            old(self).wf(),
            old(self).synced(),
            is_string(value) ==> string_ref(value).index < old(self).strings@.len(),
        ensures
            keeps(*old(self), *final(self)),
            final(self).scanner == old(self).scanner,
            final(self).parser.current == old(self).parser.current,
            final(self).parser.previous == old(self).parser.previous,
            final(self).strings == old(self).strings,
            final(self).chunk.code@ == old(self).chunk.code@,
            old(self).chunk.constants.values@.len() < MAX_CONSTANTS ==> {
                &&& final(self).chunk.constants.values@ == old(self).chunk.constants.values@.push(value)
                &&& k == old(self).chunk.constants.values@.len()
                &&& final(self).messages == old(self).messages
                &&& final(self).parser == old(self).parser
            },
            old(self).chunk.constants.values@.len() >= MAX_CONSTANTS && !old(self).parser.had_error
                ==> too_many_first(*final(self)),
            old(self).chunk.constants.values@.len() >= MAX_CONSTANTS ==> {
                &&& k == 0
                &&& final(self).chunk.constants.values@ == old(self).chunk.constants.values@
                &&& final(self).parser.had_error
                &&& !old(self).parser.panic_mode ==> final(self).messages@.last()@ == report(
                    old(self).scanner.source@,
                    old(self).parser.previous,
                    "Too many constants in one chunk."@,
                )
            },
    {
        if self.chunk.constants.values.len() >= MAX_CONSTANTS {
            self.error("Too many constants in one chunk.");
            return 0;
        }
        let k = add_constant(&mut self.chunk, value);
        k as u8
    }

    /// Emits an instruction that pushes `value`.
    pub fn emit_constant(&mut self, value: Value)
        requires
            old(self).wf(),
            old(self).synced(),
            is_string(value) ==> string_ref(value).index < old(self).strings@.len(),
        ensures
            keeps(*old(self), *final(self)),
            final(self).scanner == old(self).scanner,
            final(self).parser.current == old(self).parser.current,
            final(self).parser.previous == old(self).parser.previous,
            final(self).strings == old(self).strings,
            old(self).chunk.constants.values@.len() < MAX_CONSTANTS ==> {
                &&& final(self).chunk.constants.values@ == old(self).chunk.constants.values@.push(value)
                &&& final(self).chunk.code@ == old(self).chunk.code@.push(op_byte(OpCode::OpConstant)).push(
                    old(self).chunk.constants.values@.len() as u8,
                )
            },
            old(self).chunk.constants.values@.len() >= MAX_CONSTANTS ==> final(self).parser.had_error,
            final(self).parser.had_error ==> old(self).parser.had_error || (old(self).chunk.constants.values@.len() >= MAX_CONSTANTS
                && too_many_first(*final(self))),
    {
        let k = self.make_constant(value);
        self.emit_bytes(OpCode::OpConstant.byte(), k);
    }

    /// Closes the chunk with a `return`.
    pub fn end_compiler(&mut self)
        requires
            old(self).wf(),
        ensures
            final(self).wf(),
            only_chunk(*old(self), *final(self)),
            final(self).chunk.code@ == old(self).chunk.code@.push(op_byte(OpCode::OpReturn)),
            final(self).chunk.constants.values@ == old(self).chunk.constants.values@,
    {
        self.emit_return();
    }
}

/// The token kinds that a handler of the Pratt table is invoked on.
pub open spec fn handles(f: ParseFn, kind: TokenType) -> bool {
    rule_for(kind).prefix == Some(f) || rule_for(kind).infix == Some(f)
}

impl Compiler {
    /// The source characters `from .. to`.
    fn text_between(&self, from: usize, to: usize) -> (r: Vec<char>)
        requires
            from <= to <= self.scanner.source@.len(),
        ensures
            r@ == self.scanner.source@.subrange(from as int, to as int),
    {
        let mut r: Vec<char> = Vec::new();
        let mut i = from;
        while i < to
            invariant
                from <= i <= to <= self.scanner.source@.len(),
                r@ == self.scanner.source@.subrange(from as int, i as int),
            decreases to - i,
        {
            r.push(self.scanner.source[i]);
            assert(self.scanner.source@.subrange(from as int, i + 1) == self.scanner.source@.subrange(from as int, i as int).push(self.scanner.source@[i as int]));
            i = i + 1;
        }
        r
    }

    /// Parses an expression.
    pub fn expression<H: NumberHost>(&mut self, host: &H)
        requires
            old(self).wf(),
            old(self).synced(),
        ensures
            keeps(*old(self), *final(self)),
            consumed(*old(self), *final(self)),
            follows(*old(self), *final(self), parse_expr(old(self).scanner.source@, old(self).prev_end(), 2), code_expr(old(self).scanner.source@, old(self).prev_end(), 2, old(self).chunk.constants.values@.len()).1),
            emits(*old(self), *final(self), code_expr(old(self).scanner.source@, old(self).prev_end(), 2, old(self).chunk.constants.values@.len())),
            pooled(*old(self), *final(self), pool_expr(old(self).scanner.source@, old(self).prev_end(), 2)),
        decreases old(self).progress(), 1int,
    {
        self.parse_precedence(Precedence::PrecAssignment, host);
    }

    /// Parses an expression whose operators bind at least as tightly as
    /// `precedence`, emitting its code.
    #[verifier::rlimit(80)]
    pub fn parse_precedence<H: NumberHost>(&mut self, precedence: Precedence, host: &H)
        requires
            old(self).wf(),
            old(self).synced(),
            level(precedence) >= 2,
        ensures
            keeps(*old(self), *final(self)),
            consumed(*old(self), *final(self)),
            follows(*old(self), *final(self), parse_expr(old(self).scanner.source@, old(self).prev_end(), level(precedence) as int), code_expr(old(self).scanner.source@, old(self).prev_end(), level(precedence) as int, old(self).chunk.constants.values@.len()).1),
            emits(*old(self), *final(self), code_expr(old(self).scanner.source@, old(self).prev_end(), level(precedence) as int, old(self).chunk.constants.values@.len())),
            pooled(*old(self), *final(self), pool_expr(old(self).scanner.source@, old(self).prev_end(), level(precedence) as int)),
        decreases old(self).progress(), 0int,
    {
        let ghost src = self.scanner.source@;
        let ghost q0 = self.prev_end();
        let ghost c0 = self.chunk.constants.values@.len();
        let ghost code0 = self.chunk.code@;
        proof {
            lemma_lex_bounds(src, q0);
            lemma_expr_unfold(src, q0, level(precedence) as int, c0);
        }
        self.advance();
        let prefix = get_rule(self.parser.previous.token_type).prefix;
        let can_assign = precedence.level() <= Precedence::PrecAssignment.level();
        let ghost e = self.prev_end();
        let ghost k = self.parser.previous.token_type;
        match prefix {
            None => {
                self.error("Expect expression");
                return;
            },
            Some(f) => self.apply(f, can_assign, host),
        }
        let ghost q1 = self.prev_end();
        let ghost c1 = self.chunk.constants.values@.len();
        let ghost code1 = self.chunk.code@;
        let ghost s_app = *self;
        self.infix_loop(precedence, can_assign, host);
        proof {
            let f = rule_for(k).prefix->0;
            let p1 = pool_prefix(src, skip_ws(src, q0, false), e, f, k, can_assign);
            let p2 = pool_infix(src, q1, level(precedence) as int, can_assign);
            assert(pooled(*old(self), s_app, p1));
            lemma_pooled_compose(*old(self), s_app, *self, p1, p2);
        }
        proof {
            if !self.parser.had_error {
                let f = rule_for(k).prefix->0;
                let pre = code_prefix(src, e, f, k, can_assign, c0);
                let post = code_infix(src, q1, level(precedence) as int, can_assign, c1);
                assert(code1 == code0 + pre.0);
                assert(self.chunk.code@ == code1 + post.0);
                assert(self.chunk.code@ =~= code0 + (pre.0 + post.0));
            }
        }
    }

    /// The binary operators that follow an operand, while they bind at least
    /// as tightly as `precedence`; then rejects an assignment to the result.
    #[verifier::rlimit(60)]
    fn infix_loop<H: NumberHost>(&mut self, precedence: Precedence, can_assign: bool, host: &H)
        requires
            old(self).wf(),
            old(self).synced(),
            level(precedence) >= 2,
            can_assign == (level(precedence) <= 2),
        ensures
            keeps(*old(self), *final(self)),
            follows(*old(self), *final(self), parse_infix(old(self).scanner.source@, old(self).prev_end(), level(precedence) as int, can_assign), code_infix(old(self).scanner.source@, old(self).prev_end(), level(precedence) as int, can_assign, old(self).chunk.constants.values@.len()).1),
            emits(*old(self), *final(self), code_infix(old(self).scanner.source@, old(self).prev_end(), level(precedence) as int, can_assign, old(self).chunk.constants.values@.len())),
            old(self).progress() == final(self).progress() || final(self).progress() < old(self).progress(),
            pooled(*old(self), *final(self), pool_infix(old(self).scanner.source@, old(self).prev_end(), level(precedence) as int, can_assign)),
        decreases old(self).progress(), 0int,
    {
        let ghost src = self.scanner.source@;
        let ghost lvl = level(precedence) as int;
        let ghost q0 = self.prev_end();
        let ghost c0 = self.chunk.constants.values@.len();
        let ghost code0 = self.chunk.code@;
        let ghost goal = parse_infix(src, q0, lvl, can_assign);
        let ghost total = code_infix(src, q0, lvl, can_assign, c0);
        let ghost is_clean = clean(src, 0, src.len() as int);
        let ghost ok0 = !self.parser.had_error;
        let ghost tp = pool_infix(src, q0, lvl, can_assign);
        let ghost mut done: Seq<(bool, Seq<char>)> = seq![];
        assert(self.chunk.code@ =~= self.chunk.code@ + Seq::<u8>::empty());
        assert(done + tp =~= tp);
        while precedence.level() <= get_rule(self.parser.current.token_type).precedence.level()
            invariant
                keeps(*old(self), *self),
                tp == pool_infix(src, q0, lvl, can_assign),
                pooled(*old(self), *self, done),
                !self.parser.had_error ==> done + pool_infix(src, self.prev_end(), lvl, can_assign) == tp,
                level(precedence) >= 2,
                lvl == level(precedence),
                src == self.scanner.source@,
                src == old(self).scanner.source@,
                q0 == old(self).prev_end(),
                code0 == old(self).chunk.code@,
                c0 == old(self).chunk.constants.values@.len(),
                goal == parse_infix(src, q0, lvl, can_assign),
                total == code_infix(src, q0, lvl, can_assign, c0),
                is_clean == clean(src, 0, src.len() as int),
                ok0 == !old(self).parser.had_error,
                can_assign == (lvl <= 2),
                !self.parser.had_error ==> parse_infix(src, self.prev_end(), lvl, can_assign) == goal,
                !self.parser.had_error ==> {
                    let rest = code_infix(src, self.prev_end(), lvl, can_assign, self.chunk.constants.values@.len());
                    &&& code0 + total.0 == self.chunk.code@ + rest.0
                    &&& c0 + total.1 == self.chunk.constants.values@.len() + rest.1
                },
                (ok0 && goal is Some && is_clean) ==> (!self.parser.had_error || (c0 + total.1 > MAX_CONSTANTS && too_many_first(*self))),
            decreases self.progress(),
        {
            let ghost q = self.prev_end();
            let ghost cq = self.chunk.constants.values@.len();
            let ghost codeq = self.chunk.code@;
            proof {
                lemma_lex_bounds(src, q);
                reveal(parse_expr);
                reveal(code_expr);
                reveal(pool_expr);
            }
            self.advance();
            let ghost s_adv = *self;
            let ghost k = self.parser.previous.token_type;
            let ghost e = self.prev_end();
            let ghost st = self.parser.previous.start as int;
            match get_rule(self.parser.previous.token_type).infix {
                Some(f) => self.apply(f, can_assign, host),
                None => {},
            }
            proof {
                let step = handler_pool(src, st, e, ParseFn::Binary, k, can_assign);
                assert(pooled(*old(self), s_adv, done));
                lemma_pooled_compose(*old(self), s_adv, *self, done, step);
                if !self.parser.had_error {
                    assert(done + pool_infix(src, q, lvl, can_assign) =~= (done + step) + pool_infix(src, self.prev_end(), lvl, can_assign));
                }
                done = done + step;
                if !self.parser.had_error {
                    let step = handler_code(src, e, ParseFn::Binary, k, can_assign, cq);
                    let rest = code_infix(src, self.prev_end(), lvl, can_assign, self.chunk.constants.values@.len());
                    assert(self.chunk.code@ == codeq + step.0);
                    assert(codeq + (step.0 + rest.0) =~= self.chunk.code@ + rest.0);
                }
            }
        }
        proof {
            if !self.parser.had_error {
                assert(done + Seq::<(bool, Seq<char>)>::empty() =~= done);
            }
        }
        if can_assign && self.match_token(TokenType::TokenEqual) {
            self.error("Invalid assignment target.");
        }
        proof {
            if !self.parser.had_error {
                assert(self.chunk.code@ + Seq::<u8>::empty() =~= self.chunk.code@);
            }
        }
    }

    /// Runs the handler `f` of the Pratt table on the previous token.
    fn apply<H: NumberHost>(&mut self, f: ParseFn, can_assign: bool, host: &H)
        requires
            old(self).wf(),
            old(self).synced(),
            handles(f, old(self).parser.previous.token_type),
        ensures
            keeps(*old(self), *final(self)),
            follows(*old(self), *final(self), handler_result(old(self).scanner.source@, old(self).prev_end(), f, old(self).parser.previous.token_type, can_assign), handler_code(old(self).scanner.source@, old(self).prev_end(), f, old(self).parser.previous.token_type, can_assign, old(self).chunk.constants.values@.len()).1),
            emits(*old(self), *final(self), handler_code(old(self).scanner.source@, old(self).prev_end(), f, old(self).parser.previous.token_type, can_assign, old(self).chunk.constants.values@.len())),
            pooled(*old(self), *final(self), handler_pool(old(self).scanner.source@, old(self).parser.previous.start as int, old(self).prev_end(), f, old(self).parser.previous.token_type, can_assign)),
        decreases old(self).progress(), 3int,
    {
        match f {
            ParseFn::Grouping => self.grouping(host),
            ParseFn::Unary => self.unary(host),
            ParseFn::Binary => self.binary(host),
            ParseFn::Number => self.number(host),
            ParseFn::String => self.string(),
            ParseFn::Literal => self.literal(),
            ParseFn::Variable => self.variable(can_assign, host),
        }
    }

    /// A parenthesized expression, after its `(`.
    pub fn grouping<H: NumberHost>(&mut self, host: &H)
        requires
            old(self).wf(),
            old(self).synced(),
        ensures
            keeps(*old(self), *final(self)),
            follows(*old(self), *final(self), parse_prefix(old(self).scanner.source@, old(self).prev_end(), ParseFn::Grouping, false), code_prefix(old(self).scanner.source@, old(self).prev_end(), ParseFn::Grouping, old(self).parser.previous.token_type, false, old(self).chunk.constants.values@.len()).1),
            emits(*old(self), *final(self), code_prefix(old(self).scanner.source@, old(self).prev_end(), ParseFn::Grouping, old(self).parser.previous.token_type, false, old(self).chunk.constants.values@.len())),
            pooled(*old(self), *final(self), pool_prefix(old(self).scanner.source@, old(self).parser.previous.start as int, old(self).prev_end(), ParseFn::Grouping, old(self).parser.previous.token_type, false)),
        decreases old(self).progress(), 2int,
    {
        proof {
            reveal(parse_expr);
            reveal(code_expr);
            reveal(pool_expr);
        }
        self.expression(host);
        self.consume(TokenType::TokenRightParen, "Expect ')' after expression.");
    }

    /// A prefix `-` or `!` and its operand.
    pub fn unary<H: NumberHost>(&mut self, host: &H)
        requires
            old(self).wf(),
            old(self).synced(),
            old(self).parser.previous.token_type == TokenType::TokenMinus
                || old(self).parser.previous.token_type == TokenType::TokenBang,
        ensures
            keeps(*old(self), *final(self)),
            final(self).chunk.code@.last() == if old(self).parser.previous.token_type == TokenType::TokenMinus {
                op_byte(OpCode::OpNegate)
            } else {
                op_byte(OpCode::OpNot)
            },
            follows(*old(self), *final(self), parse_prefix(old(self).scanner.source@, old(self).prev_end(), ParseFn::Unary, false), code_prefix(old(self).scanner.source@, old(self).prev_end(), ParseFn::Unary, old(self).parser.previous.token_type, false, old(self).chunk.constants.values@.len()).1),
            emits(*old(self), *final(self), code_prefix(old(self).scanner.source@, old(self).prev_end(), ParseFn::Unary, old(self).parser.previous.token_type, false, old(self).chunk.constants.values@.len())),
            pooled(*old(self), *final(self), pool_prefix(old(self).scanner.source@, old(self).parser.previous.start as int, old(self).prev_end(), ParseFn::Unary, old(self).parser.previous.token_type, false)),
        decreases old(self).progress(), 2int,
    {
        proof {
            reveal(parse_expr);
            reveal(code_expr);
            reveal(pool_expr);
        }
        let operator = self.parser.previous.token_type;
        self.parse_precedence(Precedence::PrecUnary, host);
        if operator == TokenType::TokenMinus {
            self.emit_byte(OpCode::OpNegate.byte());
        } else {
            self.emit_byte(OpCode::OpNot.byte());
        }
    }

    /// The right operand of a binary operator, then the operator's code:
    /// the code ends with `binary_ops` of the operator.
    pub fn binary<H: NumberHost>(&mut self, host: &H)
        requires
            old(self).wf(),
            old(self).synced(),
            rule_for(old(self).parser.previous.token_type).infix == Some(ParseFn::Binary),
        ensures
            keeps(*old(self), *final(self)),
            ({
                let ops = binary_ops(old(self).parser.previous.token_type);
                let code = final(self).chunk.code@;
                code.len() >= ops.len() && code.subrange(code.len() - ops.len(), code.len() as int) == ops
            }),
            follows(*old(self), *final(self), parse_expr(old(self).scanner.source@, old(self).prev_end(), level(rule_for(old(self).parser.previous.token_type).precedence) + 1), code_expr(old(self).scanner.source@, old(self).prev_end(), level(rule_for(old(self).parser.previous.token_type).precedence) + 1, old(self).chunk.constants.values@.len()).1),
            emits(*old(self), *final(self), handler_code(old(self).scanner.source@, old(self).prev_end(), ParseFn::Binary, old(self).parser.previous.token_type, false, old(self).chunk.constants.values@.len())),
            pooled(*old(self), *final(self), handler_pool(old(self).scanner.source@, old(self).parser.previous.start as int, old(self).prev_end(), ParseFn::Binary, old(self).parser.previous.token_type, false)),
        decreases old(self).progress(), 2int,
    {
        let operator = self.parser.previous.token_type;
        let rule = get_rule(operator);
        let ghost start = self.chunk.code@;
        let ghost pe0 = self.prev_end();
        let ghost c0 = self.chunk.constants.values@.len();
        let ghost src = self.scanner.source@;
        self.parse_precedence(rule.precedence.higher(), host);
        let ghost before = self.chunk.code@;
        self.emit_operator(operator);
        proof {
            let ops = binary_ops(operator);
            let code = self.chunk.code@;
            assert(code.subrange(code.len() - ops.len(), code.len() as int) =~= ops);
            if !self.parser.had_error {
                let ce = code_expr(src, pe0, level(rule_for(operator).precedence) + 1, c0).0;
                assert(before == start + ce);
                assert(before + ops =~= start + (ce + ops));
            }
        }
    }

    /// Emits the instructions of a binary operator.
    fn emit_operator(&mut self, operator: TokenType)
        requires
            old(self).wf(),
            rule_for(operator).infix == Some(ParseFn::Binary),
        ensures
            final(self).wf(),
            only_chunk(*old(self), *final(self)),
            final(self).chunk.code@ == old(self).chunk.code@ + binary_ops(operator),
            final(self).chunk.constants.values@ == old(self).chunk.constants.values@,
    {
        let ghost before = self.chunk.code@;
        match operator {
            TokenType::TokenPlus => self.emit_byte(OpCode::OpAdd.byte()),
            TokenType::TokenMinus => self.emit_byte(OpCode::OpSubtract.byte()),
            TokenType::TokenStar => self.emit_byte(OpCode::OpMultiply.byte()),
            TokenType::TokenSlash => self.emit_byte(OpCode::OpDivide.byte()),
            TokenType::TokenBangEqual => self.emit_bytes(OpCode::OpEqual.byte(), OpCode::OpNot.byte()),
            TokenType::TokenEqualEqual => self.emit_byte(OpCode::OpEqual.byte()),
            TokenType::TokenGreater => self.emit_byte(OpCode::OpGreater.byte()),
            TokenType::TokenGreaterEqual => self.emit_bytes(OpCode::OpLess.byte(), OpCode::OpNot.byte()),
            TokenType::TokenLess => self.emit_byte(OpCode::OpLess.byte()),
            _ => self.emit_bytes(OpCode::OpGreater.byte(), OpCode::OpNot.byte()),
        }
        assert(self.chunk.code@ =~= before + binary_ops(operator));
    }

    /// `true`, `false` or `nil`.
    pub fn literal(&mut self)
        requires
            old(self).wf(),
            old(self).synced(),
            handles(ParseFn::Literal, old(self).parser.previous.token_type),
        ensures
            keeps(*old(self), *final(self)),
            only_chunk(*old(self), *final(self)),
            final(self).chunk.code@ == old(self).chunk.code@.push(
                match old(self).parser.previous.token_type {
                    TokenType::TokenFalse => op_byte(OpCode::OpFalse),
                    TokenType::TokenTrue => op_byte(OpCode::OpTrue),
                    _ => op_byte(OpCode::OpNil),
                },
            ),
            follows(*old(self), *final(self), parse_prefix(old(self).scanner.source@, old(self).prev_end(), ParseFn::Literal, false), code_prefix(old(self).scanner.source@, old(self).prev_end(), ParseFn::Literal, old(self).parser.previous.token_type, false, old(self).chunk.constants.values@.len()).1),
            emits(*old(self), *final(self), code_prefix(old(self).scanner.source@, old(self).prev_end(), ParseFn::Literal, old(self).parser.previous.token_type, false, old(self).chunk.constants.values@.len())),
            pooled(*old(self), *final(self), pool_prefix(old(self).scanner.source@, old(self).parser.previous.start as int, old(self).prev_end(), ParseFn::Literal, old(self).parser.previous.token_type, false)),
    {
        let ghost before = self.chunk.code@;
        match self.parser.previous.token_type {
            TokenType::TokenFalse => self.emit_byte(OpCode::OpFalse.byte()),
            TokenType::TokenTrue => self.emit_byte(OpCode::OpTrue.byte()),
            _ => self.emit_byte(OpCode::OpNil.byte()),
        }
        assert(self.chunk.code@ =~= before + seq![self.chunk.code@.last()]);
    }

    /// A number literal: its value comes from the host's parser.
    pub fn number<H: NumberHost>(&mut self, host: &H)
        requires
            old(self).wf(),
            old(self).synced(),
        ensures
            keeps(*old(self), *final(self)),
            follows(*old(self), *final(self), parse_prefix(old(self).scanner.source@, old(self).prev_end(), ParseFn::Number, false), code_prefix(old(self).scanner.source@, old(self).prev_end(), ParseFn::Number, old(self).parser.previous.token_type, false, old(self).chunk.constants.values@.len()).1),
            emits(*old(self), *final(self), code_prefix(old(self).scanner.source@, old(self).prev_end(), ParseFn::Number, old(self).parser.previous.token_type, false, old(self).chunk.constants.values@.len())),
            pooled(*old(self), *final(self), pool_prefix(old(self).scanner.source@, old(self).parser.previous.start as int, old(self).prev_end(), ParseFn::Number, old(self).parser.previous.token_type, false)),
            old(self).chunk.constants.values@.len() < MAX_CONSTANTS ==> {
                &&& final(self).chunk.constants.values@.len() == old(self).chunk.constants.values@.len() + 1
                &&& final(self).chunk.constants.values@.last().value_type is ValNumber
            },
    {
        let t = self.parser.previous;
        let lexeme = string_of(&self.text_between(t.start, t.start + t.length));
        let bits = host.parse_number(lexeme.as_str());
        let ghost before = self.chunk.code@;
        let ghost c = self.chunk.constants.values@.len();
        self.emit_constant(NumberAsValue(bits));
        assert(c < MAX_CONSTANTS ==> self.chunk.code@ =~= before + seq![op_byte(OpCode::OpConstant), c as u8]);
    }

    /// A string literal: its text between the quotes, interned.
    pub fn string(&mut self)
        requires
            old(self).wf(),
            old(self).synced(),
            old(self).parser.previous.token_type == TokenType::TokenString,
        ensures
            keeps(*old(self), *final(self)),
            old(self).chunk.constants.values@.len() < MAX_CONSTANTS ==> ({
                let v = final(self).chunk.constants.values@.last();
                let t = old(self).parser.previous;
                &&& v.value_type is ValObj
                &&& final(self).strings@[crate::value::string_ref(v).index as int]
                    == old(self).scanner.source@.subrange(t.start + 1, t.start + t.length - 1)
                &&& final(self).strings.holds(crate::value::string_ref(v))
            }),
            follows(*old(self), *final(self), parse_prefix(old(self).scanner.source@, old(self).prev_end(), ParseFn::String, false), code_prefix(old(self).scanner.source@, old(self).prev_end(), ParseFn::String, old(self).parser.previous.token_type, false, old(self).chunk.constants.values@.len()).1),
            emits(*old(self), *final(self), code_prefix(old(self).scanner.source@, old(self).prev_end(), ParseFn::String, old(self).parser.previous.token_type, false, old(self).chunk.constants.values@.len())),
            pooled(*old(self), *final(self), pool_prefix(old(self).scanner.source@, old(self).parser.previous.start as int, old(self).prev_end(), ParseFn::String, old(self).parser.previous.token_type, false)),
    {
        let t = self.parser.previous;
        let content = self.text_between(t.start + 1, t.start + t.length - 1);
        let obj = Obj::CopyString(&mut self.strings, content);
        let ghost before = self.chunk.code@;
        let ghost c = self.chunk.constants.values@.len();
        self.emit_constant(ObjAsValue(obj));
        assert(c < MAX_CONSTANTS ==> self.chunk.code@ =~= before + seq![op_byte(OpCode::OpConstant), c as u8]);
    }

    /// Adds the name `token` spells to the constant pool, interned.
    pub fn identifier_constant(&mut self, token: Token) -> (k: u8)
        requires
            old(self).wf(),
            old(self).synced(),
            token_wf(token, old(self).scanner.source@.len() as int),
        ensures
            keeps(*old(self), *final(self)),
            final(self).scanner == old(self).scanner,
            final(self).parser.current == old(self).parser.current,
            final(self).parser.previous == old(self).parser.previous,
            final(self).parser.had_error ==> old(self).parser.had_error || (old(self).chunk.constants.values@.len() >= MAX_CONSTANTS
                && too_many_first(*final(self))),
            !final(self).parser.had_error ==> {
                &&& final(self).chunk.constants.values@.len() == old(self).chunk.constants.values@.len() + 1
                &&& k as int == old(self).chunk.constants.values@.len()
                &&& final(self).chunk.code@ == old(self).chunk.code@
            },
            pooled(*old(self), *final(self), seq![(false, token_text(old(self).scanner.source@, token))]),
            old(self).chunk.constants.values@.len() < MAX_CONSTANTS ==> {
                &&& final(self).chunk.constants.values@.len() == old(self).chunk.constants.values@.len() + 1
                &&& k as int == old(self).chunk.constants.values@.len()
                &&& is_string(final(self).chunk.constants.values@.last())
                &&& final(self).strings@[string_ref(final(self).chunk.constants.values@.last()).index as int]
                    == token_text(old(self).scanner.source@, token)
            },
    {
        let name = self.text_between(token.start, token.start + token.length);
        let obj = Obj::CopyString(&mut self.strings, name);
        self.make_constant(ObjAsValue(obj))
    }

    /// A global variable read, or an assignment when one is allowed here.
    pub fn variable<H: NumberHost>(&mut self, can_assign: bool, host: &H)
        requires
            old(self).wf(),
            old(self).synced(),
        ensures
            keeps(*old(self), *final(self)),
            follows(*old(self), *final(self), parse_prefix(old(self).scanner.source@, old(self).prev_end(), ParseFn::Variable, can_assign), code_prefix(old(self).scanner.source@, old(self).prev_end(), ParseFn::Variable, old(self).parser.previous.token_type, can_assign, old(self).chunk.constants.values@.len()).1),
            emits(*old(self), *final(self), code_prefix(old(self).scanner.source@, old(self).prev_end(), ParseFn::Variable, old(self).parser.previous.token_type, can_assign, old(self).chunk.constants.values@.len())),
            pooled(*old(self), *final(self), pool_prefix(old(self).scanner.source@, old(self).parser.previous.start as int, old(self).prev_end(), ParseFn::Variable, old(self).parser.previous.token_type, can_assign)),
        decreases old(self).progress(), 2int,
    {
        proof {
            reveal(parse_expr);
            reveal(code_expr);
            reveal(pool_expr);
        }
        let name = self.parser.previous;
        let ghost before = self.chunk.code@;
        let ghost s0 = *self;
        let arg = self.identifier_constant(name);
        let ghost s1 = *self;
        if can_assign && self.match_token(TokenType::TokenEqual) {
            let ghost mid = self.chunk.code@;
            let ghost s2 = *self;
            self.expression(host);
            let ghost s3 = *self;
            let ghost after = self.chunk.code@;
            self.emit_bytes(OpCode::OpSetGlobal.byte(), arg);
            proof {
                if !self.parser.had_error {
                    assert(self.chunk.code@ =~= before + (after.subrange(mid.len() as int, after.len() as int).push(op_byte(OpCode::OpSetGlobal)).push(arg)));
                }
                let src = s0.scanner.source@;
                let d1 = seq![(false, token_text(src, name))];
                let d2 = pool_expr(src, s2.prev_end(), 2);
                assert(pooled(s1, s2, seq![]));
                lemma_pooled_compose(s1, s2, s3, seq![], d2);
                assert(seq![] + d2 =~= d2);
                lemma_pooled_compose(s0, s1, s3, d1, d2);
                lemma_pooled_compose(s0, s3, *self, d1 + d2, seq![]);
                assert(d1 + d2 + seq![] =~= d1 + d2);
            }
        } else {
            self.emit_bytes(OpCode::OpGetGlobal.byte(), arg);
            proof {
                if !self.parser.had_error {
                    assert(self.chunk.code@ =~= before + seq![op_byte(OpCode::OpGetGlobal), arg]);
                }
            }
        }
    }
}

/// What a declaration keeps: panic mode may end at its recovery point.
pub open spec fn keeps_across(o: Compiler, n: Compiler) -> bool {
    &&& n.wf()
    &&& n.synced()
    &&& o.chunk.constants.values@.len() <= n.chunk.constants.values@.len()
    &&& (o.synced() && !n.parser.had_error) ==> o.prev_end() <= n.prev_end()
    &&& n.scanner.source@ == o.scanner.source@
    &&& n.progress() <= o.progress()
    &&& o.parser.had_error ==> n.parser.had_error
    &&& o.parser.had_error ==> n.messages@[0] == o.messages@[0]
    &&& grows(o, n)
}

/// The token kinds that begin a statement: recovery stops before them.
pub open spec fn starts_statement(kind: TokenType) -> bool {
    kind == TokenType::TokenClass || kind == TokenType::TokenFun || kind == TokenType::TokenVar
        || kind == TokenType::TokenFor || kind == TokenType::TokenIf || kind == TokenType::TokenWhile
        || kind == TokenType::TokenPrint || kind == TokenType::TokenReturn
}

impl Compiler {
    /// Leaves panic mode and skips tokens up to a statement boundary: just
    /// after a `;`, or before a keyword that begins a statement, or the end.
    pub fn synchronize(&mut self)
        requires
            old(self).wf(),
            old(self).synced(),
        ensures
            keeps_across(*old(self), *final(self)),
            final(self).parser.current.token_type == TokenType::TokenEof
                || final(self).parser.previous.token_type == TokenType::TokenSemicolon
                || starts_statement(final(self).parser.current.token_type),
            clean(old(self).scanner.source@, 0, old(self).scanner.source@.len() as int) ==> final(self).messages
                == old(self).messages,
    {
        self.parser.panic_mode = false;
        while self.parser.current.token_type != TokenType::TokenEof
            invariant
                keeps_across(*old(self), *self),
                clean(old(self).scanner.source@, 0, old(self).scanner.source@.len() as int) ==> self.messages
                    == old(self).messages,
            decreases self.progress(),
        {
            if self.parser.previous.token_type == TokenType::TokenSemicolon {
                return;
            }
            match self.parser.current.token_type {
                TokenType::TokenClass | TokenType::TokenFun | TokenType::TokenVar | TokenType::TokenFor
                | TokenType::TokenIf | TokenType::TokenWhile | TokenType::TokenPrint
                | TokenType::TokenReturn => {
                    return;
                },
                _ => {},
            }
            self.advance();
        }
    }

    /// `print <expression>;`, after the `print`.
    pub fn print_statement<H: NumberHost>(&mut self, host: &H)
        requires
            old(self).wf(),
            old(self).synced(),
        ensures
            keeps(*old(self), *final(self)),
            final(self).chunk.code@.last() == op_byte(OpCode::OpPrint),
            follows(*old(self), *final(self), then_semicolon(old(self).scanner.source@, parse_expr(old(self).scanner.source@, old(self).prev_end(), 2)), code_expr(old(self).scanner.source@, old(self).prev_end(), 2, old(self).chunk.constants.values@.len()).1),
            emits(*old(self), *final(self), (code_expr(old(self).scanner.source@, old(self).prev_end(), 2, old(self).chunk.constants.values@.len()).0.push(op_byte(OpCode::OpPrint)), code_expr(old(self).scanner.source@, old(self).prev_end(), 2, old(self).chunk.constants.values@.len()).1)),
            pooled(*old(self), *final(self), pool_expr(old(self).scanner.source@, old(self).prev_end(), 2)),
    {
        self.expression(host);
        self.consume(TokenType::TokenSemicolon, "Expect ';' after value.");
        self.emit_byte(OpCode::OpPrint.byte());
    }

    /// `<expression>;`, whose value is discarded.
    pub fn expression_statement<H: NumberHost>(&mut self, host: &H)
        requires
            old(self).wf(),
            old(self).synced(),
        ensures
            keeps(*old(self), *final(self)),
            consumed(*old(self), *final(self)),
            final(self).chunk.code@.last() == op_byte(OpCode::OpPop),
            follows(*old(self), *final(self), then_semicolon(old(self).scanner.source@, parse_expr(old(self).scanner.source@, old(self).prev_end(), 2)), code_expr(old(self).scanner.source@, old(self).prev_end(), 2, old(self).chunk.constants.values@.len()).1),
            emits(*old(self), *final(self), (code_expr(old(self).scanner.source@, old(self).prev_end(), 2, old(self).chunk.constants.values@.len()).0.push(op_byte(OpCode::OpPop)), code_expr(old(self).scanner.source@, old(self).prev_end(), 2, old(self).chunk.constants.values@.len()).1)),
            pooled(*old(self), *final(self), pool_expr(old(self).scanner.source@, old(self).prev_end(), 2)),
    {
        self.expression(host);
        self.consume(TokenType::TokenSemicolon, "Expect ';' after expression.");
        self.emit_byte(OpCode::OpPop.byte());
    }

    /// A print statement or an expression statement.
    pub fn statement<H: NumberHost>(&mut self, host: &H)
        requires
            old(self).wf(),
            old(self).synced(),
        ensures
            keeps(*old(self), *final(self)),
            consumed(*old(self), *final(self)),
            old(self).parser.current.token_type != TokenType::TokenVar ==> follows(*old(self), *final(self), parse_declaration(old(self).scanner.source@, old(self).prev_end()), code_declaration(old(self).scanner.source@, old(self).prev_end(), old(self).chunk.constants.values@.len()).1),
            old(self).parser.current.token_type != TokenType::TokenVar ==> emits(*old(self), *final(self), code_declaration(old(self).scanner.source@, old(self).prev_end(), old(self).chunk.constants.values@.len())),
            old(self).parser.current.token_type != TokenType::TokenVar ==> pooled(*old(self), *final(self), pool_declaration(old(self).scanner.source@, old(self).prev_end())),
    {
        if self.match_token(TokenType::TokenPrint) {
            self.print_statement(host);
        } else {
            self.expression_statement(host);
        }
    }

    /// Reads a variable name and adds it to the constant pool.
    pub fn parse_variable(&mut self, message: &str) -> (k: u8)
        requires
            old(self).wf(),
            old(self).synced(),
        ensures
            keeps(*old(self), *final(self)),
            !final(self).parser.had_error ==> old(self).parser.current.token_type == TokenType::TokenIdentifier
                && final(self).prev_end() == old(self).parser.current.start + old(self).parser.current.length,
            (!old(self).parser.had_error && old(self).parser.current.token_type == TokenType::TokenIdentifier
                && clean(old(self).scanner.source@, 0, old(self).scanner.source@.len() as int))
                ==> !final(self).parser.had_error || (old(self).chunk.constants.values@.len() >= MAX_CONSTANTS
                && too_many_first(*final(self))),
            !final(self).parser.had_error ==> {
                &&& final(self).chunk.constants.values@.len() == old(self).chunk.constants.values@.len() + 1
                &&& k as int == old(self).chunk.constants.values@.len()
                &&& final(self).chunk.code@ == old(self).chunk.code@
            },
            pooled(*old(self), *final(self), seq![(false, token_text(old(self).scanner.source@, old(self).parser.current))]),
    {
        self.consume(TokenType::TokenIdentifier, message);
        let name = self.parser.previous;
        self.identifier_constant(name)
    }

    /// Emits the binding of the global named by constant `global`.
    pub fn define_variable(&mut self, global: u8)
        requires
            old(self).wf(),
        ensures
            final(self).wf(),
            only_chunk(*old(self), *final(self)),
            final(self).chunk.code@ == old(self).chunk.code@.push(op_byte(OpCode::OpDefineGlobal)).push(global),
            final(self).chunk.constants.values@ == old(self).chunk.constants.values@,
    {
        self.emit_bytes(OpCode::OpDefineGlobal.byte(), global);
    }

    /// `var <name> [= <expression>];`, after the `var`.
    pub fn var_declaration<H: NumberHost>(&mut self, host: &H)
        requires
            old(self).wf(),
            old(self).synced(),
        ensures
            keeps(*old(self), *final(self)),
            follows(*old(self), *final(self), parse_var(old(self).scanner.source@, old(self).prev_end()), code_var(old(self).scanner.source@, old(self).prev_end(), old(self).chunk.constants.values@.len()).1),
            emits(*old(self), *final(self), code_var(old(self).scanner.source@, old(self).prev_end(), old(self).chunk.constants.values@.len())),
            pooled(*old(self), *final(self), pool_var(old(self).scanner.source@, old(self).prev_end())),
    {
        let ghost src = self.scanner.source@;
        let ghost c = self.chunk.constants.values@.len();
        let ghost code0 = self.chunk.code@;
        let ghost s0 = *self;
        let global = self.parse_variable("Expect variable name.");
        let ghost s1 = *self;
        let ghost e2 = self.prev_end();
        if self.match_token(TokenType::TokenEqual) {
            let ghost s2 = *self;
            self.expression(host);
            proof {
                let d2 = pool_expr(src, s2.prev_end(), 2);
                assert(pooled(s1, s2, seq![]));
                lemma_pooled_compose(s1, s2, *self, seq![], d2);
                assert(seq![] + d2 =~= d2);
            }
        } else {
            self.emit_byte(OpCode::OpNil.byte());
            proof {
                if !self.parser.had_error {
                    assert(self.chunk.code@ =~= code0 + seq![op_byte(OpCode::OpNil)]);
                }
            }
        }
        let ghost before_semi = self.chunk.code@;
        let ghost s3 = *self;
        self.consume(TokenType::TokenSemicolon, "Expect ';' after variable declaration.");
        self.define_variable(global);
        proof {
            let (k3, e3) = tok(src, e2);
            let d1 = seq![(false, token_text(src, s0.parser.current))];
            let d2 = if k3 == TokenType::TokenEqual { pool_expr(src, e3, 2) } else { seq![] };
            if !self.parser.had_error {
                assert(e2 == s0.parser.current.start + s0.parser.current.length);
            }
            lemma_pooled_compose(s0, s1, s3, d1, d2);
            lemma_pooled_compose(s0, s3, *self, d1 + d2, seq![]);
            assert(d1 + d2 + seq![] =~= d1 + d2);
        }
        proof {
            if !self.parser.had_error {
                let (k3, e3) = tok(src, e2);
                let (ci, n) = if k3 == TokenType::TokenEqual {
                    code_expr(src, e3, 2, c + 1)
                } else {
                    (seq![op_byte(OpCode::OpNil)], 0nat)
                };
                assert(before_semi == code0 + ci);
                assert(self.chunk.code@ =~= code0 + ci.push(op_byte(OpCode::OpDefineGlobal)).push(c as u8));
            }
        }
    }

    /// One declaration; after an error, recovers at the next statement boundary.
    pub fn declaration<H: NumberHost>(&mut self, host: &H)
        requires
            old(self).wf(),
            old(self).synced(),
        ensures
            keeps_across(*old(self), *final(self)),
            consumed(*old(self), *final(self)),
            follows(*old(self), *final(self), parse_declaration(old(self).scanner.source@, old(self).prev_end()), code_declaration(old(self).scanner.source@, old(self).prev_end(), old(self).chunk.constants.values@.len()).1),
            emits(*old(self), *final(self), code_declaration(old(self).scanner.source@, old(self).prev_end(), old(self).chunk.constants.values@.len())),
            pooled(*old(self), *final(self), pool_declaration(old(self).scanner.source@, old(self).prev_end())),
            clean(old(self).scanner.source@, 0, old(self).scanner.source@.len() as int)
                ==> final(self).messages@.len() <= old(self).messages@.len() + 1,
    {
        if self.match_token(TokenType::TokenVar) {
            self.var_declaration(host);
        } else {
            self.statement(host);
        }
        if self.parser.panic_mode {
            self.synchronize();
        }
    }

    /// Resets the parser and reads the first token.
    fn init_parser(&mut self)
        requires
            old(self).scanner.wf(),
            old(self).strings.wf(),
            old(self).chunk.wf(),
            old(self).messages@.len() == 0,
            old(self).scanner.current == 0,
            old(self).chunk.constants.values@.len() == 0,
        ensures
            final(self).wf(),
            final(self).synced(),
            final(self).scanner.source@ == old(self).scanner.source@,
            final(self).chunk == old(self).chunk,
            final(self).strings == old(self).strings,
            skip_ws(old(self).scanner.source@, 0, false) == old(self).scanner.source@.len() ==> {
                &&& final(self).parser.current.token_type == TokenType::TokenEof
                &&& !final(self).parser.had_error
            },
            final(self).prev_end() == 0,
            clean(old(self).scanner.source@, 0, old(self).scanner.source@.len() as int) ==> !final(self).parser.had_error,
    {
        proof {
            lemma_lex_bounds(self.scanner.source@, 0);
        }
        self.parser = Parser::new();
        self.advance();
    }

    /// Compiles `source` into a fresh chunk; true when no compile error was
    /// reported, which requires a source free of lexical errors. The chunk
    /// always ends with a `return`.
    #[verifier::rlimit(100)]
    pub fn compile<H: NumberHost>(&mut self, source: &Vec<char>, host: &H) -> (ok: bool)
        requires
            old(self).strings.wf(),
            source@.len() < u32::MAX,
        ensures
            final(self).wf(),
            final(self).scanner.source@ == source@,
            ok == !final(self).parser.had_error,
            ok == (final(self).messages@.len() == 0),
            ok ==> clean(source@, 0, source@.len() as int),
            skip_ws(source@, 0, false) == source@.len() ==> ok
                && final(self).chunk.code@ == seq![op_byte(OpCode::OpReturn)],
            ok ==> valid_program(source@),
            valid_program(source@) && constants_program(source@, 0, 0) <= MAX_CONSTANTS ==> ok,
            ok ==> final(self).chunk.code@ == code_program(source@, 0, 0).push(op_byte(OpCode::OpReturn)),
            ok ==> final(self).chunk.constants.values@.len() == constants_program(source@, 0, 0),
            ok ==> final(self).chunk.constants.values@.len() == pool_program(source@, 0).len(),
            ok ==> forall|i: int| 0 <= i < pool_program(source@, 0).len()
                ==> const_ok(#[trigger] final(self).chunk.constants.values@[i], pool_program(source@, 0)[i], final(self).strings@),
            constants_program(source@, 0, 0) > MAX_CONSTANTS ==> !ok,
            valid_program(source@) && constants_program(source@, 0, 0) > MAX_CONSTANTS ==> too_many_first(*final(self)),
            final(self).chunk.code@.len() > 0,
            final(self).chunk.code@.last() == op_byte(OpCode::OpReturn),
    {
        self.scanner = Init_Scanner(source);
        self.chunk = init_chunk();
        self.messages = Vec::new();
        self.init_parser();
        let ghost s_init = *self;
        let ghost mut done: Seq<(bool, Seq<char>)> = seq![];
        assert(done + pool_program(source@, 0) =~= pool_program(source@, 0));
        while !self.check(TokenType::TokenEof)
            invariant
                s_init.chunk.constants.values@.len() == 0,
                pooled(s_init, *self, done),
                !self.parser.had_error ==> done + pool_program(source@, self.prev_end()) == pool_program(source@, 0),
                self.wf(),
                self.synced(),
                self.scanner.source@ == source@,
                skip_ws(source@, 0, false) == source@.len() ==> {
                    &&& self.parser.current.token_type == TokenType::TokenEof
                    &&& !self.parser.had_error
                    &&& self.chunk.code@.len() == 0
                },
                !self.parser.had_error ==> parse_program(source@, self.prev_end()) == parse_program(source@, 0),
                !self.parser.had_error ==> code_program(source@, 0, 0) == self.chunk.code@ + code_program(
                    source@,
                    self.prev_end(),
                    self.chunk.constants.values@.len(),
                ),
                !self.parser.had_error ==> constants_program(source@, 0, 0) == self.chunk.constants.values@.len()
                    + constants_program(source@, self.prev_end(), self.chunk.constants.values@.len()),
                valid_program(source@) ==> !self.parser.had_error || (constants_program(source@, 0, 0) > MAX_CONSTANTS
                    && too_many_first(*self)),
            decreases self.progress(),
        {
            let ghost q = self.prev_end();
            let ghost cq = self.chunk.constants.values@.len();
            let ghost codeq = self.chunk.code@;
            let ghost was_ok = !self.parser.had_error;
            let ghost sq = *self;
            proof {
                lemma_lex_bounds(source@, q);
                if was_ok && valid_program(source@) {
                    lemma_program_next(source@, q);
                    lemma_program_step(source@, q, cq);
                }
            }
            self.declaration(host);
            proof {
                let dd = pool_declaration(source@, q);
                lemma_pooled_compose(s_init, sq, *self, done, dd);
                if !self.parser.had_error {
                    lemma_declaration_advances(source@, q);
                    lemma_program_step(source@, q, cq);
                    assert(done + pool_program(source@, q) =~= (done + dd) + pool_program(source@, self.prev_end()));
                }
                done = done + dd;
                if !self.parser.had_error {
                    lemma_declaration_advances(source@, q);
                    lemma_program_step(source@, q, cq);
                    let (cd, n) = code_declaration(source@, q, cq);
                    let q2 = self.prev_end();
                    assert(self.chunk.code@ == codeq + cd);
                    assert(codeq + code_program(source@, q, cq) =~= self.chunk.code@ + code_program(source@, q2, cq + n));
                }
            }
        }
        proof {
            if !self.parser.had_error {
                lemma_lex_bounds(source@, self.prev_end());
                lemma_program_end(source@, self.prev_end(), self.chunk.constants.values@.len() as nat);
                assert(self.chunk.code@ + Seq::<u8>::empty() =~= self.chunk.code@);
                assert(done + Seq::<(bool, Seq<char>)>::empty() =~= done);
            }
            lemma_lex_bounds(source@, self.scanner.current as int);
        }
        let ghost before_end = *self;
        self.end_compiler();
        assert(skip_ws(source@, 0, false) == source@.len() ==> self.chunk.code@ =~= seq![op_byte(OpCode::OpReturn)]);
        proof {
            if !self.parser.had_error {
                assert(done == pool_program(source@, 0));
                assert forall|i: int| 0 <= i < pool_program(source@, 0).len() implies const_ok(
                    #[trigger] self.chunk.constants.values@[i],
                    pool_program(source@, 0)[i],
                    self.strings@,
                ) by {
                    assert(const_ok(before_end.chunk.constants.values@[0 + i], done[i], before_end.strings@));
                }
            }
        }
        !self.parser.had_error
    }
}

} // verus!
