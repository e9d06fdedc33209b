//! The grammar of expressions, as functions from a token sequence and a parser state to the
//! state after parsing and the tree or error message that parsing gives.
//!
//! Precedence, from loosest to tightest: `,` (left), `=` (right), `||`, `&&`, `|`, `^`, `&`,
//! `== !=`, `< > <= >=`, `<< >>`, `+ -`, `* / %` (all left), `**` (right), prefix `- ! ^`,
//! and last numbers, names, calls and parentheses.
//!
//! Every successful parse consumes at least one token (`parser_laws::sound_step`, and the
//! contract of each function of the executable parser). Where a rule loops or recurses after
//! a sub-parse, it also tests that the sub-parse advanced: that test never fails, and only
//! makes termination evident.
use vstd::prelude::*;
use crate::ast::{BinaryOp, ExprView, UnaryOp};
use crate::lexer::{TokenView, lemma_run_len_bound, run_len};

verus! {

/// The state of a parse: the index of the next token, and the names of the functions known
/// so far (a `$` macro call makes its first argument a known function).
pub struct PState {
    pub pos: int,
    pub funcs: Set<Seq<char>>,
}

/// The state after a parse, and the tree it gives or the message of the error that stops it.
pub type Parsed = (PState, Result<ExprView, Seq<char>>);

/// The precedence levels of the left-associative binary operators, tightest first.
pub const FACTOR: u8 = 1;
pub const TERM: u8 = 2;
pub const SHIFT: u8 = 3;
pub const RELATIONAL: u8 = 4;
pub const EQUALITY: u8 = 5;
pub const BITWISE_AND: u8 = 6;
pub const BITWISE_XOR: u8 = 7;
pub const BITWISE_OR: u8 = 8;
pub const LOGICAL_AND: u8 = 9;
pub const LOGICAL_OR: u8 = 10;

/// The binary operator that `tok` stands for at precedence level `level`, if any.
pub open spec fn binary_op_at(level: nat, tok: TokenView) -> Option<BinaryOp> {
    if level == FACTOR {
        match tok {
            TokenView::Star => Some(BinaryOp::Mul),
            TokenView::Slash => Some(BinaryOp::Div),
            TokenView::Percent => Some(BinaryOp::Rem),
            _ => None,
        }
    } else if level == TERM {
        match tok {
            TokenView::Plus => Some(BinaryOp::Add),
            TokenView::Minus => Some(BinaryOp::Sub),
            _ => None,
        }
    } else if level == SHIFT {
        match tok {
            TokenView::ShiftLeft => Some(BinaryOp::Shl),
            TokenView::ShiftRight => Some(BinaryOp::Shr),
            _ => None,
        }
    } else if level == RELATIONAL {
        match tok {
            TokenView::Less => Some(BinaryOp::Lt),
            TokenView::Greater => Some(BinaryOp::Gt),
            TokenView::LessEq => Some(BinaryOp::Le),
            TokenView::GreaterEq => Some(BinaryOp::Ge),
            _ => None,
        }
    } else if level == EQUALITY {
        match tok {
            TokenView::Eq => Some(BinaryOp::Eq),
            TokenView::Neq => Some(BinaryOp::Neq),
            _ => None,
        }
    } else if level == BITWISE_AND {
        if tok is BitAnd { Some(BinaryOp::BitAnd) } else { None }
    } else if level == BITWISE_XOR {
        if tok is BitXor { Some(BinaryOp::BitXor) } else { None }
    } else if level == BITWISE_OR {
        if tok is BitOr { Some(BinaryOp::BitOr) } else { None }
    } else if level == LOGICAL_AND {
        if tok is LogAnd { Some(BinaryOp::LogAnd) } else { None }
    } else if level == LOGICAL_OR {
        if tok is LogOr { Some(BinaryOp::LogOr) } else { None }
    } else {
        None
    }
}

/// The prefix operator that `tok` stands for, if any.
pub open spec fn unary_op_of(tok: TokenView) -> Option<UnaryOp> {
    match tok {
        TokenView::Minus => Some(UnaryOp::Neg),
        TokenView::LogNot => Some(UnaryOp::Not),
        TokenView::BitXor => Some(UnaryOp::BitNot),
        _ => None,
    }
}

/// The next token, if any.
pub open spec fn peek(t: Seq<TokenView>, st: PState) -> Option<TokenView> {
    if 0 <= st.pos < t.len() {
        Some(t[st.pos])
    } else {
        None
    }
}

/// Whether the next token is `k`.
pub open spec fn peek_is(t: Seq<TokenView>, st: PState, k: TokenView) -> bool {
    peek(t, st) == Some(k)
}

/// The state after consuming one token.
pub open spec fn advance(st: PState) -> PState {
    PState { pos: st.pos + 1, funcs: st.funcs }
}

/// Whether `b` lies strictly after `a` and within the tokens.
pub open spec fn advanced(t: Seq<TokenView>, a: PState, b: PState) -> bool {
    a.pos < b.pos <= t.len()
}

/// The text of the number that an empty token sequence parses to: `NaN`, which
/// `f32::from_str` reads as not-a-number, the value of an empty expression.
pub open spec fn nan_numeral() -> Seq<char> {
    "NaN"@
}

/// The name of a token's variant, as the derived `Debug` prints it for the variants
/// without data.
pub open spec fn token_name(tok: TokenView) -> Seq<char> {
    match tok {
        TokenView::Number(_) => "Number"@,
        TokenView::Identifier(_) => "Identifier"@,
        TokenView::Plus => "Plus"@,
        TokenView::Minus => "Minus"@,
        TokenView::Star => "Star"@,
        TokenView::Slash => "Slash"@,
        TokenView::Percent => "Percent"@,
        TokenView::Power => "Power"@,
        TokenView::ShiftLeft => "ShiftLeft"@,
        TokenView::ShiftRight => "ShiftRight"@,
        TokenView::BitAnd => "BitAnd"@,
        TokenView::BitOr => "BitOr"@,
        TokenView::BitXor => "BitXor"@,
        TokenView::BitNot => "BitNot"@,
        TokenView::Eq => "Eq"@,
        TokenView::Neq => "Neq"@,
        TokenView::Less => "Less"@,
        TokenView::Greater => "Greater"@,
        TokenView::LessEq => "LessEq"@,
        TokenView::GreaterEq => "GreaterEq"@,
        TokenView::LogAnd => "LogAnd"@,
        TokenView::LogOr => "LogOr"@,
        TokenView::LogNot => "LogNot"@,
        TokenView::Assign => "Assign"@,
        TokenView::Comma => "Comma"@,
        TokenView::LParen => "LParen"@,
        TokenView::RParen => "RParen"@,
    }
}

/// The error messages of the parser.
pub open spec fn msg_end() -> Seq<char> {
    "Unexpected end of expression. Expected a number or variable."@
}

pub open spec fn msg_call_close() -> Seq<char> {
    "Expected ')' after function arguments."@
}

pub open spec fn msg_group_close() -> Seq<char> {
    "Expected ')' after expression."@
}

pub open spec fn msg_macro_empty() -> Seq<char> {
    "$ requires at least 1 argument"@
}

pub open spec fn msg_macro_name() -> Seq<char> {
    "First argument of $ must be an identifier"@
}

pub open spec fn msg_unknown_function(name: Seq<char>) -> Seq<char> {
    "Unknown function at parse time: "@ + name
}

pub open spec fn msg_found(tok: TokenView) -> Seq<char> {
    "Expected a number, variable, or '(', but found "@ + token_name(tok)
}

pub open spec fn msg_assign_target() -> Seq<char> {
    "The left side of an assignment must be a variable"@
}

pub open spec fn msg_trailing() -> Seq<char> {
    "Unexpected tokens at the end of the expression"@
}

/// The name of the macro operator, `$`.
pub open spec fn macro_name() -> Seq<char> {
    "$"@
}

/// Checks a call of `name` with `args` once its `)` is read: the macro `$` needs a name as
/// its first argument and makes that name a known function; any other function must be known.
pub open spec fn finish_call(st: PState, name: Seq<char>, args: Seq<ExprView>) -> Parsed {
    let call = ExprView::FunctionCall { name, args };
    if name == macro_name() {
        if args.len() == 0 {
            (st, Err(msg_macro_empty()))
        } else if let ExprView::Variable(m) = args[0] {
            (PState { pos: st.pos, funcs: st.funcs.insert(m) }, Ok(call))
        } else {
            (st, Err(msg_macro_name()))
        }
    } else if st.funcs.contains(name) {
        (st, Ok(call))
    } else {
        (st, Err(msg_unknown_function(name)))
    }
}

/// A number, a name, a call `name(args)` or a parenthesized expression.
pub open spec fn parse_primary(t: Seq<TokenView>, st: PState) -> Parsed
    decreases t.len() - st.pos, 0int,
{
    if !(0 <= st.pos < t.len()) {
        (st, Err(msg_end()))
    } else {
        let st1 = advance(st);
        match t[st.pos] {
            TokenView::Number(n) => (st1, Ok(ExprView::Number(n))),
            TokenView::Identifier(name) => {
                if peek_is(t, st1, TokenView::LParen) {
                    let st2 = advance(st1);
                    let (st3, r) = if peek_is(t, st2, TokenView::RParen) {
                        (st2, Ok(Seq::<ExprView>::empty()))
                    } else {
                        parse_args(t, st2, seq![])
                    };
                    match r {
                        Err(m) => (st3, Err(m)),
                        Ok(args) => if peek_is(t, st3, TokenView::RParen) {
                            finish_call(advance(st3), name, args)
                        } else {
                            (st3, Err(msg_call_close()))
                        },
                    }
                } else {
                    (st1, Ok(ExprView::Variable(name)))
                }
            },
            TokenView::LParen => {
                let (st2, r) = parse_comma(t, st1);
                match r {
                    Err(m) => (st2, Err(m)),
                    Ok(e) => if peek_is(t, st2, TokenView::RParen) {
                        (advance(st2), Ok(e))
                    } else {
                        (st2, Err(msg_group_close()))
                    },
                }
            },
            tok => (st1, Err(msg_found(tok))),
        }
    }
}

/// The arguments of a call, separated by commas, each an assignment-level expression;
/// `args` are those read so far.
pub open spec fn parse_args(t: Seq<TokenView>, st: PState, args: Seq<ExprView>) -> (
    PState,
    Result<Seq<ExprView>, Seq<char>>,
)
    decreases t.len() - st.pos, 26int,
{
    let (st1, r) = parse_assignment(t, st);
    match r {
        Err(m) => (st1, Err(m)),
        Ok(e) => {
            let args1 = args.push(e);
            if peek_is(t, st1, TokenView::Comma) && advanced(t, st, st1) {
                parse_args(t, advance(st1), args1)
            } else {
                (st1, Ok(args1))
            }
        },
    }
}

/// Prefix operators, which nest: `--x`, `!-x`.
pub open spec fn parse_unary(t: Seq<TokenView>, st: PState) -> Parsed
    decreases t.len() - st.pos, 1int,
{
    match peek(t, st) {
        Some(tok) => match unary_op_of(tok) {
            Some(op) => {
                let (st1, r) = parse_unary(t, advance(st));
                match r {
                    Err(m) => (st1, Err(m)),
                    Ok(e) => (st1, Ok(ExprView::Unary { op, operand: Box::new(e) })),
                }
            },
            None => parse_primary(t, st),
        },
        None => parse_primary(t, st),
    }
}

/// Exponentiation `a ** b`, which groups to the right.
pub open spec fn parse_power(t: Seq<TokenView>, st: PState) -> Parsed
    decreases t.len() - st.pos, 2int,
{
    let (st1, r) = parse_unary(t, st);
    match r {
        Err(m) => (st1, Err(m)),
        Ok(e) => if peek_is(t, st1, TokenView::Power) && advanced(t, st, st1) {
            let (st2, r2) = parse_power(t, advance(st1));
            match r2 {
                Err(m) => (st2, Err(m)),
                Ok(e2) => (st2, Ok(ExprView::Binary { op: BinaryOp::Pow, left: Box::new(e), right: Box::new(e2) })),
            }
        } else {
            (st1, Ok(e))
        },
    }
}

/// An operand of the operators of level `level`: an expression of the next tighter level.
pub open spec fn parse_operand(t: Seq<TokenView>, st: PState, level: nat) -> Parsed
    decreases t.len() - st.pos, 2 * level + 3,
{
    if level <= FACTOR {
        parse_power(t, st)
    } else {
        parse_binary(t, st, (level - 1) as nat)
    }
}

/// A left-associative chain of operands joined by the operators of level `level`.
pub open spec fn parse_binary(t: Seq<TokenView>, st: PState, level: nat) -> Parsed
    decreases t.len() - st.pos, 2 * level + 4,
{
    let (st1, r) = parse_operand(t, st, level);
    match r {
        Err(m) => (st1, Err(m)),
        Ok(e) => if advanced(t, st, st1) {
            parse_binary_rest(t, st1, level, e)
        } else {
            (st1, Ok(e))
        },
    }
}

/// The rest of a chain of level `level` whose operands so far make `lhs`.
pub open spec fn parse_binary_rest(t: Seq<TokenView>, st: PState, level: nat, lhs: ExprView) -> Parsed
    decreases t.len() - st.pos, 2 * level + 3,
{
    match peek(t, st) {
        Some(tok) => match binary_op_at(level, tok) {
            Some(op) => {
                let (st1, r) = parse_operand(t, advance(st), level);
                match r {
                    Err(m) => (st1, Err(m)),
                    Ok(rhs) => {
                        let e = ExprView::Binary { op, left: Box::new(lhs), right: Box::new(rhs) };
                        if advanced(t, st, st1) {
                            parse_binary_rest(t, st1, level, e)
                        } else {
                            (st1, Ok(e))
                        }
                    },
                }
            },
            None => (st, Ok(lhs)),
        },
        None => (st, Ok(lhs)),
    }
}

/// Assignment `name = value`, which groups to the right; its left side must be a name.
pub open spec fn parse_assignment(t: Seq<TokenView>, st: PState) -> Parsed
    decreases t.len() - st.pos, 25int,
{
    let (st1, r) = parse_binary(t, st, LOGICAL_OR as nat);
    match r {
        Err(m) => (st1, Err(m)),
        Ok(e) => if peek_is(t, st1, TokenView::Assign) && advanced(t, st, st1) {
            let (st2, rv) = parse_assignment(t, advance(st1));
            match rv {
                Err(m) => (st2, Err(m)),
                Ok(v) => if e is Variable {
                    (st2, Ok(ExprView::Binary { op: BinaryOp::Assign, left: Box::new(e), right: Box::new(v) }))
                } else {
                    (st2, Err(msg_assign_target()))
                },
            }
        } else {
            (st1, Ok(e))
        },
    }
}

/// A comma-separated sequence of assignments, grouped to the left. Consecutive commas count
/// as one, and commas that end the tokens or stand before `)` end the sequence.
pub open spec fn parse_comma(t: Seq<TokenView>, st: PState) -> Parsed
    decreases t.len() - st.pos, 27int,
{
    let (st1, r) = parse_assignment(t, st);
    match r {
        Err(m) => (st1, Err(m)),
        Ok(e) => if advanced(t, st, st1) {
            parse_comma_rest(t, st1, e)
        } else {
            (st1, Ok(e))
        },
    }
}

/// How many commas follow one another from index `i` of `t`.
pub open spec fn comma_run(t: Seq<TokenView>, i: int) -> nat {
    run_len(t, i, |k: TokenView| k is Comma)
}

/// The rest of a comma sequence whose items so far make `lhs`: a run of commas, then the next
/// assignment, if one follows.
pub open spec fn parse_comma_rest(t: Seq<TokenView>, st: PState, lhs: ExprView) -> Parsed
    decreases t.len() - st.pos, 26int,
{
    if peek_is(t, st, TokenView::Comma) {
        proof {
            lemma_run_len_bound(t, st.pos + 1, |k: TokenView| k is Comma);
        }
        let st1 = PState { pos: st.pos + 1 + comma_run(t, st.pos + 1), funcs: st.funcs };
        if st1.pos >= t.len() || peek_is(t, st1, TokenView::RParen) {
            (st1, Ok(lhs))
        } else {
            let (st2, r) = parse_assignment(t, st1);
            match r {
                Err(m) => (st2, Err(m)),
                Ok(rhs) => {
                    let e = ExprView::Binary { op: BinaryOp::Comma, left: Box::new(lhs), right: Box::new(rhs) };
                    if advanced(t, st, st2) {
                        parse_comma_rest(t, st2, e)
                    } else {
                        (st2, Ok(e))
                    }
                },
            }
        }
    } else {
        (st, Ok(lhs))
    }
}

/// A whole expression: no tokens give the number `NaN`; otherwise a comma sequence that must
/// use up every token.
pub open spec fn parse_tokens(t: Seq<TokenView>, st: PState) -> Parsed {
    if t.len() == 0 {
        (st, Ok(ExprView::Number(nan_numeral())))
    } else {
        let (st1, r) = parse_comma(t, st);
        match r {
            Err(m) => (st1, Err(m)),
            Ok(e) => if st1.pos < t.len() {
                (st1, Err(msg_trailing()))
            } else {
                (st1, Ok(e))
            },
        }
    }
}

} // verus!
