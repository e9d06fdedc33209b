//! Laws of the grammar stated by their expected trees: the precedence and grouping of the
//! operators, parentheses, assignments, commas and calls, the functions a parser knows, and
//! the errors for malformed token sequences.
use vstd::prelude::*;
use crate::ast::{BinaryOp, ExprView, UnaryOp};
use crate::grammar::{
    PState, Parsed, advanced, binary_op_at, parse_assignment, parse_binary, parse_binary_rest,
    parse_comma, parse_comma_rest, parse_operand, parse_power, parse_primary, parse_tokens,
    parse_unary, parse_args, finish_call, unary_op_of, comma_run,
};
use crate::lexer::{TokenView, lemma_run_len_bound};
use crate::parser::start_state;

verus! {

/// The binary operator tokens, each with the operator it stands for and its precedence
/// level, 1 binding tightest: `* / %` (1), `+ -` (2), `<< >>` (3), `< > <= >=` (4),
/// `== !=` (5), `&` (6), `^` (7), `|` (8), `&&` (9), `||` (10).
pub open spec fn binary_token(tok: TokenView) -> Option<(BinaryOp, nat)> {
    match tok {
        TokenView::Star => Some((BinaryOp::Mul, 1)),
        TokenView::Slash => Some((BinaryOp::Div, 1)),
        TokenView::Percent => Some((BinaryOp::Rem, 1)),
        TokenView::Plus => Some((BinaryOp::Add, 2)),
        TokenView::Minus => Some((BinaryOp::Sub, 2)),
        TokenView::ShiftLeft => Some((BinaryOp::Shl, 3)),
        TokenView::ShiftRight => Some((BinaryOp::Shr, 3)),
        TokenView::Less => Some((BinaryOp::Lt, 4)),
        TokenView::Greater => Some((BinaryOp::Gt, 4)),
        TokenView::LessEq => Some((BinaryOp::Le, 4)),
        TokenView::GreaterEq => Some((BinaryOp::Ge, 4)),
        TokenView::Eq => Some((BinaryOp::Eq, 5)),
        TokenView::Neq => Some((BinaryOp::Neq, 5)),
        TokenView::BitAnd => Some((BinaryOp::BitAnd, 6)),
        TokenView::BitXor => Some((BinaryOp::BitXor, 7)),
        TokenView::BitOr => Some((BinaryOp::BitOr, 8)),
        TokenView::LogAnd => Some((BinaryOp::LogAnd, 9)),
        TokenView::LogOr => Some((BinaryOp::LogOr, 10)),
        _ => None,
    }
}

/// The grammar's operator table is the one above.
proof fn lemma_table(level: nat, tok: TokenView)
    ensures
        binary_op_at(level, tok) == (match binary_token(tok) {
            Some((o, l)) => if l == level { Some(o) } else { None },
            None => None,
        }),
{
}

/// The state at index `p`, knowing `funcs`.
pub open spec fn at(p: int, funcs: Set<Seq<char>>) -> PState {
    PState { pos: p, funcs }
}

/// Whether the token at `st` (if any) is no binary operator.
pub open spec fn no_binary_op(t: Seq<TokenView>, st: PState) -> bool {
    !(0 <= st.pos < t.len()) || binary_token(t[st.pos]) is None
}

/// A parse at the exponent level that fails, or that ends in front of no binary operator,
/// is the parse at every binary level.
proof fn lemma_lift_binary(t: Seq<TokenView>, s: PState, res: Parsed, level: nat)
    requires
        parse_power(t, s) == res,
        res.1 is Ok ==> advanced(t, s, res.0) && no_binary_op(t, res.0),
    ensures
        parse_binary(t, s, level) == res,
        parse_operand(t, s, level) == res,
    decreases level,
{
    if level > 1 {
        lemma_lift_binary(t, s, res, (level - 1) as nat);
    }
    if res.1 is Ok && 0 <= res.0.pos < t.len() {
        lemma_table(level, t[res.0.pos]);
    }
}

/// ... and at the assignment and comma levels too, when no `=` or `,` follows.
proof fn lemma_lift_comma(t: Seq<TokenView>, s: PState, res: Parsed)
    requires
        parse_binary(t, s, 10) == res,
        res.1 is Ok ==> {
            &&& advanced(t, s, res.0)
            &&& res.0.pos < t.len() ==> t[res.0.pos] != TokenView::Assign && t[res.0.pos] != TokenView::Comma
        },
    ensures
        parse_assignment(t, s) == res,
        parse_comma(t, s) == res,
{
}

/// A number, not followed by `**`, is read as itself at the exponent level.
proof fn lemma_number(t: Seq<TokenView>, p: int, funcs: Set<Seq<char>>, a: Seq<char>)
    requires
        0 <= p < t.len(),
        t[p] == TokenView::Number(a),
        p + 1 < t.len() ==> t[p + 1] != TokenView::Power,
    ensures
        parse_power(t, at(p, funcs)) == (at(p + 1, funcs), Ok::<ExprView, Seq<char>>(ExprView::Number(a))),
{
    assert(parse_primary(t, at(p, funcs)) == (at(p + 1, funcs), Ok::<ExprView, Seq<char>>(ExprView::Number(a))));
    assert(parse_unary(t, at(p, funcs)) == parse_primary(t, at(p, funcs)));
}

/// Law: a new parser knows exactly the functions `add`, `next`, `nop` and `print` (and the
/// macro `$`): the call `name(a)` of any other name is refused at parse time.
pub proof fn law_known_functions(name: Seq<char>, a: Seq<char>)
    requires
        name != "$"@,
    ensures
        parse_tokens(
            seq![TokenView::Identifier(name), TokenView::LParen, TokenView::Number(a), TokenView::RParen],
            start_state(),
        ).1 == if name == "add"@ || name == "next"@ || name == "nop"@ || name == "print"@ {
            Ok::<ExprView, Seq<char>>(ExprView::FunctionCall { name, args: seq![ExprView::Number(a)] })
        } else {
            Err("Unknown function at parse time: "@ + name)
        },
{
    let t = seq![TokenView::Identifier(name), TokenView::LParen, TokenView::Number(a), TokenView::RParen];
    let f = start_state().funcs;
    let na = ExprView::Number(a);
    // The argument.
    lemma_number(t, 2, f, a);
    lemma_lift_binary(t, at(2, f), (at(3, f), Ok(na)), 10);
    lemma_lift_comma(t, at(2, f), (at(3, f), Ok(na)));
    assert(parse_args(t, at(2, f), seq![]) == (at(3, f), Ok::<Seq<ExprView>, Seq<char>>(seq![na])));
    // The call.
    let r = finish_call(at(4, f), name, seq![na]);
    assert(parse_primary(t, at(0, f)) == r);
    assert(parse_unary(t, at(0, f)) == r);
    assert(parse_power(t, at(0, f)) == r);
    assert(r.0 == at(4, f));
    lemma_lift_binary(t, at(0, f), r, 10);
    lemma_lift_comma(t, at(0, f), r);
    assert(start_state() == at(0, f));
    reveal_strlit("$");
    reveal_strlit("add");
    reveal_strlit("next");
    reveal_strlit("nop");
    reveal_strlit("print");
}

/// The tree `left op right`.
pub open spec fn bin(op: BinaryOp, left: ExprView, right: ExprView) -> ExprView {
    ExprView::Binary { op, left: Box::new(left), right: Box::new(right) }
}

/// The tokens `a x b y c` of three numbers joined by two operators.
pub open spec fn three(a: Seq<char>, x: TokenView, b: Seq<char>, y: TokenView, c: Seq<char>) -> Seq<TokenView> {
    seq![TokenView::Number(a), x, TokenView::Number(b), y, TokenView::Number(c)]
}

/// What `e1 y e2` gives up to level `k`, where `e1` ends at index `q` (the operator `y`)
/// and `e2` at index `n`.
spec fn pair_up_to(e1: ExprView, y: TokenView, e2: ExprView, q: int, n: int, k: nat, f: Set<Seq<char>>) -> Parsed {
    let (oy, py) = binary_token(y).unwrap();
    if py <= k {
        (at(n, f), Ok(bin(oy, e1, e2)))
    } else {
        (at(q, f), Ok(e1))
    }
}

/// The operands `e1 x e2 y e3` at the exponent level: `e1` from `p` to `q1`, where `x` is;
/// `e2` from `q1 + 1` to `q2`, where `y` is; `e3` from `q2 + 1` to `n`, where no binary
/// operator follows.
spec fn operands(
    t: Seq<TokenView>,
    f: Set<Seq<char>>,
    p: int,
    q1: int,
    q2: int,
    n: int,
    e1: ExprView,
    e2: ExprView,
    e3: ExprView,
) -> bool {
    &&& 0 <= p < q1 && q1 + 1 < q2 && q2 + 1 < n <= t.len()
    &&& binary_token(t[q1]) is Some && binary_token(t[q2]) is Some
    &&& parse_power(t, at(p, f)) == (at(q1, f), Ok::<ExprView, Seq<char>>(e1))
    &&& parse_power(t, at(q1 + 1, f)) == (at(q2, f), Ok::<ExprView, Seq<char>>(e2))
    &&& parse_power(t, at(q2 + 1, f)) == (at(n, f), Ok::<ExprView, Seq<char>>(e3))
    &&& no_binary_op(t, at(n, f))
}

/// Two operands joined by one operator, up to level `k`.
proof fn lemma_pair(t: Seq<TokenView>, f: Set<Seq<char>>, p: int, q: int, n: int, e1: ExprView, e2: ExprView, k: nat)
    requires
        0 <= p < q && q + 1 < n <= t.len(),
        binary_token(t[q]) is Some,
        parse_power(t, at(p, f)) == (at(q, f), Ok::<ExprView, Seq<char>>(e1)),
        parse_power(t, at(q + 1, f)) == (at(n, f), Ok::<ExprView, Seq<char>>(e2)),
        no_binary_op(t, at(n, f)),
    ensures
        parse_binary(t, at(p, f), k) == pair_up_to(e1, t[q], e2, q, n, k, f),
    decreases k,
{
    let y = t[q];
    let (oy, py) = binary_token(y).unwrap();
    lemma_table(k, y);
    lemma_lift_binary(t, at(q + 1, f), (at(n, f), Ok(e2)), k);
    if n < t.len() {
        lemma_table(k, t[n]);
    }
    let first = if k <= 1 { (at(q, f), Ok::<ExprView, Seq<char>>(e1)) } else { pair_up_to(e1, y, e2, q, n, (k - 1) as nat, f) };
    if k > 1 {
        lemma_pair(t, f, p, q, n, e1, e2, (k - 1) as nat);
    }
    assert(parse_operand(t, at(p, f), k) == first);
    if py < k {
        assert(parse_binary_rest(t, at(n, f), k, bin(oy, e1, e2)) == pair_up_to(e1, y, e2, q, n, k, f));
    } else if py == k {
        let e = bin(oy, e1, e2);
        assert(parse_binary_rest(t, at(n, f), k, e) == (at(n, f), Ok::<ExprView, Seq<char>>(e)));
        assert(parse_binary_rest(t, at(q, f), k, e1) == (at(n, f), Ok::<ExprView, Seq<char>>(e)));
    } else {
        assert(parse_binary_rest(t, at(q, f), k, e1) == (at(q, f), Ok::<ExprView, Seq<char>>(e1)));
    }
}

/// What `e1 x e2 y e3` gives up to level `k`.
spec fn triple_up_to(
    e1: ExprView, x: TokenView, e2: ExprView, y: TokenView, e3: ExprView,
    q1: int, q2: int, n: int, k: nat, f: Set<Seq<char>>,
) -> Parsed {
    let (ox, px) = binary_token(x).unwrap();
    let (oy, py) = binary_token(y).unwrap();
    if px <= k && py <= k {
        (at(n, f), Ok(if px <= py { bin(oy, bin(ox, e1, e2), e3) } else { bin(ox, e1, bin(oy, e2, e3)) }))
    } else if px <= k {
        (at(q2, f), Ok(bin(ox, e1, e2)))
    } else {
        (at(q1, f), Ok(e1))
    }
}

/// Three operands joined by two operators, up to level `k`.
proof fn lemma_triple(
    t: Seq<TokenView>, f: Set<Seq<char>>, p: int, q1: int, q2: int, n: int,
    e1: ExprView, e2: ExprView, e3: ExprView, k: nat,
)
    requires
        operands(t, f, p, q1, q2, n, e1, e2, e3),
    ensures
        parse_binary(t, at(p, f), k) == triple_up_to(e1, t[q1], e2, t[q2], e3, q1, q2, n, k, f),
    decreases k,
{
    let (x, y) = (t[q1], t[q2]);
    let (ox, px) = binary_token(x).unwrap();
    let (oy, py) = binary_token(y).unwrap();
    lemma_table(k, x);
    lemma_table(k, y);
    if n < t.len() {
        lemma_table(k, t[n]);
    }
    lemma_lift_binary(t, at(q2 + 1, f), (at(n, f), Ok(e3)), k);
    let whole = triple_up_to(e1, x, e2, y, e3, q1, q2, n, k, f);
    let first = if k <= 1 { (at(q1, f), Ok::<ExprView, Seq<char>>(e1)) } else { triple_up_to(e1, x, e2, y, e3, q1, q2, n, (k - 1) as nat, f) };
    if k > 1 {
        lemma_triple(t, f, p, q1, q2, n, e1, e2, e3, (k - 1) as nat);
    }
    assert(parse_operand(t, at(p, f), k) == first);
    if px < k && py < k {
        let e = whole.1->Ok_0;
        assert(parse_binary_rest(t, at(n, f), k, e) == whole);
    } else if px < k {
        // `e1 x e2` was read below this level; `y` may join it here.
        let e = bin(ox, e1, e2);
        if py == k {
            let e4 = bin(oy, e, e3);
            assert(parse_binary_rest(t, at(n, f), k, e4) == (at(n, f), Ok::<ExprView, Seq<char>>(e4)));
            assert(parse_binary_rest(t, at(q2, f), k, e) == (at(n, f), Ok::<ExprView, Seq<char>>(e4)));
        } else {
            assert(parse_binary_rest(t, at(q2, f), k, e) == (at(q2, f), Ok::<ExprView, Seq<char>>(e)));
        }
    } else if px == k {
        // `x` joins `e1` with what `e2 y e3` gives below this level.
        if k > 1 {
            lemma_pair(t, f, q1 + 1, q2, n, e2, e3, (k - 1) as nat);
        }
        let below = if k <= 1 { (at(q2, f), Ok::<ExprView, Seq<char>>(e2)) } else { pair_up_to(e2, y, e3, q2, n, (k - 1) as nat, f) };
        assert(parse_operand(t, at(q1 + 1, f), k) == below);
        if py < k {
            let e = bin(ox, e1, bin(oy, e2, e3));
            assert(parse_binary_rest(t, at(n, f), k, e) == (at(n, f), Ok::<ExprView, Seq<char>>(e)));
            assert(parse_binary_rest(t, at(q1, f), k, e1) == (at(n, f), Ok::<ExprView, Seq<char>>(e)));
        } else if py == k {
            let e = bin(ox, e1, e2);
            let e4 = bin(oy, e, e3);
            assert(parse_binary_rest(t, at(n, f), k, e4) == (at(n, f), Ok::<ExprView, Seq<char>>(e4)));
            assert(parse_binary_rest(t, at(q2, f), k, e) == (at(n, f), Ok::<ExprView, Seq<char>>(e4)));
            assert(parse_binary_rest(t, at(q1, f), k, e1) == (at(n, f), Ok::<ExprView, Seq<char>>(e4)));
        } else {
            let e = bin(ox, e1, e2);
            assert(parse_binary_rest(t, at(q2, f), k, e) == (at(q2, f), Ok::<ExprView, Seq<char>>(e)));
            assert(parse_binary_rest(t, at(q1, f), k, e1) == (at(q2, f), Ok::<ExprView, Seq<char>>(e)));
        }
    } else {
        assert(parse_binary_rest(t, at(q1, f), k, e1) == (at(q1, f), Ok::<ExprView, Seq<char>>(e1)));
    }
}

/// Law: the binary operators group by precedence, and operators of one level group to the
/// left. For numbers `a`, `b`, `c` and operators `x`, `y`, the tokens `a x b y c` give
/// `(a x b) y c` when `x` binds at least as tightly as `y` (so `10 - 4 - 3` is
/// `(10 - 4) - 3`), and `a x (b y c)` when `y` binds more tightly (so `1 + 8 % 3` is
/// `1 + (8 % 3)`).
pub proof fn law_precedence(a: Seq<char>, x: TokenView, b: Seq<char>, y: TokenView, c: Seq<char>, funcs: Set<Seq<char>>)
    requires
        binary_token(x) is Some,
        binary_token(y) is Some,
    ensures
        ({
            let (ox, px) = binary_token(x).unwrap();
            let (oy, py) = binary_token(y).unwrap();
            let (na, nb, nc) = (ExprView::Number(a), ExprView::Number(b), ExprView::Number(c));
            parse_tokens(three(a, x, b, y, c), at(0, funcs)) == (at(5, funcs), Ok::<ExprView, Seq<char>>(
                if px <= py { bin(oy, bin(ox, na, nb), nc) } else { bin(ox, na, bin(oy, nb, nc)) },
            ))
        }),
{
    let t = three(a, x, b, y, c);
    let (na, nb, nc) = (ExprView::Number(a), ExprView::Number(b), ExprView::Number(c));
    lemma_number(t, 0, funcs, a);
    lemma_number(t, 2, funcs, b);
    lemma_number(t, 4, funcs, c);
    lemma_triple(t, funcs, 0, 1, 3, 5, na, nb, nc, 10);
    lemma_lift_comma(t, at(0, funcs), triple_up_to(na, x, nb, y, nc, 1, 3, 5, 10, funcs));
}

/// The prefix operator tokens: `-` (negation), `!` (logical not) and `^` (bitwise not).
pub open spec fn prefix_token(tok: TokenView) -> Option<UnaryOp> {
    match tok {
        TokenView::Minus => Some(UnaryOp::Neg),
        TokenView::LogNot => Some(UnaryOp::Not),
        TokenView::BitXor => Some(UnaryOp::BitNot),
        _ => None,
    }
}

/// The grammar's prefix table is the one above.
proof fn lemma_prefix_table(tok: TokenView)
    ensures
        unary_op_of(tok) == prefix_token(tok),
{
}

/// The tree `left ** right`.
pub open spec fn pow(left: ExprView, right: ExprView) -> ExprView {
    bin(BinaryOp::Pow, left, right)
}

/// A parse at the exponent level that uses up the tokens is the whole expression.
proof fn lemma_whole(t: Seq<TokenView>, funcs: Set<Seq<char>>, e: ExprView)
    requires
        t.len() > 0,
        parse_power(t, at(0, funcs)) == (at(t.len() as int, funcs), Ok::<ExprView, Seq<char>>(e)),
    ensures
        parse_tokens(t, at(0, funcs)) == (at(t.len() as int, funcs), Ok::<ExprView, Seq<char>>(e)),
{
    let res = (at(t.len() as int, funcs), Ok::<ExprView, Seq<char>>(e));
    lemma_lift_binary(t, at(0, funcs), res, 10);
    lemma_lift_comma(t, at(0, funcs), res);
}

/// Law: `**` groups to the right: the tokens `a ** b ** c` of three numbers give
/// `a ** (b ** c)`.
pub proof fn law_power_groups_right(a: Seq<char>, b: Seq<char>, c: Seq<char>, funcs: Set<Seq<char>>)
    ensures
        parse_tokens(
            seq![TokenView::Number(a), TokenView::Power, TokenView::Number(b), TokenView::Power, TokenView::Number(c)],
            at(0, funcs),
        ) == (at(5, funcs), Ok::<ExprView, Seq<char>>(
            pow(ExprView::Number(a), pow(ExprView::Number(b), ExprView::Number(c))),
        )),
{
    let t = seq![TokenView::Number(a), TokenView::Power, TokenView::Number(b), TokenView::Power, TokenView::Number(c)];
    let (na, nb, nc) = (ExprView::Number(a), ExprView::Number(b), ExprView::Number(c));
    lemma_number(t, 4, funcs, c);
    assert(parse_primary(t, at(2, funcs)) == (at(3, funcs), Ok::<ExprView, Seq<char>>(nb)));
    assert(parse_unary(t, at(2, funcs)) == (at(3, funcs), Ok::<ExprView, Seq<char>>(nb)));
    assert(parse_power(t, at(2, funcs)) == (at(5, funcs), Ok::<ExprView, Seq<char>>(pow(nb, nc))));
    assert(parse_primary(t, at(0, funcs)) == (at(1, funcs), Ok::<ExprView, Seq<char>>(na)));
    assert(parse_unary(t, at(0, funcs)) == (at(1, funcs), Ok::<ExprView, Seq<char>>(na)));
    assert(parse_power(t, at(0, funcs)) == (at(5, funcs), Ok::<ExprView, Seq<char>>(pow(na, pow(nb, nc)))));
    lemma_whole(t, funcs, pow(na, pow(nb, nc)));
}

/// Law: a prefix operator binds more tightly than `**`: for a prefix operator `u` and
/// numbers `a`, `b`, the tokens `u a ** b` give `(u a) ** b` (so `-2 ** 2` is `(-2) ** 2`).
pub proof fn law_prefix_binds_tighter_than_power(u: TokenView, a: Seq<char>, b: Seq<char>, funcs: Set<Seq<char>>)
    requires
        prefix_token(u) is Some,
    ensures
        parse_tokens(
            seq![u, TokenView::Number(a), TokenView::Power, TokenView::Number(b)],
            at(0, funcs),
        ) == (at(4, funcs), Ok::<ExprView, Seq<char>>(pow(
            ExprView::Unary { op: prefix_token(u).unwrap(), operand: Box::new(ExprView::Number(a)) },
            ExprView::Number(b),
        ))),
{
    let t = seq![u, TokenView::Number(a), TokenView::Power, TokenView::Number(b)];
    let (na, nb) = (ExprView::Number(a), ExprView::Number(b));
    let neg = ExprView::Unary { op: prefix_token(u).unwrap(), operand: Box::new(na) };
    lemma_prefix_table(u);
    lemma_number(t, 3, funcs, b);
    assert(parse_primary(t, at(1, funcs)) == (at(2, funcs), Ok::<ExprView, Seq<char>>(na)));
    assert(parse_unary(t, at(1, funcs)) == (at(2, funcs), Ok::<ExprView, Seq<char>>(na)));
    assert(parse_unary(t, at(0, funcs)) == (at(2, funcs), Ok::<ExprView, Seq<char>>(neg)));
    assert(parse_power(t, at(0, funcs)) == (at(4, funcs), Ok::<ExprView, Seq<char>>(pow(neg, nb))));
    lemma_whole(t, funcs, pow(neg, nb));
}

/// Law: `**` binds more tightly than every binary operator: for numbers `a`, `b`, `c` and a
/// binary operator `x`, the tokens `a x b ** c` give `a x (b ** c)` and the tokens
/// `a ** b x c` give `(a ** b) x c`.
pub proof fn law_power_binds_tighter(a: Seq<char>, x: TokenView, b: Seq<char>, c: Seq<char>, funcs: Set<Seq<char>>)
    requires
        binary_token(x) is Some,
    ensures
        ({
            let ox = binary_token(x).unwrap().0;
            let (na, nb, nc) = (ExprView::Number(a), ExprView::Number(b), ExprView::Number(c));
            &&& parse_tokens(
                seq![TokenView::Number(a), x, TokenView::Number(b), TokenView::Power, TokenView::Number(c)],
                at(0, funcs),
            ) == (at(5, funcs), Ok::<ExprView, Seq<char>>(bin(ox, na, pow(nb, nc))))
            &&& parse_tokens(
                seq![TokenView::Number(a), TokenView::Power, TokenView::Number(b), x, TokenView::Number(c)],
                at(0, funcs),
            ) == (at(5, funcs), Ok::<ExprView, Seq<char>>(bin(ox, pow(na, nb), nc)))
        }),
{
    let ox = binary_token(x).unwrap().0;
    let (na, nb, nc) = (ExprView::Number(a), ExprView::Number(b), ExprView::Number(c));
    // `a x b ** c`
    let t = seq![TokenView::Number(a), x, TokenView::Number(b), TokenView::Power, TokenView::Number(c)];
    lemma_number(t, 0, funcs, a);
    lemma_number(t, 4, funcs, c);
    assert(parse_primary(t, at(2, funcs)) == (at(3, funcs), Ok::<ExprView, Seq<char>>(nb)));
    assert(parse_unary(t, at(2, funcs)) == (at(3, funcs), Ok::<ExprView, Seq<char>>(nb)));
    assert(parse_power(t, at(2, funcs)) == (at(5, funcs), Ok::<ExprView, Seq<char>>(pow(nb, nc))));
    lemma_pair(t, funcs, 0, 1, 5, na, pow(nb, nc), 10);
    lemma_lift_comma(t, at(0, funcs), (at(5, funcs), Ok(bin(ox, na, pow(nb, nc)))));
    // `a ** b x c`
    let u = seq![TokenView::Number(a), TokenView::Power, TokenView::Number(b), x, TokenView::Number(c)];
    lemma_number(u, 2, funcs, b);
    lemma_number(u, 4, funcs, c);
    assert(parse_primary(u, at(0, funcs)) == (at(1, funcs), Ok::<ExprView, Seq<char>>(na)));
    assert(parse_unary(u, at(0, funcs)) == (at(1, funcs), Ok::<ExprView, Seq<char>>(na)));
    assert(parse_power(u, at(0, funcs)) == (at(3, funcs), Ok::<ExprView, Seq<char>>(pow(na, nb))));
    lemma_pair(u, funcs, 0, 3, 5, pow(na, nb), nc, 10);
    lemma_lift_comma(u, at(0, funcs), (at(5, funcs), Ok(bin(ox, pow(na, nb), nc))));
}

/// Law: parentheses group first, whatever the precedence: for numbers `a`, `b`, `c` and
/// binary operators `x`, `y`, the tokens `( a x b ) y c` give `(a x b) y c` (so in
/// `(1 + 2) * 3` the sum is the left operand of the product).
pub proof fn law_parentheses_group_first(a: Seq<char>, x: TokenView, b: Seq<char>, y: TokenView, c: Seq<char>, funcs: Set<Seq<char>>)
    requires
        binary_token(x) is Some,
        binary_token(y) is Some,
    ensures
        parse_tokens(
            seq![TokenView::LParen, TokenView::Number(a), x, TokenView::Number(b), TokenView::RParen, y, TokenView::Number(c)],
            at(0, funcs),
        ) == (at(7, funcs), Ok::<ExprView, Seq<char>>(bin(
            binary_token(y).unwrap().0,
            bin(binary_token(x).unwrap().0, ExprView::Number(a), ExprView::Number(b)),
            ExprView::Number(c),
        ))),
{
    let t = seq![TokenView::LParen, TokenView::Number(a), x, TokenView::Number(b), TokenView::RParen, y, TokenView::Number(c)];
    let (na, nb, nc) = (ExprView::Number(a), ExprView::Number(b), ExprView::Number(c));
    let ox = binary_token(x).unwrap().0;
    let oy = binary_token(y).unwrap().0;
    let inner = bin(ox, na, nb);
    lemma_number(t, 1, funcs, a);
    lemma_number(t, 3, funcs, b);
    lemma_number(t, 6, funcs, c);
    lemma_pair(t, funcs, 1, 2, 4, na, nb, 10);
    lemma_lift_comma(t, at(1, funcs), (at(4, funcs), Ok(inner)));
    assert(parse_primary(t, at(0, funcs)) == (at(5, funcs), Ok::<ExprView, Seq<char>>(inner)));
    assert(parse_unary(t, at(0, funcs)) == (at(5, funcs), Ok::<ExprView, Seq<char>>(inner)));
    assert(parse_power(t, at(0, funcs)) == (at(5, funcs), Ok::<ExprView, Seq<char>>(inner)));
    lemma_pair(t, funcs, 0, 5, 7, inner, nc, 10);
    lemma_lift_comma(t, at(0, funcs), (at(7, funcs), Ok(bin(oy, inner, nc))));
}

/// Law: `=` groups to the right: for names `v`, `w` and a number `a`, the tokens
/// `v = w = a` give `v = (w = a)`.
pub proof fn law_assignment_groups_right(v: Seq<char>, w: Seq<char>, a: Seq<char>, funcs: Set<Seq<char>>)
    ensures
        parse_tokens(
            seq![TokenView::Identifier(v), TokenView::Assign, TokenView::Identifier(w), TokenView::Assign, TokenView::Number(a)],
            at(0, funcs),
        ) == (at(5, funcs), Ok::<ExprView, Seq<char>>(bin(
            BinaryOp::Assign,
            ExprView::Variable(v),
            bin(BinaryOp::Assign, ExprView::Variable(w), ExprView::Number(a)),
        ))),
{
    let t = seq![TokenView::Identifier(v), TokenView::Assign, TokenView::Identifier(w), TokenView::Assign, TokenView::Number(a)];
    let (vv, vw, na) = (ExprView::Variable(v), ExprView::Variable(w), ExprView::Number(a));
    let inner = bin(BinaryOp::Assign, vw, na);
    let whole = bin(BinaryOp::Assign, vv, inner);
    lemma_number(t, 4, funcs, a);
    lemma_lift_binary(t, at(4, funcs), (at(5, funcs), Ok(na)), 10);
    assert(parse_assignment(t, at(4, funcs)) == (at(5, funcs), Ok::<ExprView, Seq<char>>(na)));
    assert(parse_primary(t, at(2, funcs)) == (at(3, funcs), Ok::<ExprView, Seq<char>>(vw)));
    assert(parse_unary(t, at(2, funcs)) == (at(3, funcs), Ok::<ExprView, Seq<char>>(vw)));
    assert(parse_power(t, at(2, funcs)) == (at(3, funcs), Ok::<ExprView, Seq<char>>(vw)));
    lemma_lift_binary(t, at(2, funcs), (at(3, funcs), Ok(vw)), 10);
    assert(parse_assignment(t, at(2, funcs)) == (at(5, funcs), Ok::<ExprView, Seq<char>>(inner)));
    assert(parse_primary(t, at(0, funcs)) == (at(1, funcs), Ok::<ExprView, Seq<char>>(vv)));
    assert(parse_unary(t, at(0, funcs)) == (at(1, funcs), Ok::<ExprView, Seq<char>>(vv)));
    assert(parse_power(t, at(0, funcs)) == (at(1, funcs), Ok::<ExprView, Seq<char>>(vv)));
    lemma_lift_binary(t, at(0, funcs), (at(1, funcs), Ok(vv)), 10);
    assert(parse_assignment(t, at(0, funcs)) == (at(5, funcs), Ok::<ExprView, Seq<char>>(whole)));
    assert(parse_comma_rest(t, at(5, funcs), whole) == (at(5, funcs), Ok::<ExprView, Seq<char>>(whole)));
    assert(parse_comma(t, at(0, funcs)) == (at(5, funcs), Ok::<ExprView, Seq<char>>(whole)));
}

/// Law: the macro `$` makes its first argument a known function for the rest of the
/// expression: for a name `m` other than `$` and numbers `a`, `b`, the tokens
/// `$(m, a), m(b)` parse, whatever functions were known before, to the two calls joined by a
/// comma, and afterwards `m` is known.
pub proof fn law_macro_defines_function(m: Seq<char>, a: Seq<char>, b: Seq<char>, funcs: Set<Seq<char>>)
    requires
        m != "$"@,
    ensures
        parse_tokens(
            seq![
                TokenView::Identifier("$"@), TokenView::LParen, TokenView::Identifier(m), TokenView::Comma,
                TokenView::Number(a), TokenView::RParen, TokenView::Comma, TokenView::Identifier(m),
                TokenView::LParen, TokenView::Number(b), TokenView::RParen,
            ],
            at(0, funcs),
        ) == (at(11, funcs.insert(m)), Ok::<ExprView, Seq<char>>(bin(
            BinaryOp::Comma,
            ExprView::FunctionCall { name: "$"@, args: seq![ExprView::Variable(m), ExprView::Number(a)] },
            ExprView::FunctionCall { name: m, args: seq![ExprView::Number(b)] },
        ))),
{
    let t = seq![
        TokenView::Identifier("$"@), TokenView::LParen, TokenView::Identifier(m), TokenView::Comma,
        TokenView::Number(a), TokenView::RParen, TokenView::Comma, TokenView::Identifier(m),
        TokenView::LParen, TokenView::Number(b), TokenView::RParen,
    ];
    let f = funcs;
    let g = funcs.insert(m);
    let (vm, na, nb) = (ExprView::Variable(m), ExprView::Number(a), ExprView::Number(b));
    let def = ExprView::FunctionCall { name: "$"@, args: seq![vm, na] };
    let call = ExprView::FunctionCall { name: m, args: seq![nb] };
    // The arguments of `$`.
    assert(parse_primary(t, at(2, f)) == (at(3, f), Ok::<ExprView, Seq<char>>(vm)));
    assert(parse_unary(t, at(2, f)) == (at(3, f), Ok::<ExprView, Seq<char>>(vm)));
    assert(parse_power(t, at(2, f)) == (at(3, f), Ok::<ExprView, Seq<char>>(vm)));
    lemma_lift_binary(t, at(2, f), (at(3, f), Ok(vm)), 10);
    assert(parse_assignment(t, at(2, f)) == (at(3, f), Ok::<ExprView, Seq<char>>(vm)));
    lemma_number(t, 4, f, a);
    lemma_lift_binary(t, at(4, f), (at(5, f), Ok(na)), 10);
    lemma_lift_comma(t, at(4, f), (at(5, f), Ok(na)));
    assert(seq![vm].push(na) =~= seq![vm, na]);
    assert(parse_args(t, at(4, f), seq![vm]) == (at(5, f), Ok::<Seq<ExprView>, Seq<char>>(seq![vm, na])));
    assert(seq![].push(vm) =~= seq![vm]);
    assert(parse_args(t, at(2, f), seq![]) == (at(5, f), Ok::<Seq<ExprView>, Seq<char>>(seq![vm, na])));
    // The call of `$`.
    assert(finish_call(at(6, f), "$"@, seq![vm, na]) == (at(6, g), Ok::<ExprView, Seq<char>>(def)));
    assert(parse_primary(t, at(0, f)) == (at(6, g), Ok::<ExprView, Seq<char>>(def)));
    assert(parse_unary(t, at(0, f)) == (at(6, g), Ok::<ExprView, Seq<char>>(def)));
    assert(parse_power(t, at(0, f)) == (at(6, g), Ok::<ExprView, Seq<char>>(def)));
    lemma_lift_binary(t, at(0, f), (at(6, g), Ok(def)), 10);
    assert(parse_assignment(t, at(0, f)) == (at(6, g), Ok::<ExprView, Seq<char>>(def)));
    // The call of `m`, now known.
    lemma_number(t, 9, g, b);
    lemma_lift_binary(t, at(9, g), (at(10, g), Ok(nb)), 10);
    lemma_lift_comma(t, at(9, g), (at(10, g), Ok(nb)));
    assert(seq![].push(nb) =~= seq![nb]);
    assert(parse_args(t, at(9, g), seq![]) == (at(10, g), Ok::<Seq<ExprView>, Seq<char>>(seq![nb])));
    assert(g.contains(m));
    assert(finish_call(at(11, g), m, seq![nb]) == (at(11, g), Ok::<ExprView, Seq<char>>(call)));
    assert(parse_primary(t, at(7, g)) == (at(11, g), Ok::<ExprView, Seq<char>>(call)));
    assert(parse_unary(t, at(7, g)) == (at(11, g), Ok::<ExprView, Seq<char>>(call)));
    assert(parse_power(t, at(7, g)) == (at(11, g), Ok::<ExprView, Seq<char>>(call)));
    lemma_lift_binary(t, at(7, g), (at(11, g), Ok(call)), 10);
    lemma_lift_comma(t, at(7, g), (at(11, g), Ok(call)));
    // The two joined by the comma.
    assert(comma_run(t, 7) == 0);
    let both = bin(BinaryOp::Comma, def, call);
    assert(parse_comma_rest(t, at(11, g), both) == (at(11, g), Ok::<ExprView, Seq<char>>(both)));
    assert(parse_comma_rest(t, at(6, g), def) == (at(11, g), Ok::<ExprView, Seq<char>>(both)));
    assert(parse_comma(t, at(0, f)) == (at(11, g), Ok::<ExprView, Seq<char>>(both)));
}

/// Law: no tokens make the number `NaN`, the value of an empty expression.
pub proof fn law_empty_is_nan(funcs: Set<Seq<char>>)
    ensures
        parse_tokens(seq![], at(0, funcs)) == (at(0, funcs), Ok::<ExprView, Seq<char>>(ExprView::Number("NaN"@))),
{
}

/// Law: tokens left over after a whole expression are refused: for numbers `a`, `b`, the
/// tokens `a b` give the error for trailing tokens.
pub proof fn law_trailing_tokens(a: Seq<char>, b: Seq<char>, funcs: Set<Seq<char>>)
    ensures
        parse_tokens(seq![TokenView::Number(a), TokenView::Number(b)], at(0, funcs))
            == (at(1, funcs), Err::<ExprView, Seq<char>>("Unexpected tokens at the end of the expression"@)),
{
    let t = seq![TokenView::Number(a), TokenView::Number(b)];
    let na = ExprView::Number(a);
    lemma_number(t, 0, funcs, a);
    lemma_lift_binary(t, at(0, funcs), (at(1, funcs), Ok(na)), 10);
    lemma_lift_comma(t, at(0, funcs), (at(1, funcs), Ok(na)));
    assert(parse_comma_rest(t, at(1, funcs), na) == (at(1, funcs), Ok::<ExprView, Seq<char>>(na)));
}

/// Law: only a variable can be assigned to: for numbers `a`, `b`, the tokens `a = b` give
/// the error for a bad assignment target.
pub proof fn law_assignment_needs_variable(a: Seq<char>, b: Seq<char>, funcs: Set<Seq<char>>)
    ensures
        parse_tokens(seq![TokenView::Number(a), TokenView::Assign, TokenView::Number(b)], at(0, funcs))
            == (at(3, funcs), Err::<ExprView, Seq<char>>("The left side of an assignment must be a variable"@)),
{
    let t = seq![TokenView::Number(a), TokenView::Assign, TokenView::Number(b)];
    let (na, nb) = (ExprView::Number(a), ExprView::Number(b));
    lemma_number(t, 0, funcs, a);
    lemma_lift_binary(t, at(0, funcs), (at(1, funcs), Ok(na)), 10);
    lemma_number(t, 2, funcs, b);
    lemma_lift_binary(t, at(2, funcs), (at(3, funcs), Ok(nb)), 10);
    lemma_lift_comma(t, at(2, funcs), (at(3, funcs), Ok(nb)));
    assert(parse_assignment(t, at(0, funcs)) == (at(3, funcs), Err::<ExprView, Seq<char>>("The left side of an assignment must be a variable"@)));
    assert(parse_comma(t, at(0, funcs)) == parse_assignment(t, at(0, funcs)));
}

/// Law: an opened parenthesis must be closed: for a number `a`, the tokens `( a` give the
/// error for a missing `)`.
pub proof fn law_unclosed_group(a: Seq<char>, funcs: Set<Seq<char>>)
    ensures
        parse_tokens(seq![TokenView::LParen, TokenView::Number(a)], at(0, funcs))
            == (at(2, funcs), Err::<ExprView, Seq<char>>("Expected ')' after expression."@)),
{
    let t = seq![TokenView::LParen, TokenView::Number(a)];
    let na = ExprView::Number(a);
    let res = (at(2, funcs), Err::<ExprView, Seq<char>>("Expected ')' after expression."@));
    lemma_number(t, 1, funcs, a);
    lemma_lift_binary(t, at(1, funcs), (at(2, funcs), Ok(na)), 10);
    lemma_lift_comma(t, at(1, funcs), (at(2, funcs), Ok(na)));
    assert(parse_primary(t, at(0, funcs)) == res);
    assert(parse_unary(t, at(0, funcs)) == res);
    assert(parse_power(t, at(0, funcs)) == res);
    lemma_lift_binary(t, at(0, funcs), res, 10);
    lemma_lift_comma(t, at(0, funcs), res);
}

/// Law: prefix operators nest and bind more tightly than every binary operator: for prefix
/// operators `u`, `v`, numbers `a`, `b` and a binary operator `x`, the tokens `u v a x b`
/// give `(u (v a)) x b` (so `- -1 + 2` is `(-(-1)) + 2`).
pub proof fn law_prefix_binds_tighter_than_binary(
    u: TokenView, v: TokenView, a: Seq<char>, x: TokenView, b: Seq<char>, funcs: Set<Seq<char>>,
)
    requires
        prefix_token(u) is Some,
        prefix_token(v) is Some,
        binary_token(x) is Some,
    ensures
        parse_tokens(seq![u, v, TokenView::Number(a), x, TokenView::Number(b)], at(0, funcs))
            == (at(5, funcs), Ok::<ExprView, Seq<char>>(bin(
                binary_token(x).unwrap().0,
                ExprView::Unary {
                    op: prefix_token(u).unwrap(),
                    operand: Box::new(ExprView::Unary { op: prefix_token(v).unwrap(), operand: Box::new(ExprView::Number(a)) }),
                },
                ExprView::Number(b),
            ))),
{
    let t = seq![u, v, TokenView::Number(a), x, TokenView::Number(b)];
    let (na, nb) = (ExprView::Number(a), ExprView::Number(b));
    let inner = ExprView::Unary { op: prefix_token(v).unwrap(), operand: Box::new(na) };
    let outer = ExprView::Unary { op: prefix_token(u).unwrap(), operand: Box::new(inner) };
    lemma_prefix_table(u);
    lemma_prefix_table(v);
    lemma_number(t, 4, funcs, b);
    assert(parse_primary(t, at(2, funcs)) == (at(3, funcs), Ok::<ExprView, Seq<char>>(na)));
    assert(parse_unary(t, at(2, funcs)) == (at(3, funcs), Ok::<ExprView, Seq<char>>(na)));
    assert(parse_unary(t, at(1, funcs)) == (at(3, funcs), Ok::<ExprView, Seq<char>>(inner)));
    assert(parse_unary(t, at(0, funcs)) == (at(3, funcs), Ok::<ExprView, Seq<char>>(outer)));
    assert(parse_power(t, at(0, funcs)) == (at(3, funcs), Ok::<ExprView, Seq<char>>(outer)));
    lemma_pair(t, funcs, 0, 3, 5, outer, nb, 10);
    lemma_lift_comma(t, at(0, funcs), (at(5, funcs), Ok(bin(binary_token(x).unwrap().0, outer, nb))));
}

/// Law: commas group to the left: for numbers `a`, `b`, `c`, the tokens `a , b , c` give
/// `(a , b) , c`.
pub proof fn law_commas_group_left(a: Seq<char>, b: Seq<char>, c: Seq<char>, funcs: Set<Seq<char>>)
    ensures
        parse_tokens(
            seq![TokenView::Number(a), TokenView::Comma, TokenView::Number(b), TokenView::Comma, TokenView::Number(c)],
            at(0, funcs),
        ) == (at(5, funcs), Ok::<ExprView, Seq<char>>(bin(
            BinaryOp::Comma,
            bin(BinaryOp::Comma, ExprView::Number(a), ExprView::Number(b)),
            ExprView::Number(c),
        ))),
{
    let t = seq![TokenView::Number(a), TokenView::Comma, TokenView::Number(b), TokenView::Comma, TokenView::Number(c)];
    let (na, nb, nc) = (ExprView::Number(a), ExprView::Number(b), ExprView::Number(c));
    let ab = bin(BinaryOp::Comma, na, nb);
    let abc = bin(BinaryOp::Comma, ab, nc);
    lemma_number(t, 0, funcs, a);
    lemma_lift_binary(t, at(0, funcs), (at(1, funcs), Ok(na)), 10);
    assert(parse_assignment(t, at(0, funcs)) == (at(1, funcs), Ok::<ExprView, Seq<char>>(na)));
    lemma_number(t, 2, funcs, b);
    lemma_lift_binary(t, at(2, funcs), (at(3, funcs), Ok(nb)), 10);
    assert(parse_assignment(t, at(2, funcs)) == (at(3, funcs), Ok::<ExprView, Seq<char>>(nb)));
    lemma_number(t, 4, funcs, c);
    lemma_lift_binary(t, at(4, funcs), (at(5, funcs), Ok(nc)), 10);
    lemma_lift_comma(t, at(4, funcs), (at(5, funcs), Ok(nc)));
    assert(comma_run(t, 2) == 0);
    assert(comma_run(t, 4) == 0);
    assert(parse_comma_rest(t, at(5, funcs), abc) == (at(5, funcs), Ok::<ExprView, Seq<char>>(abc)));
    assert(parse_comma_rest(t, at(3, funcs), ab) == (at(5, funcs), Ok::<ExprView, Seq<char>>(abc)));
    assert(parse_comma_rest(t, at(1, funcs), na) == (at(5, funcs), Ok::<ExprView, Seq<char>>(abc)));
    assert(parse_comma(t, at(0, funcs)) == (at(5, funcs), Ok::<ExprView, Seq<char>>(abc)));
}

/// Law: a call of a known function keeps its arguments in order: for a known name other
/// than `$` and numbers `a`, `b`, the tokens `name ( a , b )` give the call of `name` with
/// the arguments `a`, `b`.
pub proof fn law_call_arguments_in_order(name: Seq<char>, a: Seq<char>, b: Seq<char>, funcs: Set<Seq<char>>)
    requires
        funcs.contains(name),
        name != "$"@,
    ensures
        parse_tokens(
            seq![
                TokenView::Identifier(name), TokenView::LParen, TokenView::Number(a), TokenView::Comma,
                TokenView::Number(b), TokenView::RParen,
            ],
            at(0, funcs),
        ) == (at(6, funcs), Ok::<ExprView, Seq<char>>(
            ExprView::FunctionCall { name, args: seq![ExprView::Number(a), ExprView::Number(b)] },
        )),
{
    let t = seq![
        TokenView::Identifier(name), TokenView::LParen, TokenView::Number(a), TokenView::Comma,
        TokenView::Number(b), TokenView::RParen,
    ];
    let f = funcs;
    let (na, nb) = (ExprView::Number(a), ExprView::Number(b));
    let call = ExprView::FunctionCall { name, args: seq![na, nb] };
    lemma_number(t, 2, f, a);
    lemma_lift_binary(t, at(2, f), (at(3, f), Ok(na)), 10);
    assert(parse_assignment(t, at(2, f)) == (at(3, f), Ok::<ExprView, Seq<char>>(na)));
    lemma_number(t, 4, f, b);
    lemma_lift_binary(t, at(4, f), (at(5, f), Ok(nb)), 10);
    lemma_lift_comma(t, at(4, f), (at(5, f), Ok(nb)));
    assert(seq![na].push(nb) =~= seq![na, nb]);
    assert(parse_args(t, at(4, f), seq![na]) == (at(5, f), Ok::<Seq<ExprView>, Seq<char>>(seq![na, nb])));
    assert(seq![].push(na) =~= seq![na]);
    assert(parse_args(t, at(2, f), seq![]) == (at(5, f), Ok::<Seq<ExprView>, Seq<char>>(seq![na, nb])));
    assert(finish_call(at(6, f), name, seq![na, nb]) == (at(6, f), Ok::<ExprView, Seq<char>>(call)));
    assert(parse_primary(t, at(0, f)) == (at(6, f), Ok::<ExprView, Seq<char>>(call)));
    assert(parse_unary(t, at(0, f)) == (at(6, f), Ok::<ExprView, Seq<char>>(call)));
    assert(parse_power(t, at(0, f)) == (at(6, f), Ok::<ExprView, Seq<char>>(call)));
    lemma_whole(t, f, call);
}

} // verus!
