use mathex::ast::{BinaryOp, Expr, UnaryOp};
use mathex::parser::Parser;

fn parse(input: &str) -> Result<Expr, String> {
    Parser::new(input)?.parse()
}

fn num(s: &str) -> Expr {
    Expr::Number(s.to_string())
}

fn var(s: &str) -> Expr {
    Expr::Variable(s.to_string())
}

fn bin(op: BinaryOp, l: Expr, r: Expr) -> Expr {
    Expr::Binary { op, left: Box::new(l), right: Box::new(r) }
}

fn un(op: UnaryOp, e: Expr) -> Expr {
    Expr::Unary { op, operand: Box::new(e) }
}

fn call(name: &str, args: Vec<Expr>) -> Expr {
    Expr::FunctionCall { name: name.to_string(), args }
}

#[test]
fn empty_input_is_nan() {
    for input in ["", "  ", "\n", " \t\n; "] {
        let e = Parser::new(input).unwrap().parse().unwrap();
        assert_eq!(e, num("NaN"));
        if let Expr::Number(n) = e {
            assert!(n.parse::<f32>().unwrap().is_nan());
        }
    }
}

#[test]
fn power_groups_to_the_right() {
    assert_eq!(
        parse("2**2**3").unwrap(),
        bin(BinaryOp::Pow, num("2"), bin(BinaryOp::Pow, num("2"), num("3")))
    );
    assert_eq!(
        parse("(2**2)**3").unwrap(),
        bin(BinaryOp::Pow, bin(BinaryOp::Pow, num("2"), num("2")), num("3"))
    );
}

#[test]
fn assignment_groups_to_the_right() {
    assert_eq!(
        parse("x = y = 5").unwrap(),
        bin(BinaryOp::Assign, var("x"), bin(BinaryOp::Assign, var("y"), num("5")))
    );
}

#[test]
fn assignment_needs_a_name_on_the_left() {
    assert_eq!(parse("3 = 4").unwrap_err(), "The left side of an assignment must be a variable");
    assert_eq!(parse("(x) + 1 = 2").unwrap_err(), "The left side of an assignment must be a variable");
}

#[test]
fn precedence_of_binary_operators() {
    assert_eq!(
        parse("1 + 2 * 3 - 4").unwrap(),
        bin(BinaryOp::Sub, bin(BinaryOp::Add, num("1"), bin(BinaryOp::Mul, num("2"), num("3"))), num("4"))
    );
    assert_eq!(
        parse("a || b && c | d ^ e & f == g < h << i").unwrap(),
        bin(
            BinaryOp::LogOr,
            var("a"),
            bin(
                BinaryOp::LogAnd,
                var("b"),
                bin(
                    BinaryOp::BitOr,
                    var("c"),
                    bin(
                        BinaryOp::BitXor,
                        var("d"),
                        bin(
                            BinaryOp::BitAnd,
                            var("e"),
                            bin(BinaryOp::Eq, var("f"), bin(BinaryOp::Lt, var("g"), bin(BinaryOp::Shl, var("h"), var("i")))),
                        ),
                    ),
                ),
            ),
        )
    );
    assert_eq!(
        parse("8 / 4 % 3").unwrap(),
        bin(BinaryOp::Rem, bin(BinaryOp::Div, num("8"), num("4")), num("3"))
    );
    assert_eq!(
        parse("1 != 2 >= 3 > 4 <= 5 >> 6").unwrap(),
        bin(
            BinaryOp::Neq,
            num("1"),
            bin(
                BinaryOp::Le,
                bin(BinaryOp::Gt, bin(BinaryOp::Ge, num("2"), num("3")), num("4")),
                bin(BinaryOp::Shr, num("5"), num("6")),
            ),
        )
    );
}

#[test]
fn prefix_operators_nest() {
    assert_eq!(
        parse("-!^x").unwrap(),
        un(UnaryOp::Neg, un(UnaryOp::Not, un(UnaryOp::BitNot, var("x"))))
    );
    assert_eq!(parse("-2**2").unwrap(), bin(BinaryOp::Pow, un(UnaryOp::Neg, num("2")), num("2")));
}

#[test]
fn commas_group_to_the_left_and_consecutive_commas_count_as_one() {
    assert_eq!(
        parse("a=1, b=2, a+b").unwrap(),
        bin(
            BinaryOp::Comma,
            bin(BinaryOp::Comma, bin(BinaryOp::Assign, var("a"), num("1")), bin(BinaryOp::Assign, var("b"), num("2"))),
            bin(BinaryOp::Add, var("a"), var("b")),
        )
    );
    assert_eq!(parse("1,").unwrap(), num("1"));
    assert_eq!(parse("1,,").unwrap(), num("1"));
    assert_eq!(parse("(1,,)").unwrap(), num("1"));
    assert_eq!(parse("1,,2").unwrap(), bin(BinaryOp::Comma, num("1"), num("2")));
    assert_eq!(
        parse("1,,,2,3").unwrap(),
        bin(BinaryOp::Comma, bin(BinaryOp::Comma, num("1"), num("2")), num("3"))
    );
    assert_eq!(parse("x=1\ny=2\n").unwrap(), bin(BinaryOp::Comma, bin(BinaryOp::Assign, var("x"), num("1")), bin(BinaryOp::Assign, var("y"), num("2"))));
}

#[test]
fn calls_of_known_functions() {
    assert_eq!(parse("add(1, 2)").unwrap(), call("add", vec![num("1"), num("2")]));
    assert_eq!(parse("nop()").unwrap(), call("nop", vec![]));
    assert_eq!(parse("print(x = 1)").unwrap(), call("print", vec![bin(BinaryOp::Assign, var("x"), num("1"))]));
    assert_eq!(parse("next(1)").unwrap(), call("next", vec![num("1")]));
}

#[test]
fn calls_of_unknown_functions_are_rejected() {
    assert_eq!(parse("foo(1)").unwrap_err(), "Unknown function at parse time: foo");
    assert_eq!(parse("add(1").unwrap_err(), "Expected ')' after function arguments.");
}

#[test]
fn macros_define_functions() {
    assert_eq!(
        parse("$(inc, $1 + 1), inc(2)").unwrap(),
        bin(
            BinaryOp::Comma,
            call("$", vec![var("inc"), bin(BinaryOp::Add, var("$1"), num("1"))]),
            call("inc", vec![num("2")]),
        )
    );
    assert_eq!(parse("inc(2)").unwrap_err(), "Unknown function at parse time: inc");
    assert_eq!(parse("$()").unwrap_err(), "$ requires at least 1 argument");
    assert_eq!(parse("$(1, 2)").unwrap_err(), "First argument of $ must be an identifier");
}

#[test]
fn macro_definitions_persist_in_the_parser() {
    let mut p = Parser::new("$(twice, $1 * 2)").unwrap();
    p.parse().unwrap();
    // The same parser has read all its tokens: a second parse finds nothing left.
    assert_eq!(p.parse().unwrap_err(), "Unexpected end of expression. Expected a number or variable.");
}

#[test]
fn syntax_errors() {
    assert_eq!(parse("42 5").unwrap_err(), "Unexpected tokens at the end of the expression");
    assert_eq!(parse("(1 + 2").unwrap_err(), "Expected ')' after expression.");
    assert_eq!(parse("1 +").unwrap_err(), "Unexpected end of expression. Expected a number or variable.");
    assert_eq!(parse(")").unwrap_err(), "Expected a number, variable, or '(', but found RParen");
    assert_eq!(parse("1 + * 2").unwrap_err(), "Expected a number, variable, or '(', but found Star");
    assert_eq!(parse("()").unwrap_err(), "Expected a number, variable, or '(', but found RParen");
}

#[test]
fn lexical_errors_come_from_new() {
    assert_eq!(Parser::new("1 # 2").err().unwrap(), "Unexpected character: #");
    assert_eq!(Parser::new("1..2").err().unwrap(), "Invalid number format: 1..2");
}

#[test]
fn trees_clone_deeply() {
    let e = parse("$(f, $1), f(x = -2 ** 3, y)").unwrap();
    assert_eq!(e.clone(), e);
}
