use mathex::ast::{BinaryOp, Expr};
use mathex::lexer::{Lexer, Token};
use mathex::parser::Parser;

fn tokens(input: &str) -> Result<Vec<Token>, String> {
    Lexer::new(input).tokenize()
}

#[test]
fn line_break_after_operand_acts_as_comma() {
    for (s1, s2) in [("a", "b"), ("1.5", "x=2"), ("f(1)", "2"), ("x", ""), ("y", "*")] {
        for c in ['\n', '\r', ';'] {
            assert_eq!(tokens(&format!("{s1}{c}{s2}")), tokens(&format!("{s1},{s2}")));
        }
    }
}

#[test]
fn line_break_elsewhere_acts_as_blank() {
    for (s1, s2) in [("a=", "3"), ("", "1"), ("(", "x)"), ("1 +", "2")] {
        for c in ['\n', '\r', ';'] {
            assert_eq!(tokens(&format!("{s1}{c}{s2}")), tokens(&format!("{s1} {s2}")));
        }
    }
}

#[test]
fn blank_separates_token_sequences() {
    let cases = [("x+", "1"), ("a", "b"), ("1", ".5"), ("<", "="), ("*", "*"), ("a=1", "b\nc"), ("f(x)", "  y;z")];
    for (s1, s2) in cases {
        for b in [' ', '\t', '\\'] {
            let mut expected = tokens(s1).unwrap();
            expected.extend(tokens(s2).unwrap());
            assert_eq!(tokens(&format!("{s1}{b}{s2}")).unwrap(), expected);
        }
    }
}

#[test]
fn number_tokens_are_float_numerals() {
    for input in ["1 + 2.5 * .25 - 7.", "x = 0.000001, y = 12345678901234567890"] {
        for t in tokens(input).unwrap() {
            if let Token::Number(n) = t {
                assert!(n.parse::<f32>().is_ok(), "{n}");
            }
        }
    }
}

fn check_well_formed(e: &Expr, known: &[&str]) {
    match e {
        Expr::Number(n) => assert!(n.parse::<f32>().is_ok()),
        Expr::Variable(_) => {}
        Expr::Binary { op, left, right } => {
            if *op == BinaryOp::Assign {
                assert!(matches!(**left, Expr::Variable(_)));
            }
            check_well_formed(left, known);
            check_well_formed(right, known);
        }
        Expr::Unary { operand, .. } => check_well_formed(operand, known),
        Expr::FunctionCall { name, args } => {
            if name == "$" {
                assert!(matches!(args.first(), Some(Expr::Variable(_))));
            } else {
                assert!(known.contains(&name.as_str()));
            }
            for a in args {
                check_well_formed(a, known);
            }
        }
    }
}

#[test]
fn parsed_trees_are_well_formed() {
    let known = ["add", "next", "nop", "print", "sq"];
    for input in ["x = y = 2 ** 3", "$(sq, $1 * $1), sq(add(1, 2))", "a = (b = 1) + 2", ""] {
        let e = Parser::new(input).unwrap().parse().unwrap();
        check_well_formed(&e, &known);
    }
}
