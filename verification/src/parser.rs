//! The parser: a recursive-descent parser from tokens to a syntax tree, following
//! [`crate::grammar`].
use vstd::prelude::*;
use crate::ast::{
    BinaryOp, Expr, ExprView, UnaryOp, exprs_view, lemma_exprs_view_index,
    lemma_exprs_view_push,
};
use crate::grammar::{
    finish_call, peek_is, PState, Parsed, BITWISE_AND, BITWISE_OR, BITWISE_XOR, EQUALITY, FACTOR,
    LOGICAL_AND, LOGICAL_OR, RELATIONAL, SHIFT, TERM, advanced, binary_op_at, msg_found, parse_args,
    parse_assignment, parse_binary, parse_binary_rest, parse_comma, parse_comma_rest,
    parse_operand, parse_power, parse_primary, parse_tokens, parse_unary, token_name,
};
use crate::lexer::{Lexer, Token, TokenView, lemma_run_len_exact, lex, token_views};

verus! {

/// A parser over the tokens of one expression.
pub struct Parser {
    tokens: Vec<Token>,
    current: usize,
    /// The functions known so far, as a set: names are distinct (see the type invariant).
    /// A `Vec` stands for the set because vstd's `HashSet` contracts hold only for key types
    /// that `obeys_key_model`, which vstd establishes for integer keys but not for `String`.
    known_funcs: Vec<String>,
}

/// The set of the texts of `names`.
pub open spec fn names_set(names: Seq<String>) -> Set<Seq<char>> {
    Set::new(|n: Seq<char>| exists|i: int| 0 <= i < names.len() && names[i]@ == n)
}

/// The functions a new parser knows: those of the C test suite and the macro operator `$`.
pub open spec fn initial_funcs() -> Set<Seq<char>> {
    set!["add"@, "next"@, "nop"@, "print"@, "$"@]
}

/// The view of a parse result.
pub open spec fn result_view(r: Result<Expr, String>) -> Result<ExprView, Seq<char>> {
    match r {
        Ok(e) => Ok(e@),
        Err(m) => Err(m@),
    }
}

/// The state of a new parser: at the first token, knowing the initial functions.
pub open spec fn start_state() -> PState {
    PState { pos: 0, funcs: initial_funcs() }
}

/// What a token at the head of a primary expression means to the parser.
enum Head {
    Number(String),
    Name(String),
    Open,
    Other(String),
}

impl Parser {
    /// The parser never stands past its last token, and the names of the functions it knows
    /// are distinct.
    #[verifier::type_invariant]
    closed spec fn inv(&self) -> bool {
        &&& self.current <= self.tokens@.len()
        &&& forall|i: int, j: int|
            0 <= i < j < self.known_funcs@.len() ==> #[trigger] self.known_funcs@[i]@
                != #[trigger] self.known_funcs@[j]@
    }

    /// The tokens the parser reads.
    pub closed spec fn tokens(&self) -> Seq<TokenView> {
        token_views(self.tokens@)
    }

    /// The parser's position and the functions it knows.
    pub closed spec fn state(&self) -> PState {
        PState { pos: self.current as int, funcs: names_set(self.known_funcs@) }
    }

    /// `new` is `old` after a parse step that the grammar describes by `p`, and `res` is that
    /// step's result; a successful step consumed tokens.
    closed spec fn follows(old: Parser, new: Parser, res: Result<Expr, String>, p: Parsed) -> bool {
        &&& new.tokens@ == old.tokens@
        &&& new.state() == p.0
        &&& result_view(res) == p.1
        &&& res is Ok ==> advanced(old.tokens(), old.state(), new.state())
    }

    /// Tokenizes `input` and makes a parser at its start, or fails with the lexical error.
    pub fn new(input: &str) -> (res: Result<Parser, String>)
        ensures
            match lex(input@) {
                Ok(ts) => res matches Ok(p) && p.tokens() == ts && p.state() == start_state(),
                Err(m) => res matches Err(e) && e@ == m,
            },
    {
        let mut lexer = Lexer::new(input);
        let tokens = match lexer.tokenize() {
            Ok(ts) => ts,
            Err(e) => return Err(e),
        };
        let mut known_funcs: Vec<String> = Vec::new();
        known_funcs.push(String::from_str("add"));
        known_funcs.push(String::from_str("next"));
        known_funcs.push(String::from_str("nop"));
        known_funcs.push(String::from_str("print"));
        known_funcs.push(String::from_str("$"));
        proof {
            reveal_strlit("add");
            reveal_strlit("next");
            reveal_strlit("nop");
            reveal_strlit("print");
            reveal_strlit("$");
            let v = known_funcs@;
            assert(v[0]@ == "add"@);
            assert(v[1]@ == "next"@);
            assert(v[2]@ == "nop"@);
            assert(v[3]@ == "print"@);
            assert(v[4]@ == "$"@);
            assert(names_set(v) =~= initial_funcs());
            assert("add"@[0] != "nop"@[0]);
            assert forall|i: int, j: int| 0 <= i < j < v.len() implies #[trigger] v[i]@ != #[trigger] v[j]@ by {
                if i == 0 && j == 2 {
                    assert(v[i]@[0] != v[j]@[0]);
                }
            }
        }
        let p = Parser { tokens, current: 0, known_funcs };
        Ok(p)
    }

    /// Parses the whole expression, as [`parse_tokens`] says.
    pub fn parse(&mut self) -> (res: Result<Expr, String>)
        ensures
            final(self).tokens() == old(self).tokens(),
            (final(self).state(), result_view(res)) == parse_tokens(old(self).tokens(), old(self).state()),
            res is Ok && old(self).tokens().len() > 0 ==> final(self).state().pos == final(self).tokens().len(),
    {
        if self.tokens.len() == 0 {
            return Ok(Expr::Number(String::from_str("NaN")));
        }
        let e = match self.expression() {
            Ok(e) => e,
            Err(m) => return Err(m),
        };
        if !self.is_at_end() {
            return Err(String::from_str("Unexpected tokens at the end of the expression"));
        }
        proof {
            use_type_invariant(&*self);
        }
        Ok(e)
    }

    /// A whole expression: a comma sequence.
    fn expression(&mut self) -> (res: Result<Expr, String>)
        ensures
            Self::follows(*old(self), *final(self), res, parse_comma(old(self).tokens(), old(self).state())),
        decreases old(self).tokens@.len() - old(self).current, 28int,
    {
        self.comma()
    }

    /// A comma-separated sequence of assignments, as [`parse_comma`] says.
    fn comma(&mut self) -> (res: Result<Expr, String>)
        ensures
            Self::follows(*old(self), *final(self), res, parse_comma(old(self).tokens(), old(self).state())),
        decreases old(self).tokens@.len() - old(self).current, 27int,
    {
        let ghost t = self.tokens();
        let ghost st0 = self.state();
        let mut expr = match self.assignment() {
            Ok(e) => e,
            Err(m) => return Err(m),
        };
        loop
            invariant_except_break
                self.tokens@ == old(self).tokens@,
                t == self.tokens(),
                st0 == old(self).state(),
                advanced(t, st0, self.state()),
                parse_comma(t, st0) == parse_comma_rest(t, self.state(), expr@),
            ensures
                self.tokens@ == old(self).tokens@,
                advanced(t, st0, self.state()),
                parse_comma(t, st0) == (self.state(), Ok::<ExprView, Seq<char>>(expr@)),
            decreases t.len() - self.current,
        {
            let ghost st = self.state();
            if !self.next_is_comma() {
                break;
            }
            self.advance();
            // Consecutive commas count as one.
            let ghost run_start = self.current as int;
            while self.next_is_comma()
                invariant
                    self.tokens@ == old(self).tokens@,
                    t == self.tokens(),
                    self.state().funcs == st.funcs,
                    run_start == st.pos + 1,
                    run_start <= self.current <= t.len(),
                    forall|k: int| run_start <= k < self.current ==> #[trigger] t[k] is Comma,
                decreases t.len() - self.current,
            {
                self.advance();
            }
            proof {
                lemma_run_len_exact(t, run_start, self.current as int, |k: TokenView| k is Comma);
            }
            if self.is_at_end() || self.next_is_rparen() {
                break;
            }
            let right = match self.assignment() {
                Ok(e) => e,
                Err(m) => return Err(m),
            };
            expr = Expr::Binary { op: BinaryOp::Comma, left: Box::new(expr), right: Box::new(right) };
        }
        Ok(expr)
    }

    /// An assignment or an expression of the `||` level, as [`parse_assignment`] says.
    fn assignment(&mut self) -> (res: Result<Expr, String>)
        ensures
            Self::follows(*old(self), *final(self), res, parse_assignment(old(self).tokens(), old(self).state())),
        decreases old(self).tokens@.len() - old(self).current, 25int,
    {
        let expr = match self.binary(LOGICAL_OR) {
            Ok(e) => e,
            Err(m) => return Err(m),
        };
        if self.next_is_assign() {
            self.advance();
            let value = match self.assignment() {
                Ok(v) => v,
                Err(m) => return Err(m),
            };
            if !matches!(expr, Expr::Variable(_)) {
                return Err(String::from_str("The left side of an assignment must be a variable"));
            }
            return Ok(Expr::Binary { op: BinaryOp::Assign, left: Box::new(expr), right: Box::new(value) });
        }
        Ok(expr)
    }

    /// An operand of the operators of precedence level `level`.
    fn operand(&mut self, level: u8) -> (res: Result<Expr, String>)
        ensures
            Self::follows(*old(self), *final(self), res, parse_operand(old(self).tokens(), old(self).state(), level as nat)),
        decreases old(self).tokens@.len() - old(self).current, 2 * level + 3,
    {
        if level <= FACTOR {
            self.power()
        } else {
            self.binary(level - 1)
        }
    }

    /// A left-associative chain of the operators of precedence level `level`: this one
    /// function reads `||`, `&&`, `|`, `^`, `&`, `== !=`, `< > <= >=`, `<< >>`, `+ -` and
    /// `* / %`, each at its level.
    fn binary(&mut self, level: u8) -> (res: Result<Expr, String>)
        ensures
            Self::follows(*old(self), *final(self), res, parse_binary(old(self).tokens(), old(self).state(), level as nat)),
        decreases old(self).tokens@.len() - old(self).current, 2 * level + 4,
    {
        let ghost t = self.tokens();
        let ghost st0 = self.state();
        let mut expr = match self.operand(level) {
            Ok(e) => e,
            Err(m) => return Err(m),
        };
        loop
            invariant_except_break
                self.tokens@ == old(self).tokens@,
                t == self.tokens(),
                st0 == old(self).state(),
                advanced(t, st0, self.state()),
                parse_binary(t, st0, level as nat) == parse_binary_rest(t, self.state(), level as nat, expr@),
            ensures
                self.tokens@ == old(self).tokens@,
                advanced(t, st0, self.state()),
                parse_binary(t, st0, level as nat) == (self.state(), Ok::<ExprView, Seq<char>>(expr@)),
            decreases t.len() - self.current,
        {
            let op = match self.peek() {
                Some(tok) => binary_op_of(level, tok),
                None => None,
            };
            let op = match op {
                Some(op) => op,
                None => break,
            };
            self.advance();
            let right = match self.operand(level) {
                Ok(e) => e,
                Err(m) => return Err(m),
            };
            expr = Expr::Binary { op, left: Box::new(expr), right: Box::new(right) };
        }
        Ok(expr)
    }

    /// Exponentiation, grouped to the right, as [`parse_power`] says.
    fn power(&mut self) -> (res: Result<Expr, String>)
        ensures
            Self::follows(*old(self), *final(self), res, parse_power(old(self).tokens(), old(self).state())),
        decreases old(self).tokens@.len() - old(self).current, 2int,
    {
        let expr = match self.unary() {
            Ok(e) => e,
            Err(m) => return Err(m),
        };
        if self.next_is_power() {
            self.advance();
            let right = match self.power() {
                Ok(e) => e,
                Err(m) => return Err(m),
            };
            return Ok(Expr::Binary { op: BinaryOp::Pow, left: Box::new(expr), right: Box::new(right) });
        }
        Ok(expr)
    }

    /// Prefix operators, as [`parse_unary`] says.
    fn unary(&mut self) -> (res: Result<Expr, String>)
        ensures
            Self::follows(*old(self), *final(self), res, parse_unary(old(self).tokens(), old(self).state())),
        decreases old(self).tokens@.len() - old(self).current, 1int,
    {
        let op = match self.peek() {
            Some(Token::Minus) => Some(UnaryOp::Neg),
            Some(Token::LogNot) => Some(UnaryOp::Not),
            Some(Token::BitXor) => Some(UnaryOp::BitNot),
            _ => None,
        };
        if let Some(op) = op {
            self.advance();
            let operand = match self.unary() {
                Ok(e) => e,
                Err(m) => return Err(m),
            };
            return Ok(Expr::Unary { op, operand: Box::new(operand) });
        }
        self.primary()
    }

    /// A number, a name, a call or a parenthesized expression, as [`parse_primary`] says.
    fn primary(&mut self) -> (res: Result<Expr, String>)
        ensures
            Self::follows(*old(self), *final(self), res, parse_primary(old(self).tokens(), old(self).state())),
        decreases old(self).tokens@.len() - old(self).current, 0int,
    {
        if self.is_at_end() {
            return Err(String::from_str("Unexpected end of expression. Expected a number or variable."));
        }
        let ghost t = self.tokens();
        let head = self.head();
        self.advance();
        match head {
            Head::Number(n) => Ok(Expr::Number(n)),
            Head::Name(name) => {
                if !self.next_is_lparen() {
                    return Ok(Expr::Variable(name));
                }
                self.advance();
                let ghost st2 = self.state();
                let mut args: Vec<Expr> = Vec::new();
                if !self.next_is_rparen() {
                    #[verifier::loop_isolation(false)]
                    loop
                        invariant
                            self.tokens@ == old(self).tokens@,
                            t == self.tokens(),
                            old(self).current + 2 <= st2.pos <= self.current <= t.len(),
                            parse_args(t, st2, seq![]) == parse_args(t, self.state(), exprs_view(args@)),
                        decreases t.len() - self.current,
                    {
                        let ghost st = self.state();
                        let ghost before = args@;
                        let arg = match self.assignment() {
                            Ok(e) => e,
                            Err(m) => {
                                assert(parse_args(t, st, exprs_view(before)) == (self.state(), Err::<Seq<ExprView>, Seq<char>>(m@)));
                                assert(parse_args(t, st2, seq![]) == (self.state(), Err::<Seq<ExprView>, Seq<char>>(m@)));
                                return Err(m);
                            },
                        };
                        args.push(arg);
                        proof {
                            lemma_exprs_view_push(before, arg);
                        }
                        if self.next_is_comma() {
                            self.advance();
                        } else {
                            break;
                        }
                    }
                }
                if !self.next_is_rparen() {
                    return Err(String::from_str("Expected ')' after function arguments."));
                }
                self.advance();
                self.finish_call(name, args)
            },
            Head::Open => {
                let expr = match self.expression() {
                    Ok(e) => e,
                    Err(m) => return Err(m),
                };
                if !self.next_is_rparen() {
                    return Err(String::from_str("Expected ')' after expression."));
                }
                self.advance();
                Ok(expr)
            },
            Head::Other(m) => Err(m),
        }
    }

    /// Checks a call once its `)` is read, and registers the name a `$` macro defines.
    fn finish_call(&mut self, name: String, args: Vec<Expr>) -> (res: Result<Expr, String>)
        ensures
            final(self).tokens@ == old(self).tokens@,
            final(self).current == old(self).current,
            (final(self).state(), result_view(res)) == finish_call(old(self).state(), name@, exprs_view(args@)),
    {
        proof {
            lemma_exprs_view_index(args@);
        }
        let dollar = String::from_str("$");
        if name == dollar {
            if args.len() == 0 {
                return Err(String::from_str("$ requires at least 1 argument"));
            }
            let macro_name = match &args[0] {
                Expr::Variable(m) => m.clone(),
                _ => return Err(String::from_str("First argument of $ must be an identifier")),
            };
            self.register(macro_name);
            Ok(Expr::FunctionCall { name, args })
        } else if !self.knows(&name) {
            let mut msg = String::from_str("Unknown function at parse time: ");
            msg.append(name.as_str());
            Err(msg)
        } else {
            Ok(Expr::FunctionCall { name, args })
        }
    }

    /// Classifies the next token for [`Self::primary`].
    fn head(&self) -> (h: Head)
        requires
            self.current < self.tokens@.len(),
        ensures
            match self.tokens()[self.current as int] {
                TokenView::Number(n) => h matches Head::Number(s) && s@ == n,
                TokenView::Identifier(n) => h matches Head::Name(s) && s@ == n,
                TokenView::LParen => h is Open,
                tok => h matches Head::Other(m) && m@ == msg_found(tok),
            },
    {
        match &self.tokens[self.current] {
            Token::Number(n) => Head::Number(n.clone()),
            Token::Identifier(s) => Head::Name(s.clone()),
            Token::LParen => Head::Open,
            tok => {
                let mut msg = String::from_str("Expected a number, variable, or '(', but found ");
                let name = token_name_exec(tok);
                msg.append(name.as_str());
                Head::Other(msg)
            },
        }
    }

    /// Whether `name` is a known function.
    fn knows(&self, name: &String) -> (r: bool)
        ensures
            r == self.state().funcs.contains(name@),
    {
        let mut i: usize = 0;
        while i < self.known_funcs.len()
            invariant
                i <= self.known_funcs@.len(),
                forall|k: int| 0 <= k < i ==> self.known_funcs@[k]@ != name@,
            decreases self.known_funcs@.len() - i,
        {
            if self.known_funcs[i] == *name {
                return true;
            }
            i = i + 1;
        }
        false
    }

    /// Makes `name` a known function.
    fn register(&mut self, name: String)
        ensures
            final(self).tokens@ == old(self).tokens@,
            final(self).current == old(self).current,
            final(self).state().funcs == old(self).state().funcs.insert(name@),
    {
        proof {
            use_type_invariant(&*self);
        }
        if !self.knows(&name) {
            let ghost before = self.known_funcs@;
            let ghost n = name@;
            let mut funcs: Vec<String> = Vec::new();
            std::mem::swap(&mut funcs, &mut self.known_funcs);
            funcs.push(name);
            self.known_funcs = funcs;
            proof {
                assert(names_set(self.known_funcs@) =~= names_set(before).insert(n)) by {
                    assert(self.known_funcs@[before.len() as int]@ == n);
                    assert forall|x: Seq<char>| names_set(before).contains(x) implies names_set(self.known_funcs@).contains(x) by {
                        let i = choose|i: int| 0 <= i < before.len() && before[i]@ == x;
                        assert(self.known_funcs@[i] == before[i]);
                    }
                    assert forall|x: Seq<char>| names_set(self.known_funcs@).contains(x) implies names_set(before).insert(n).contains(x) by {
                        let i = choose|i: int| 0 <= i < self.known_funcs@.len() && self.known_funcs@[i]@ == x;
                        if i < before.len() {
                            assert(before[i] == self.known_funcs@[i]);
                        }
                    }
                }
            }
        } else {
            assert(names_set(self.known_funcs@) =~= names_set(self.known_funcs@).insert(name@));
        }
    }

    // --- helpers ---

    /// The next token, if any.
    fn peek(&self) -> (r: Option<&Token>)
        ensures
            self.current < self.tokens@.len() ==> r == Some(&self.tokens@[self.current as int]),
            self.current >= self.tokens@.len() ==> r is None,
    {
        if self.current < self.tokens.len() {
            Some(&self.tokens[self.current])
        } else {
            None
        }
    }

    /// Whether the next token is `Comma`.
    fn next_is_comma(&self) -> (r: bool)
        ensures
            r == peek_is(self.tokens(), self.state(), TokenView::Comma),
    {
        matches!(self.peek(), Some(Token::Comma))
    }

    /// Whether the next token is `RParen`.
    fn next_is_rparen(&self) -> (r: bool)
        ensures
            r == peek_is(self.tokens(), self.state(), TokenView::RParen),
    {
        matches!(self.peek(), Some(Token::RParen))
    }

    /// Whether the next token is `LParen`.
    fn next_is_lparen(&self) -> (r: bool)
        ensures
            r == peek_is(self.tokens(), self.state(), TokenView::LParen),
    {
        matches!(self.peek(), Some(Token::LParen))
    }

    /// Whether the next token is `Assign`.
    fn next_is_assign(&self) -> (r: bool)
        ensures
            r == peek_is(self.tokens(), self.state(), TokenView::Assign),
    {
        matches!(self.peek(), Some(Token::Assign))
    }

    /// Whether the next token is `Power`.
    fn next_is_power(&self) -> (r: bool)
        ensures
            r == peek_is(self.tokens(), self.state(), TokenView::Power),
    {
        matches!(self.peek(), Some(Token::Power))
    }

    /// Consumes the next token, if there is one, and gives the token just passed: at the end
    /// the parser stays put and gives the last token.
    fn advance(&mut self) -> (r: &Token)
        requires
            old(self).tokens@.len() > 0,
        ensures
            final(self).tokens@ == old(self).tokens@,
            final(self).known_funcs@ == old(self).known_funcs@,
            old(self).current < old(self).tokens@.len() ==> final(self).current == old(self).current + 1,
            old(self).current >= old(self).tokens@.len() ==> final(self).current == old(self).current,
            r == &final(self).tokens@[final(self).current - 1],
    {
        proof {
            use_type_invariant(&*self);
        }
        let n = self.tokens.len();
        if self.current < n {
            self.current = self.current + 1;
        }
        &self.tokens[self.current - 1]
    }

    /// Whether every token is consumed.
    fn is_at_end(&self) -> (r: bool)
        ensures
            r == (self.current >= self.tokens@.len()),
    {
        self.current >= self.tokens.len()
    }
}

/// The binary operator that `tok` stands for at precedence level `level`, if any.
fn binary_op_of(level: u8, tok: &Token) -> (r: Option<BinaryOp>)
    ensures
        r == binary_op_at(level as nat, tok@),
{
    if level == FACTOR {
        match tok {
            Token::Star => Some(BinaryOp::Mul),
            Token::Slash => Some(BinaryOp::Div),
            Token::Percent => Some(BinaryOp::Rem),
            _ => None,
        }
    } else if level == TERM {
        match tok {
            Token::Plus => Some(BinaryOp::Add),
            Token::Minus => Some(BinaryOp::Sub),
            _ => None,
        }
    } else if level == SHIFT {
        match tok {
            Token::ShiftLeft => Some(BinaryOp::Shl),
            Token::ShiftRight => Some(BinaryOp::Shr),
            _ => None,
        }
    } else if level == RELATIONAL {
        match tok {
            Token::Less => Some(BinaryOp::Lt),
            Token::Greater => Some(BinaryOp::Gt),
            Token::LessEq => Some(BinaryOp::Le),
            Token::GreaterEq => Some(BinaryOp::Ge),
            _ => None,
        }
    } else if level == EQUALITY {
        match tok {
            Token::Eq => Some(BinaryOp::Eq),
            Token::Neq => Some(BinaryOp::Neq),
            _ => None,
        }
    } else if level == BITWISE_AND {
        if matches!(tok, Token::BitAnd) { Some(BinaryOp::BitAnd) } else { None }
    } else if level == BITWISE_XOR {
        if matches!(tok, Token::BitXor) { Some(BinaryOp::BitXor) } else { None }
    } else if level == BITWISE_OR {
        if matches!(tok, Token::BitOr) { Some(BinaryOp::BitOr) } else { None }
    } else if level == LOGICAL_AND {
        if matches!(tok, Token::LogAnd) { Some(BinaryOp::LogAnd) } else { None }
    } else if level == LOGICAL_OR {
        if matches!(tok, Token::LogOr) { Some(BinaryOp::LogOr) } else { None }
    } else {
        None
    }
}

/// The name that the derived `Debug` gives the variant of `tok`.
fn token_name_exec(tok: &Token) -> (r: String)
    ensures
        r@ == token_name(tok@),
{
    match tok {
        Token::Number(_) => String::from_str("Number"),
        Token::Identifier(_) => String::from_str("Identifier"),
        Token::Plus => String::from_str("Plus"),
        Token::Minus => String::from_str("Minus"),
        Token::Star => String::from_str("Star"),
        Token::Slash => String::from_str("Slash"),
        Token::Percent => String::from_str("Percent"),
        Token::Power => String::from_str("Power"),
        Token::ShiftLeft => String::from_str("ShiftLeft"),
        Token::ShiftRight => String::from_str("ShiftRight"),
        Token::BitAnd => String::from_str("BitAnd"),
        Token::BitOr => String::from_str("BitOr"),
        Token::BitXor => String::from_str("BitXor"),
        Token::BitNot => String::from_str("BitNot"),
        Token::Eq => String::from_str("Eq"),
        Token::Neq => String::from_str("Neq"),
        Token::Less => String::from_str("Less"),
        Token::Greater => String::from_str("Greater"),
        Token::LessEq => String::from_str("LessEq"),
        Token::GreaterEq => String::from_str("GreaterEq"),
        Token::LogAnd => String::from_str("LogAnd"),
        Token::LogOr => String::from_str("LogOr"),
        Token::LogNot => String::from_str("LogNot"),
        Token::Assign => String::from_str("Assign"),
        Token::Comma => String::from_str("Comma"),
        Token::LParen => String::from_str("LParen"),
        Token::RParen => String::from_str("RParen"),
    }
}

} // verus!
