//! The lexer: turns the text of an expression into tokens.
use vstd::prelude::*;
use crate::text::{
    is_alphabetic, is_alphanumeric, is_ascii_letter, is_digit, push_char, unicode_alphabetic,
    unicode_alphanumeric,
};

verus! {

/// A token of the expression language. A number keeps the text of its numeral, an
/// identifier its name.
#[derive(Debug, Clone, PartialEq)]
pub enum Token {
    Number(String),
    Identifier(String),
    Plus,
    Minus,
    Star,
    Slash,
    Percent,
    Power,
    ShiftLeft,
    ShiftRight,
    BitAnd,
    BitOr,
    BitXor,
    BitNot,
    Eq,
    Neq,
    Less,
    Greater,
    LessEq,
    GreaterEq,
    LogAnd,
    LogOr,
    LogNot,
    Assign,
    Comma,
    LParen,
    RParen,
}

/// The mathematical value of a [`Token`]: texts become character sequences.
pub enum TokenView {
    Number(Seq<char>),
    Identifier(Seq<char>),
    Plus,
    Minus,
    Star,
    Slash,
    Percent,
    Power,
    ShiftLeft,
    ShiftRight,
    BitAnd,
    BitOr,
    BitXor,
    BitNot,
    Eq,
    Neq,
    Less,
    Greater,
    LessEq,
    GreaterEq,
    LogAnd,
    LogOr,
    LogNot,
    Assign,
    Comma,
    LParen,
    RParen,
}

impl View for Token {
    type V = TokenView;

    open spec fn view(&self) -> TokenView {
        match self {
            Token::Number(s) => TokenView::Number(s@),
            Token::Identifier(s) => TokenView::Identifier(s@),
            Token::Plus => TokenView::Plus,
            Token::Minus => TokenView::Minus,
            Token::Star => TokenView::Star,
            Token::Slash => TokenView::Slash,
            Token::Percent => TokenView::Percent,
            Token::Power => TokenView::Power,
            Token::ShiftLeft => TokenView::ShiftLeft,
            Token::ShiftRight => TokenView::ShiftRight,
            Token::BitAnd => TokenView::BitAnd,
            Token::BitOr => TokenView::BitOr,
            Token::BitXor => TokenView::BitXor,
            Token::BitNot => TokenView::BitNot,
            Token::Eq => TokenView::Eq,
            Token::Neq => TokenView::Neq,
            Token::Less => TokenView::Less,
            Token::Greater => TokenView::Greater,
            Token::LessEq => TokenView::LessEq,
            Token::GreaterEq => TokenView::GreaterEq,
            Token::LogAnd => TokenView::LogAnd,
            Token::LogOr => TokenView::LogOr,
            Token::LogNot => TokenView::LogNot,
            Token::Assign => TokenView::Assign,
            Token::Comma => TokenView::Comma,
            Token::LParen => TokenView::LParen,
            Token::RParen => TokenView::RParen,
        }
    }
}

/// The views of a sequence of tokens.
pub open spec fn token_views(ts: Seq<Token>) -> Seq<TokenView> {
    ts.map_values(|t: Token| t@)
}

// ---------------------------------------------------------------------------
// Character classes

/// A character that a numeral is made of: a digit or a decimal point.
pub open spec fn is_numeral_char(c: char) -> bool {
    is_digit(c) || c == '.'
}

/// A character that may begin an identifier: a letter (ASCII or any other Unicode
/// alphabetic character), `_` or `$`.
pub open spec fn starts_identifier(c: char) -> bool {
    if (c as u32) < 128 {
        is_ascii_letter(c) || c == '_' || c == '$'
    } else {
        unicode_alphabetic(c)
    }
}

/// A character that may continue an identifier: a letter or digit (ASCII or any other
/// Unicode alphanumeric character), `_`, `#` or `$`.
pub open spec fn continues_identifier(c: char) -> bool {
    if (c as u32) < 128 {
        is_ascii_letter(c) || is_digit(c) || c == '_' || c == '#' || c == '$'
    } else {
        unicode_alphanumeric(c)
    }
}

/// Characters that separate tokens and are otherwise dropped.
pub open spec fn is_blank(c: char) -> bool {
    c == ' ' || c == '\t' || c == '\\'
}

/// Characters that end a statement: they act as a comma after an operand.
pub open spec fn is_line_break(c: char) -> bool {
    c == '\n' || c == '\r' || c == ';'
}

/// How many characters of `s`, from index `i` on, satisfy `p` in a row.
pub open spec fn run_len<A>(s: Seq<A>, i: int, p: spec_fn(A) -> bool) -> nat
    decreases s.len() - i,
{
    if 0 <= i < s.len() && p(s[i]) {
        1 + run_len(s, i + 1, p)
    } else {
        0
    }
}

/// A run never goes past the end of the sequence.
pub proof fn lemma_run_len_bound<A>(s: Seq<A>, i: int, p: spec_fn(A) -> bool)
    requires
        0 <= i <= s.len(),
    ensures
        i + run_len(s, i, p) <= s.len(),
    decreases s.len() - i,
{
    if i < s.len() && p(s[i]) {
        lemma_run_len_bound(s, i + 1, p);
    }
}

/// A run is exactly the stretch `[i, j)` when all of it satisfies `p` and `j` does not.
pub proof fn lemma_run_len_exact<A>(s: Seq<A>, i: int, j: int, p: spec_fn(A) -> bool)
    requires
        0 <= i <= j <= s.len(),
        forall|k: int| i <= k < j ==> #[trigger] p(s[k]),
        j == s.len() || !p(s[j]),
    ensures
        run_len(s, i, p) == j - i,
    decreases j - i,
{
    if i < j {
        lemma_run_len_exact(s, i + 1, j, p);
    }
}

/// A numeral that `f32::from_str` accepts. Its documented grammar, restricted to digits and
/// dots, is `Digit+ | Digit+ '.' Digit* | Digit* '.' Digit+`: at most one dot and at least
/// one digit.
pub open spec fn is_decimal_numeral(t: Seq<char>) -> bool {
    &&& forall|k: int| 0 <= k < t.len() ==> is_numeral_char(#[trigger] t[k])
    &&& forall|a: int, b: int| 0 <= a < b < t.len() ==> !(#[trigger] t[a] == '.' && #[trigger] t[b] == '.')
    &&& exists|k: int| 0 <= k < t.len() && is_digit(#[trigger] t[k])
}

// ---------------------------------------------------------------------------
// One scanning step

/// What the lexer finds at one position of the text.
pub enum Lexeme {
    /// A blank, skipped.
    Blank,
    /// A line break or semicolon.
    LineBreak,
    /// A token.
    Tok(TokenView),
    /// An error, with its message.
    Invalid(Seq<char>),
}

/// Whether the character after index `i` exists and is `c`.
pub open spec fn next_is(s: Seq<char>, i: int, c: char) -> bool {
    i + 1 < s.len() && s[i + 1] == c
}

/// The message for a run of digits and dots that is no numeral.
pub open spec fn invalid_number_message(t: Seq<char>) -> Seq<char> {
    "Invalid number format: "@ + t
}

/// The message for a character that begins no token.
pub open spec fn unexpected_char_message(c: char) -> Seq<char> {
    "Unexpected character: "@ + seq![c]
}

/// The lexeme at index `i` of `s` (`i < s.len()`), and how many characters it spans.
/// Operators are read greedily: `==`, `<=`, `<<`, `>=`, `>>`, `!=`, `&&`, `||` and `**` are
/// single tokens. A numeral or identifier extends as far as its characters go. An unexpected
/// character spans nothing: the lexer stops in front of it.
pub open spec fn scan(s: Seq<char>, i: int) -> (Lexeme, nat) {
    let c = s[i];
    if is_blank(c) {
        (Lexeme::Blank, 1)
    } else if is_line_break(c) {
        (Lexeme::LineBreak, 1)
    } else if c == '=' {
        if next_is(s, i, '=') { (Lexeme::Tok(TokenView::Eq), 2) } else { (Lexeme::Tok(TokenView::Assign), 1) }
    } else if c == '<' {
        if next_is(s, i, '=') {
            (Lexeme::Tok(TokenView::LessEq), 2)
        } else if next_is(s, i, '<') {
            (Lexeme::Tok(TokenView::ShiftLeft), 2)
        } else {
            (Lexeme::Tok(TokenView::Less), 1)
        }
    } else if c == '>' {
        if next_is(s, i, '=') {
            (Lexeme::Tok(TokenView::GreaterEq), 2)
        } else if next_is(s, i, '>') {
            (Lexeme::Tok(TokenView::ShiftRight), 2)
        } else {
            (Lexeme::Tok(TokenView::Greater), 1)
        }
    } else if c == '!' {
        if next_is(s, i, '=') { (Lexeme::Tok(TokenView::Neq), 2) } else { (Lexeme::Tok(TokenView::LogNot), 1) }
    } else if c == '&' {
        if next_is(s, i, '&') { (Lexeme::Tok(TokenView::LogAnd), 2) } else { (Lexeme::Tok(TokenView::BitAnd), 1) }
    } else if c == '|' {
        if next_is(s, i, '|') { (Lexeme::Tok(TokenView::LogOr), 2) } else { (Lexeme::Tok(TokenView::BitOr), 1) }
    } else if c == '*' {
        if next_is(s, i, '*') { (Lexeme::Tok(TokenView::Power), 2) } else { (Lexeme::Tok(TokenView::Star), 1) }
    } else if c == '+' {
        (Lexeme::Tok(TokenView::Plus), 1)
    } else if c == '-' {
        (Lexeme::Tok(TokenView::Minus), 1)
    } else if c == '/' {
        (Lexeme::Tok(TokenView::Slash), 1)
    } else if c == '%' {
        (Lexeme::Tok(TokenView::Percent), 1)
    } else if c == '^' {
        (Lexeme::Tok(TokenView::BitXor), 1)
    } else if c == '(' {
        (Lexeme::Tok(TokenView::LParen), 1)
    } else if c == ')' {
        (Lexeme::Tok(TokenView::RParen), 1)
    } else if c == ',' {
        (Lexeme::Tok(TokenView::Comma), 1)
    } else if is_numeral_char(c) {
        let w = 1 + run_len(s, i + 1, |x: char| is_numeral_char(x));
        let t = s.subrange(i, i + w);
        if is_decimal_numeral(t) {
            (Lexeme::Tok(TokenView::Number(t)), w)
        } else {
            (Lexeme::Invalid(invalid_number_message(t)), w)
        }
    } else if starts_identifier(c) {
        let w = 1 + run_len(s, i + 1, |x: char| continues_identifier(x));
        (Lexeme::Tok(TokenView::Identifier(s.subrange(i, i + w))), w)
    } else {
        (Lexeme::Invalid(unexpected_char_message(c)), 0)
    }
}

/// Whether the last token is an operand end (a number, a name or a closing parenthesis),
/// after which a line break acts as a comma.
pub open spec fn ends_operand(toks: Seq<TokenView>) -> bool {
    toks.len() > 0 && (toks.last() is Number || toks.last() is Identifier || toks.last() is RParen)
}

/// The tokens that `toks` grows into when lexing goes on from index `i` of `s`, or the
/// error that stops it, together with the index where lexing stopped.
pub open spec fn lex_from(s: Seq<char>, i: int, toks: Seq<TokenView>) -> (
    Result<Seq<TokenView>, Seq<char>>,
    int,
)
    decreases s.len() - i,
{
    if i < 0 || i >= s.len() {
        (Ok(toks), i)
    } else {
        let (lx, w) = scan(s, i);
        match lx {
            Lexeme::Blank => lex_from(s, i + 1, toks),
            Lexeme::LineBreak => lex_from(
                s,
                i + 1,
                if ends_operand(toks) { toks.push(TokenView::Comma) } else { toks },
            ),
            Lexeme::Tok(t) => {
                proof {
                    lemma_run_len_bound(s, i + 1, |x: char| is_numeral_char(x));
                    lemma_run_len_bound(s, i + 1, |x: char| continues_identifier(x));
                }
                lex_from(s, i + w, toks.push(t))
            },
            Lexeme::Invalid(m) => (Err(m), i + w),
        }
    }
}

/// The tokens of the text `s`, or the message of the first lexical error in it.
pub open spec fn lex(s: Seq<char>) -> Result<Seq<TokenView>, Seq<char>> {
    lex_from(s, 0, seq![]).0
}

// ---------------------------------------------------------------------------
// The executable lexer

/// A lexer over the characters of an expression.
pub struct Lexer {
    chars: Vec<char>,
    pos: usize,
}

/// What the lexer found at a position: the executable counterpart of [`Lexeme`].
enum Scanned {
    Blank,
    LineBreak,
    Tok(Token),
    Invalid(String),
}

impl View for Scanned {
    type V = Lexeme;

    closed spec fn view(&self) -> Lexeme {
        match self {
            Scanned::Blank => Lexeme::Blank,
            Scanned::LineBreak => Lexeme::LineBreak,
            Scanned::Tok(t) => Lexeme::Tok(t@),
            Scanned::Invalid(m) => Lexeme::Invalid(m@),
        }
    }
}

impl Lexer {
    /// The lexer never stands past the end of its text.
    #[verifier::type_invariant]
    closed spec fn inv(&self) -> bool {
        self.pos <= self.chars@.len()
    }

    /// The whole text the lexer reads.
    pub closed spec fn text(&self) -> Seq<char> {
        self.chars@
    }

    /// The index of the next character to read.
    pub closed spec fn position(&self) -> int {
        self.pos as int
    }

    /// A lexer at the start of `input`.
    pub fn new(input: &str) -> (lexer: Lexer)
        ensures
            lexer.text() == input@,
            lexer.position() == 0,
    {
        broadcast use vstd::string::group_string_axioms;

        let mut chars: Vec<char> = Vec::new();
        for c in it: input.chars()
            invariant
                chars@ == it.seq().take(it.index() as int),
                it.seq() == input@,
        {
            chars.push(c);
        }
        Lexer { chars, pos: 0 }
    }

    /// Whether the character after index `i` exists and is `c`.
    fn next_is(&self, i: usize, c: char) -> (r: bool)
        requires
            i < self.chars@.len(),
        ensures
            r == next_is(self.chars@, i as int, c),
    {
        i < self.chars.len() - 1 && self.chars[i + 1] == c
    }

    /// Reads the numeral that starts at index `i`.
    fn scan_number(&self, i: usize) -> (r: (Scanned, usize))
        requires
            i < self.chars@.len(),
            is_numeral_char(self.chars@[i as int]),
        ensures
            r.0@ == scan(self.chars@, i as int).0,
            r.1 == scan(self.chars@, i as int).1,
    {
        let ghost s = self.chars@;
        let n = self.chars.len();
        let mut text = String::new();
        let mut j = i;
        let mut seen_dot = false;
        let mut two_dots = false;
        let mut seen_digit = false;
        let ghost mut dot_at: int = 0;
        let ghost mut pair: (int, int) = (0, 0);
        let ghost mut digit_at: int = 0;
        while j < n && (is_digit_exec(self.chars[j]) || self.chars[j] == '.')
            invariant
                s == self.chars@,
                n == s.len(),
                i <= j <= n,
                text@ == s.subrange(i as int, j as int),
                forall|k: int| i <= k < j ==> is_numeral_char(#[trigger] s[k]),
                seen_dot ==> i <= dot_at < j && s[dot_at] == '.',
                !seen_dot ==> forall|k: int| i <= k < j ==> #[trigger] s[k] != '.',
                two_dots ==> i <= pair.0 < pair.1 < j && s[pair.0] == '.' && s[pair.1] == '.',
                !two_dots ==> forall|a: int, b: int|
                    i <= a < b < j ==> !(#[trigger] s[a] == '.' && #[trigger] s[b] == '.'),
                seen_digit ==> i <= digit_at < j && is_digit(s[digit_at]),
                !seen_digit ==> forall|k: int| i <= k < j ==> !is_digit(#[trigger] s[k]),
            decreases n - j,
        {
            let c = self.chars[j];
            if c == '.' {
                if seen_dot {
                    if !two_dots {
                        proof {
                            pair = (dot_at, j as int);
                        }
                    }
                    two_dots = true;
                } else {
                    proof {
                        dot_at = j as int;
                    }
                    seen_dot = true;
                }
            } else {
                if !seen_digit {
                    proof {
                        digit_at = j as int;
                    }
                }
                seen_digit = true;
            }
            push_char(&mut text, c);
            j = j + 1;
            proof {
                assert(text@ =~= s.subrange(i as int, j as int));
            }
        }
        proof {
            lemma_run_len_exact(s, i + 1, j as int, |x: char| is_numeral_char(x));
        }
        let ghost t = s.subrange(i as int, j as int);
        assert(t.len() == j - i);
        if !two_dots && seen_digit {
            assert(is_decimal_numeral(t)) by {
                assert(is_digit(t[digit_at - i]));
                assert forall|a: int, b: int| 0 <= a < b < t.len() implies !(#[trigger] t[a] == '.' && #[trigger] t[b] == '.') by {
                    assert(t[a] == s[a + i] && t[b] == s[b + i]);
                }
                assert forall|k: int| 0 <= k < t.len() implies is_numeral_char(#[trigger] t[k]) by {
                    assert(t[k] == s[k + i]);
                }
            }
            (Scanned::Tok(Token::Number(text)), j - i)
        } else {
            assert(!is_decimal_numeral(t)) by {
                if two_dots {
                    assert(t[pair.0 - i] == '.' && t[pair.1 - i] == '.');
                } else {
                    assert forall|k: int| 0 <= k < t.len() implies !is_digit(#[trigger] t[k]) by {
                        assert(t[k] == s[k + i]);
                    }
                }
            }
            let mut msg = String::from_str("Invalid number format: ");
            msg.append(text.as_str());
            (Scanned::Invalid(msg), j - i)
        }
    }

    /// Reads the identifier that starts at index `i`.
    fn scan_identifier(&self, i: usize) -> (r: (Scanned, usize))
        requires
            i < self.chars@.len(),
            starts_identifier(self.chars@[i as int]),
        ensures
            r.0@ == Lexeme::Tok(TokenView::Identifier(self.chars@.subrange(i as int, i + r.1))),
            r.1 == 1 + run_len(self.chars@, i + 1, |x: char| continues_identifier(x)),
    {
        let ghost s = self.chars@;
        let n = self.chars.len();
        let mut text = String::new();
        let mut j = i;
        while j < n && (is_alphanumeric(self.chars[j]) || self.chars[j] == '_'
            || self.chars[j] == '#' || self.chars[j] == '$')
            invariant
                s == self.chars@,
                n == s.len(),
                i <= j <= n,
                text@ == s.subrange(i as int, j as int),
                forall|k: int| i <= k < j ==> continues_identifier(#[trigger] s[k]),
            decreases n - j,
        {
            push_char(&mut text, self.chars[j]);
            j = j + 1;
            proof {
                assert(text@ =~= s.subrange(i as int, j as int));
            }
        }
        proof {
            lemma_run_len_exact(s, i + 1, j as int, |x: char| continues_identifier(x));
        }
        assert(j > i);
        (Scanned::Tok(Token::Identifier(text)), j - i)
    }
}

impl Lexer {
    /// Reads the lexeme at index `i`.
    fn scan_at(&self, i: usize) -> (r: (Scanned, usize))
        requires
            i < self.chars@.len(),
        ensures
            r.0@ == scan(self.chars@, i as int).0,
            r.1 == scan(self.chars@, i as int).1,
    {
        let c = self.chars[i];
        if c == ' ' || c == '\t' || c == '\\' {
            (Scanned::Blank, 1)
        } else if c == '\n' || c == '\r' || c == ';' {
            (Scanned::LineBreak, 1)
        } else if c == '=' {
            if self.next_is(i, '=') { (Scanned::Tok(Token::Eq), 2) } else { (Scanned::Tok(Token::Assign), 1) }
        } else if c == '<' {
            if self.next_is(i, '=') {
                (Scanned::Tok(Token::LessEq), 2)
            } else if self.next_is(i, '<') {
                (Scanned::Tok(Token::ShiftLeft), 2)
            } else {
                (Scanned::Tok(Token::Less), 1)
            }
        } else if c == '>' {
            if self.next_is(i, '=') {
                (Scanned::Tok(Token::GreaterEq), 2)
            } else if self.next_is(i, '>') {
                (Scanned::Tok(Token::ShiftRight), 2)
            } else {
                (Scanned::Tok(Token::Greater), 1)
            }
        } else if c == '!' {
            if self.next_is(i, '=') { (Scanned::Tok(Token::Neq), 2) } else { (Scanned::Tok(Token::LogNot), 1) }
        } else if c == '&' {
            if self.next_is(i, '&') { (Scanned::Tok(Token::LogAnd), 2) } else { (Scanned::Tok(Token::BitAnd), 1) }
        } else if c == '|' {
            if self.next_is(i, '|') { (Scanned::Tok(Token::LogOr), 2) } else { (Scanned::Tok(Token::BitOr), 1) }
        } else if c == '*' {
            if self.next_is(i, '*') { (Scanned::Tok(Token::Power), 2) } else { (Scanned::Tok(Token::Star), 1) }
        } else if c == '+' {
            (Scanned::Tok(Token::Plus), 1)
        } else if c == '-' {
            (Scanned::Tok(Token::Minus), 1)
        } else if c == '/' {
            (Scanned::Tok(Token::Slash), 1)
        } else if c == '%' {
            (Scanned::Tok(Token::Percent), 1)
        } else if c == '^' {
            (Scanned::Tok(Token::BitXor), 1)
        } else if c == '(' {
            (Scanned::Tok(Token::LParen), 1)
        } else if c == ')' {
            (Scanned::Tok(Token::RParen), 1)
        } else if c == ',' {
            (Scanned::Tok(Token::Comma), 1)
        } else if is_digit_exec(c) || c == '.' {
            self.scan_number(i)
        } else if is_alphabetic(c) || c == '_' || c == '$' {
            self.scan_identifier(i)
        } else {
            let mut msg = String::from_str("Unexpected character: ");
            push_char(&mut msg, c);
            assert(msg@ =~= unexpected_char_message(c));
            (Scanned::Invalid(msg), 0)
        }
    }

    /// Reads the rest of the text into tokens. On success the lexer has read the whole text
    /// and the result is [`lex_from`] from its position; on a lexical error the result is
    /// that error's message and the lexer stops where [`lex_from`] says.
    pub fn tokenize(&mut self) -> (res: Result<Vec<Token>, String>)
        ensures
            final(self).text() == old(self).text(),
            final(self).position() == lex_from(old(self).text(), old(self).position(), seq![]).1,
            res is Ok ==> final(self).position() == final(self).text().len(),
            match lex_from(old(self).text(), old(self).position(), seq![]).0 {
                Ok(ts) => res matches Ok(v) && token_views(v@) == ts,
                Err(m) => res matches Err(e) && e@ == m,
            },
    {
        proof {
            use_type_invariant(&*self);
            lemma_lex_from_ok_at_end(self.chars@, self.pos as int, seq![]);
        }
        let mut tokens: Vec<Token> = Vec::new();
        let n = self.chars.len();
        let ghost text = self.chars@;
        let ghost start = self.pos as int;
        assert(token_views(tokens@) =~= seq![]);
        while self.pos < n
            invariant
                self.chars@ == text,
                text == old(self).chars@,
                start == old(self).pos,
                n == text.len(),
                lex_from(text, self.pos as int, token_views(tokens@)) == lex_from(text, start, seq![]),
            decreases n - self.pos,
        {
            let i = self.pos;
            proof {
                lemma_scan_width(text, i as int);
            }
            let (lx, w) = self.scan_at(i);
            let ghost tv = token_views(tokens@);
            match lx {
                Scanned::Blank => {
                    self.pos = i + 1;
                    assert(lex_from(text, i as int, tv) == lex_from(text, i + 1, tv));
                },
                Scanned::LineBreak => {
                    let ghost before = tokens@;
                    if ends_operand_exec(&tokens) {
                        tokens.push(Token::Comma);
                        proof {
                            assert(token_views(tokens@) =~= tv.push(TokenView::Comma));
                        }
                    }
                    self.pos = i + 1;
                    assert(lex_from(text, i as int, tv) == lex_from(text, i + 1, token_views(tokens@)));
                },
                Scanned::Tok(t) => {
                    let ghost before = tokens@;
                    tokens.push(t);
                    proof {
                        assert(token_views(tokens@) =~= token_views(before).push(t@));
                    }
                    self.pos = i + w;
                    assert(lex_from(text, i as int, tv) == lex_from(text, i + w, token_views(tokens@)));
                },
                Scanned::Invalid(m) => {
                    self.pos = i + w;
                    return Err(m);
                },
            }
        }
        Ok(tokens)
    }
}

/// A lexeme that is not an error spans at least one character, and none spans past the end.
pub proof fn lemma_scan_width(s: Seq<char>, i: int)
    requires
        0 <= i < s.len(),
    ensures
        i + scan(s, i).1 <= s.len(),
        !(scan(s, i).0 is Invalid) ==> scan(s, i).1 >= 1,
{
    lemma_run_len_bound(s, i + 1, |x: char| is_numeral_char(x));
    lemma_run_len_bound(s, i + 1, |x: char| continues_identifier(x));
}

/// Whether the last of `tokens` ends an operand.
fn ends_operand_exec(tokens: &Vec<Token>) -> (r: bool)
    ensures
        r == ends_operand(token_views(tokens@)),
{
    if tokens.len() == 0 {
        false
    } else {
        match &tokens[tokens.len() - 1] {
            Token::Number(_) | Token::Identifier(_) | Token::RParen => true,
            _ => false,
        }
    }
}

/// A successful lexing reads to the end of the text.
pub proof fn lemma_lex_from_ok_at_end(s: Seq<char>, i: int, acc: Seq<TokenView>)
    requires
        0 <= i <= s.len(),
    ensures
        lex_from(s, i, acc).0 is Ok ==> lex_from(s, i, acc).1 == s.len(),
        i <= lex_from(s, i, acc).1 <= s.len(),
    decreases s.len() - i,
{
    if i < s.len() {
        lemma_scan_width(s, i);
        let (lx, w) = scan(s, i);
        match lx {
            Lexeme::Blank => lemma_lex_from_ok_at_end(s, i + 1, acc),
            Lexeme::LineBreak => lemma_lex_from_ok_at_end(
                s,
                i + 1,
                if ends_operand(acc) { acc.push(TokenView::Comma) } else { acc },
            ),
            Lexeme::Tok(t) => lemma_lex_from_ok_at_end(s, i + w, acc.push(t)),
            Lexeme::Invalid(_) => {},
        }
    }
}

/// Whether `c` is an ASCII digit.
fn is_digit_exec(c: char) -> (r: bool)
    ensures
        r == is_digit(c),
{
    '0' <= c && c <= '9'
}

} // verus!
