//! Laws of the lexer: what its tokens are like, and how lexing a text relates to lexing its
//! parts.
use vstd::prelude::*;
use crate::lexer::{
    Lexeme, TokenView, continues_identifier, ends_operand, is_blank, is_decimal_numeral,
    is_line_break, is_numeral_char, lemma_run_len_bound, lemma_run_len_exact, lemma_scan_width, lex, lex_from,
    run_len, scan, starts_identifier,
};

verus! {

/// A token as the lexer makes it: a number is a numeral that `f32::from_str` accepts, and an
/// identifier is an identifier start followed by identifier characters.
pub open spec fn token_well_formed(t: TokenView) -> bool {
    match t {
        TokenView::Number(n) => is_decimal_numeral(n),
        TokenView::Identifier(n) => {
            &&& n.len() > 0
            &&& starts_identifier(n[0])
            &&& forall|k: int| 1 <= k < n.len() ==> continues_identifier(#[trigger] n[k])
        },
        _ => true,
    }
}

/// Every token in `ts` is well formed.
pub open spec fn tokens_well_formed(ts: Seq<TokenView>) -> bool {
    forall|k: int| 0 <= k < ts.len() ==> token_well_formed(#[trigger] ts[k])
}

/// A character at which no lexeme that begins before it can continue.
pub open spec fn is_delimiter(c: char) -> bool {
    (c as u32) < 128 && !is_numeral_char(c) && !continues_identifier(c) && c != '=' && c != '<'
        && c != '>' && c != '&' && c != '|' && c != '*'
}

proof fn lemma_identifier_token_well_formed(s: Seq<char>, i: int)
    requires
        0 <= i < s.len(),
        scan(s, i).0 matches Lexeme::Tok(t) && t is Identifier,
    ensures
        scan(s, i).0 matches Lexeme::Tok(t) && token_well_formed(t),
{
    let w = scan(s, i).1;
    let p = |x: char| continues_identifier(x);
    lemma_run_len_bound(s, i + 1, p);
    lemma_run_prefix(s, i + 1, p);
    let n = s.subrange(i, i + w);
    assert forall|k: int| 1 <= k < n.len() implies continues_identifier(#[trigger] n[k]) by {
        assert(n[k] == s[i + k]);
        assert(p(s[i + k]));
    }
}

/// Every character of a run satisfies the run's predicate.
proof fn lemma_run_prefix<A>(s: Seq<A>, i: int, p: spec_fn(A) -> bool)
    requires
        0 <= i,
    ensures
        forall|k: int| i <= k < i + run_len(s, i, p) ==> #[trigger] p(s[k]),
    decreases s.len() - i,
{
    if 0 <= i < s.len() && p(s[i]) {
        lemma_run_prefix(s, i + 1, p);
    }
}

/// Lexing keeps tokens well formed.
proof fn lemma_lex_from_well_formed(s: Seq<char>, i: int, acc: Seq<TokenView>)
    requires
        tokens_well_formed(acc),
    ensures
        lex_from(s, i, acc).0 matches Ok(ts) ==> tokens_well_formed(ts),
    decreases s.len() - i,
{
    if 0 <= i < s.len() {
        lemma_scan_width(s, i);
        let (lx, w) = scan(s, i);
        match lx {
            Lexeme::Blank => lemma_lex_from_well_formed(s, i + 1, acc),
            Lexeme::LineBreak => {
                let next = if ends_operand(acc) { acc.push(TokenView::Comma) } else { acc };
                assert(tokens_well_formed(next)) by {
                    assert forall|k: int| 0 <= k < next.len() implies token_well_formed(#[trigger] next[k]) by {
                        if k < acc.len() {
                            assert(next[k] == acc[k]);
                        }
                    }
                }
                lemma_lex_from_well_formed(s, i + 1, next);
            },
            Lexeme::Tok(t) => {
                if t is Identifier {
                    lemma_identifier_token_well_formed(s, i);
                }
                let next = acc.push(t);
                assert(tokens_well_formed(next)) by {
                    assert forall|k: int| 0 <= k < next.len() implies token_well_formed(#[trigger] next[k]) by {
                        if k < acc.len() {
                            assert(next[k] == acc[k]);
                        }
                    }
                }
                lemma_lex_from_well_formed(s, i + w, next);
            },
            Lexeme::Invalid(_) => {},
        }
    }
}

/// Law: every token of a successful lexing is well formed. In particular every number is a
/// numeral that `f32::from_str` accepts, so converting it to a float cannot fail.
pub proof fn law_tokens_well_formed(s: Seq<char>)
    ensures
        lex(s) matches Ok(ts) ==> tokens_well_formed(ts),
{
    lemma_lex_from_well_formed(s, 0, seq![]);
}

// ---------------------------------------------------------------------------
// Lexing only looks forward

proof fn lemma_run_len_shift<A>(p: Seq<A>, s: Seq<A>, i: int, f: spec_fn(A) -> bool)
    requires
        0 <= i,
    ensures
        run_len(p + s, p.len() + i, f) == run_len(s, i, f),
    decreases s.len() - i,
{
    if i < s.len() {
        assert((p + s)[p.len() + i] == s[i]);
        lemma_run_len_shift(p, s, i + 1, f);
    }
}

proof fn lemma_scan_shift(p: Seq<char>, s: Seq<char>, i: int)
    requires
        0 <= i < s.len(),
    ensures
        scan(p + s, p.len() + i) == scan(s, i),
{
    let ps = p + s;
    let j = p.len() + i;
    assert(ps[j] == s[i]);
    if i + 1 < s.len() {
        assert(ps[j + 1] == s[i + 1]);
    }
    lemma_run_len_shift(p, s, i + 1, |x: char| is_numeral_char(x));
    lemma_run_len_shift(p, s, i + 1, |x: char| continues_identifier(x));
    let w1 = run_len(s, i + 1, |x: char| is_numeral_char(x));
    let w2 = run_len(s, i + 1, |x: char| continues_identifier(x));
    lemma_run_len_bound(s, i + 1, |x: char| is_numeral_char(x));
    lemma_run_len_bound(s, i + 1, |x: char| continues_identifier(x));
    assert(ps.subrange(j, j + 1 + w1) =~= s.subrange(i, i + 1 + w1));
    assert(ps.subrange(j, j + 1 + w2) =~= s.subrange(i, i + 1 + w2));
}

/// Lexing the end of a text does not depend on what comes before it.
pub proof fn lemma_lex_from_shift(p: Seq<char>, s: Seq<char>, i: int, acc: Seq<TokenView>)
    requires
        0 <= i,
    ensures
        lex_from(p + s, p.len() + i, acc).0 == lex_from(s, i, acc).0,
        lex_from(p + s, p.len() + i, acc).1 == p.len() + lex_from(s, i, acc).1,
    decreases s.len() - i,
{
    if i < s.len() {
        lemma_scan_shift(p, s, i);
        lemma_scan_width(s, i);
        let (lx, w) = scan(s, i);
        match lx {
            Lexeme::Blank => lemma_lex_from_shift(p, s, i + 1, acc),
            Lexeme::LineBreak => lemma_lex_from_shift(
                p,
                s,
                i + 1,
                if ends_operand(acc) { acc.push(TokenView::Comma) } else { acc },
            ),
            Lexeme::Tok(t) => lemma_lex_from_shift(p, s, i + w, acc.push(t)),
            Lexeme::Invalid(_) => {},
        }
    }
}

proof fn lemma_run_len_prefix<A>(s1: Seq<A>, rest: Seq<A>, i: int, f: spec_fn(A) -> bool)
    requires
        0 <= i <= s1.len(),
        rest.len() > 0,
        !f(rest[0]),
    ensures
        run_len(s1 + rest, i, f) == run_len(s1, i, f),
    decreases s1.len() - i,
{
    let s = s1 + rest;
    if i < s1.len() {
        assert(s[i] == s1[i]);
        lemma_run_len_prefix(s1, rest, i + 1, f);
    } else {
        assert(s[i] == rest[0]);
    }
}

proof fn lemma_scan_prefix(s1: Seq<char>, rest: Seq<char>, i: int)
    requires
        0 <= i < s1.len(),
        rest.len() > 0,
        is_delimiter(rest[0]),
    ensures
        scan(s1 + rest, i) == scan(s1, i),
{
    let s = s1 + rest;
    assert(s[i] == s1[i]);
    if i + 1 < s1.len() {
        assert(s[i + 1] == s1[i + 1]);
    } else {
        assert(s[i + 1] == rest[0]);
    }
    lemma_run_len_prefix(s1, rest, i + 1, |x: char| is_numeral_char(x));
    lemma_run_len_prefix(s1, rest, i + 1, |x: char| continues_identifier(x));
    let w1 = run_len(s1, i + 1, |x: char| is_numeral_char(x));
    let w2 = run_len(s1, i + 1, |x: char| continues_identifier(x));
    lemma_run_len_bound(s1, i + 1, |x: char| is_numeral_char(x));
    lemma_run_len_bound(s1, i + 1, |x: char| continues_identifier(x));
    assert(s.subrange(i, i + 1 + w1) =~= s1.subrange(i, i + 1 + w1));
    assert(s.subrange(i, i + 1 + w2) =~= s1.subrange(i, i + 1 + w2));
}

/// Lexing a text whose part `s1` is followed by a delimiter first lexes `s1` on its own,
/// then goes on after it.
pub proof fn lemma_lex_from_prefix(s1: Seq<char>, rest: Seq<char>, i: int, acc: Seq<TokenView>)
    requires
        0 <= i <= s1.len(),
        rest.len() > 0,
        is_delimiter(rest[0]),
    ensures
        lex_from(s1 + rest, i, acc) == (match lex_from(s1, i, acc).0 {
            Ok(ts) => lex_from(s1 + rest, s1.len() as int, ts),
            Err(m) => (Err(m), lex_from(s1, i, acc).1),
        }),
    decreases s1.len() - i,
{
    if i < s1.len() {
        lemma_scan_prefix(s1, rest, i);
        lemma_scan_width(s1, i);
        let (lx, w) = scan(s1, i);
        match lx {
            Lexeme::Blank => lemma_lex_from_prefix(s1, rest, i + 1, acc),
            Lexeme::LineBreak => lemma_lex_from_prefix(
                s1,
                rest,
                i + 1,
                if ends_operand(acc) { acc.push(TokenView::Comma) } else { acc },
            ),
            Lexeme::Tok(t) => lemma_lex_from_prefix(s1, rest, i + w, acc.push(t)),
            Lexeme::Invalid(_) => {},
        }
    }
}

/// Lexing `s1`, then the delimiter `c`, then `s2`, when `s1` lexes to `ts`: `c` is read
/// after the tokens `ts`, and what follows `c` is lexed on its own from the tokens that `c`
/// leaves.
proof fn lemma_lex_split(s1: Seq<char>, c: char, s2: Seq<char>, ts: Seq<TokenView>)
    requires
        lex(s1) == Ok::<Seq<TokenView>, Seq<char>>(ts),
        is_delimiter(c),
    ensures
        lex(s1 + seq![c] + s2) == lex_from(s1 + seq![c] + s2, s1.len() as int, ts).0,
        forall|acc: Seq<TokenView>| #[trigger] lex_from(s1 + seq![c] + s2, (s1.len() + 1) as int, acc).0 == lex_from(s2, 0, acc).0,
{
    let s = s1 + seq![c] + s2;
    assert(s =~= s1 + (seq![c] + s2));
    lemma_lex_from_prefix(s1, seq![c] + s2, 0, seq![]);
    assert(s =~= (s1 + seq![c]) + s2);
    assert forall|acc: Seq<TokenView>| #[trigger] lex_from(s1 + seq![c] + s2, (s1.len() + 1) as int, acc).0 == lex_from(s2, 0, acc).0 by {
        lemma_lex_from_shift(s1 + seq![c], s2, 0, acc);
    }
}

/// Law: a line break or semicolon right after an operand (a number, a name or `)`) acts as a
/// comma.
pub proof fn law_line_break_after_operand_is_comma(s1: Seq<char>, c: char, s2: Seq<char>)
    requires
        is_line_break(c),
        lex(s1) matches Ok(ts) && ends_operand(ts),
    ensures
        lex(s1 + seq![c] + s2) == lex(s1 + seq![','] + s2),
{
    let ts = lex(s1)->Ok_0;
    let j = s1.len() as int;
    lemma_lex_split(s1, c, s2, ts);
    lemma_lex_split(s1, ',', s2, ts);
    let a = s1 + seq![c] + s2;
    let b = s1 + seq![','] + s2;
    assert(lex_from(a, j, ts) == lex_from(a, j + 1, ts.push(TokenView::Comma)));
    assert(lex_from(b, j, ts) == lex_from(b, j + 1, ts.push(TokenView::Comma)));
}

/// Law: a line break or semicolon anywhere else (at the start, or after an operator) is
/// dropped like a blank.
pub proof fn law_line_break_elsewhere_is_blank(s1: Seq<char>, c: char, s2: Seq<char>)
    requires
        is_line_break(c),
        lex(s1) matches Ok(ts) && !ends_operand(ts),
    ensures
        lex(s1 + seq![c] + s2) == lex(s1 + seq![' '] + s2),
{
    let ts = lex(s1)->Ok_0;
    let j = s1.len() as int;
    lemma_lex_split(s1, c, s2, ts);
    lemma_lex_split(s1, ' ', s2, ts);
    let a = s1 + seq![c] + s2;
    let b = s1 + seq![' '] + s2;
    assert(lex_from(a, j, ts) == lex_from(a, j + 1, ts));
    assert(lex_from(b, j, ts) == lex_from(b, j + 1, ts));
}

/// Once some token is read, the tokens before it no longer matter: lexing from `acc + x`
/// gives what lexing from `x` gives, with `acc` in front.
proof fn lemma_lex_from_prefix_acc(s: Seq<char>, i: int, acc: Seq<TokenView>, x: Seq<TokenView>)
    requires
        0 <= i,
        x.len() > 0,
    ensures
        lex_from(s, i, acc + x).1 == lex_from(s, i, x).1,
        lex_from(s, i, acc + x).0 == (match lex_from(s, i, x).0 {
            Ok(ts) => Ok(acc + ts),
            Err(m) => Err::<Seq<TokenView>, Seq<char>>(m),
        }),
    decreases s.len() - i,
{
    if i < s.len() {
        lemma_scan_width(s, i);
        let (lx, w) = scan(s, i);
        match lx {
            Lexeme::Blank => lemma_lex_from_prefix_acc(s, i + 1, acc, x),
            Lexeme::LineBreak => {
                assert((acc + x).last() == x.last());
                if ends_operand(x) {
                    assert((acc + x).push(TokenView::Comma) =~= acc + x.push(TokenView::Comma));
                    lemma_lex_from_prefix_acc(s, i + 1, acc, x.push(TokenView::Comma));
                } else {
                    lemma_lex_from_prefix_acc(s, i + 1, acc, x);
                }
            },
            Lexeme::Tok(t) => {
                assert((acc + x).push(t) =~= acc + x.push(t));
                lemma_lex_from_prefix_acc(s, i + w, acc, x.push(t));
            },
            Lexeme::Invalid(_) => {},
        }
    }
}

/// The first character of `s` from index `i` on that is not a blank, if there is one, is no
/// line break.
pub open spec fn no_leading_line_break(s: Seq<char>, i: int) -> bool {
    forall|k: int|
        i <= k < s.len() && is_line_break(#[trigger] s[k]) ==> exists|m: int|
            i <= m < k && !is_blank(#[trigger] s[m])
}

/// Lexing from `i` with tokens `acc` already read, when no line break comes before the next
/// token: `acc` only comes before the tokens still to read.
proof fn lemma_lex_from_acc(s: Seq<char>, i: int, acc: Seq<TokenView>)
    requires
        0 <= i,
        no_leading_line_break(s, i),
    ensures
        lex_from(s, i, acc).1 == lex_from(s, i, seq![]).1,
        lex_from(s, i, acc).0 == (match lex_from(s, i, seq![]).0 {
            Ok(ts) => Ok(acc + ts),
            Err(m) => Err::<Seq<TokenView>, Seq<char>>(m),
        }),
    decreases s.len() - i,
{
    if i >= s.len() {
        assert(acc + seq![] =~= acc);
    } else {
        lemma_scan_width(s, i);
        let (lx, w) = scan(s, i);
        match lx {
            Lexeme::Blank => {
                assert(is_blank(s[i]));
                assert(no_leading_line_break(s, i + 1)) by {
                    assert forall|k: int| i + 1 <= k < s.len() && is_line_break(#[trigger] s[k]) implies exists|m: int|
                        i + 1 <= m < k && !is_blank(#[trigger] s[m]) by {
                        let m = choose|m: int| i <= m < k && !is_blank(#[trigger] s[m]);
                        assert(m != i);
                    }
                }
                lemma_lex_from_acc(s, i + 1, acc);
                lemma_lex_from_acc(s, i + 1, seq![]);
            },
            Lexeme::LineBreak => {
                assert(is_line_break(s[i]));
            },
            Lexeme::Tok(t) => {
                lemma_lex_from_prefix_acc(s, i + w, acc, seq![t]);
                assert(acc + seq![t] =~= acc.push(t));
                assert(seq![].push(t) =~= seq![t]);
            },
            Lexeme::Invalid(_) => {},
        }
    }
}

/// Law: a blank (space, tab or backslash) between two texts that lex on their own gives the
/// tokens of the first followed by those of the second, when the second does not begin with
/// a line break (blanks aside). Blanks only separate tokens.
pub proof fn law_blank_separates(s1: Seq<char>, b: char, s2: Seq<char>)
    requires
        is_blank(b),
        lex(s1) is Ok,
        lex(s2) is Ok,
        no_leading_line_break(s2, 0),
    ensures
        lex(s1 + seq![b] + s2) == Ok::<Seq<TokenView>, Seq<char>>(lex(s1)->Ok_0 + lex(s2)->Ok_0),
{
    let t1 = lex(s1)->Ok_0;
    let j = s1.len() as int;
    lemma_lex_split(s1, b, s2, t1);
    let a = s1 + seq![b] + s2;
    assert(lex_from(a, j, t1) == lex_from(a, j + 1, t1));
    lemma_lex_from_acc(s2, 0, t1);
}

/// An ASCII character that identifiers are made of: a letter, a digit, `_`, `#` or `$`.
pub open spec fn ascii_name_char(c: char) -> bool {
    ('a' <= c && c <= 'z') || ('A' <= c && c <= 'Z') || ('0' <= c && c <= '9') || c == '_' || c == '#'
        || c == '$'
}

/// Law: an identifier is a maximal run of name characters. A text that begins with an ASCII
/// letter, `_` or `$` and goes on with ASCII letters, digits, `_`, `#` or `$` is one
/// identifier token holding the whole text (so `my_var` is one name, not `my` and `_var`).
pub proof fn law_identifier_is_whole_run(s: Seq<char>)
    requires
        s.len() > 0,
        ('a' <= s[0] && s[0] <= 'z') || ('A' <= s[0] && s[0] <= 'Z') || s[0] == '_' || s[0] == '$',
        forall|k: int| 0 <= k < s.len() ==> ascii_name_char(#[trigger] s[k]),
    ensures
        lex(s) == Ok::<Seq<TokenView>, Seq<char>>(seq![TokenView::Identifier(s)]),
{
    let p = |x: char| continues_identifier(x);
    assert forall|k: int| 1 <= k < s.len() implies #[trigger] p(s[k]) by {
        assert(ascii_name_char(s[k]));
    }
    lemma_run_len_exact(s, 1, s.len() as int, p);
    assert(s.subrange(0, s.len() as int) =~= s);
    assert(scan(s, 0) == (Lexeme::Tok(TokenView::Identifier(s)), s.len()));
    assert(lex_from(s, 0, seq![]) == lex_from(s, s.len() as int, seq![TokenView::Identifier(s)]));
}

/// Law: a text of digits and dots is one number token when it holds at least one digit and
/// at most one dot, and is refused as an invalid number otherwise (so `3.14`, `7.` and `.5`
/// are numbers, while `1.2.3` and `.` are not).
pub proof fn law_numeral(s: Seq<char>)
    requires
        s.len() > 0,
        forall|k: int| 0 <= k < s.len() ==> ('0' <= #[trigger] s[k] && s[k] <= '9') || s[k] == '.',
    ensures
        lex(s) == if (exists|k: int| 0 <= k < s.len() && '0' <= #[trigger] s[k] && s[k] <= '9')
            && (forall|a: int, b: int| 0 <= a < b < s.len() ==> !(#[trigger] s[a] == '.' && #[trigger] s[b] == '.')) {
            Ok::<Seq<TokenView>, Seq<char>>(seq![TokenView::Number(s)])
        } else {
            Err("Invalid number format: "@ + s)
        },
{
    let p = |x: char| is_numeral_char(x);
    assert forall|k: int| 1 <= k < s.len() implies #[trigger] p(s[k]) by {
        assert(is_numeral_char(s[k]));
    }
    lemma_run_len_exact(s, 1, s.len() as int, p);
    assert(s.subrange(0, s.len() as int) =~= s);
    assert(is_numeral_char(s[0]));
    if is_decimal_numeral(s) {
        assert(scan(s, 0) == (Lexeme::Tok(TokenView::Number(s)), s.len()));
        assert(lex_from(s, 0, seq![]) == lex_from(s, s.len() as int, seq![TokenView::Number(s)]));
    } else {
        assert(scan(s, 0) == (Lexeme::Invalid(crate::lexer::invalid_number_message(s)), s.len()));
    }
}

/// How each operator and punctuation token is written.
pub open spec fn spelling(tok: TokenView) -> Seq<char> {
    match tok {
        TokenView::Plus => seq!['+'],
        TokenView::Minus => seq!['-'],
        TokenView::Star => seq!['*'],
        TokenView::Slash => seq!['/'],
        TokenView::Percent => seq!['%'],
        TokenView::Power => seq!['*', '*'],
        TokenView::Eq => seq!['=', '='],
        TokenView::Neq => seq!['!', '='],
        TokenView::Less => seq!['<'],
        TokenView::Greater => seq!['>'],
        TokenView::LessEq => seq!['<', '='],
        TokenView::GreaterEq => seq!['>', '='],
        TokenView::ShiftLeft => seq!['<', '<'],
        TokenView::ShiftRight => seq!['>', '>'],
        TokenView::BitAnd => seq!['&'],
        TokenView::BitOr => seq!['|'],
        TokenView::BitXor => seq!['^'],
        TokenView::LogAnd => seq!['&', '&'],
        TokenView::LogOr => seq!['|', '|'],
        TokenView::LogNot => seq!['!'],
        TokenView::Assign => seq!['='],
        TokenView::LParen => seq!['('],
        TokenView::RParen => seq![')'],
        TokenView::Comma => seq![','],
        _ => seq![],
    }
}

/// Law: every operator and punctuation token is read from its spelling, and a two-character
/// operator is read as one token, not as two (so `<=` is one token, not `<` and `=`).
pub proof fn law_operator_spelling(tok: TokenView)
    requires
        spelling(tok).len() > 0,
    ensures
        lex(spelling(tok)) == Ok::<Seq<TokenView>, Seq<char>>(seq![tok]),
{
    let s = spelling(tok);
    assert(scan(s, 0) == (Lexeme::Tok(tok), s.len()));
    assert(lex_from(s, 0, seq![]) == lex_from(s, s.len() as int, seq![tok]));
}

/// An ASCII character that can begin something the lexer reads: a letter, a digit, `.`,
/// `_`, `$`, a blank, a line break, or an operator or punctuation character.
pub open spec fn ascii_starts_something(c: char) -> bool {
    ||| ('a' <= c && c <= 'z') || ('A' <= c && c <= 'Z') || ('0' <= c && c <= '9')
    ||| c == '.' || c == '_' || c == '$'
    ||| c == ' ' || c == '\t' || c == '\\' || c == '\n' || c == '\r' || c == ';'
    ||| c == '+' || c == '-' || c == '*' || c == '/' || c == '%' || c == '^' || c == '='
    ||| c == '<' || c == '>' || c == '!' || c == '&' || c == '|' || c == '(' || c == ')' || c == ','
}

/// Law: a text that begins with an ASCII character that begins nothing (such as `@`, `?` or
/// `#`) is refused with the message that names that character, whatever follows.
pub proof fn law_unexpected_character(c: char, s: Seq<char>)
    requires
        (c as u32) < 128,
        !ascii_starts_something(c),
    ensures
        lex(seq![c] + s) == Err::<Seq<TokenView>, Seq<char>>("Unexpected character: "@ + seq![c]),
{
    let a = seq![c] + s;
    assert(a[0] == c);
    assert(scan(a, 0) == (Lexeme::Invalid(crate::lexer::unexpected_char_message(c)), 0nat));
}

} // verus!
