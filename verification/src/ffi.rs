//! The token scanner of the C interface, which measures the first token of a byte string.
use vstd::prelude::*;
use crate::lexer::{lemma_run_len_exact, run_len};

verus! {

/// An ASCII digit or `.`.
pub open spec fn is_numeral_byte(b: u8) -> bool {
    (48 <= b && b <= 57) || b == 46
}

/// An ASCII letter.
pub open spec fn is_letter_byte(b: u8) -> bool {
    (65 <= b && b <= 90) || (97 <= b && b <= 122)
}

/// A byte that begins a word: an ASCII letter, `_` (95), `$` (36) or `#` (35).
pub open spec fn starts_word_byte(b: u8) -> bool {
    is_letter_byte(b) || b == 95 || b == 36 || b == 35
}

/// A byte that continues a word: an ASCII letter or digit, `_`, `$` or `#`.
pub open spec fn continues_word_byte(b: u8) -> bool {
    starts_word_byte(b) || (48 <= b && b <= 57)
}

/// The two-byte operators `**`, `==`, `!=`, `<=`, `>=`, `&&`, `||`, `<<` and `>>`.
pub open spec fn is_pair_operator(a: u8, b: u8) -> bool {
    ||| a == 42 && b == 42  // **
    ||| a == 61 && b == 61  // ==
    ||| a == 33 && b == 61  // !=
    ||| a == 60 && b == 61  // <=
    ||| a == 62 && b == 61  // >=
    ||| a == 38 && b == 38  // &&
    ||| a == 124 && b == 124  // ||
    ||| a == 60 && b == 60  // <<
    ||| a == 62 && b == 62  // >>
}

/// The length of the first token of `s`: 0 for no bytes; a run of digits and dots; a word;
/// a two-byte operator; otherwise the single first byte.
pub open spec fn token_len(s: Seq<u8>) -> nat {
    if s.len() == 0 {
        0
    } else if is_numeral_byte(s[0]) {
        1 + run_len(s, 1, |b: u8| is_numeral_byte(b))
    } else if starts_word_byte(s[0]) {
        1 + run_len(s, 1, |b: u8| continues_word_byte(b))
    } else if s.len() >= 2 && is_pair_operator(s[0], s[1]) {
        2
    } else {
        1
    }
}

/// Measures the first token of `s`, as [`token_len`] says.
pub fn expr_next_token(s: &[u8]) -> (n: usize)
    ensures
        n == token_len(s@),
        s@.len() > 0 ==> 1 <= n <= s@.len(),
{
    let len = s.len();
    if len == 0 {
        return 0;
    }
    let c = s[0];
    let mut i: usize = 1;
    if (48 <= c && c <= 57) || c == 46 {
        while i < len && ((48 <= s[i] && s[i] <= 57) || s[i] == 46)
            invariant
                1 <= i <= len,
                len == s@.len(),
                forall|k: int| 1 <= k < i ==> is_numeral_byte(#[trigger] s@[k]),
            decreases len - i,
        {
            i = i + 1;
        }
        proof {
            lemma_run_len_exact(s@, 1, i as int, |b: u8| is_numeral_byte(b));
        }
        return i;
    }
    if is_letter(c) || c == 95 || c == 36 || c == 35 {
        while i < len && (is_letter(s[i]) || (48 <= s[i] && s[i] <= 57) || s[i] == 95 || s[i] == 36
            || s[i] == 35)
            invariant
                1 <= i <= len,
                len == s@.len(),
                forall|k: int| 1 <= k < i ==> continues_word_byte(#[trigger] s@[k]),
            decreases len - i,
        {
            i = i + 1;
        }
        proof {
            lemma_run_len_exact(s@, 1, i as int, |b: u8| continues_word_byte(b));
        }
        return i;
    }
    if i < len {
        let d = s[1];
        if (c == 42 && d == 42) || (c == 61 && d == 61) || (c == 33 && d == 61) || (c == 60 && d == 61)
            || (c == 62 && d == 61) || (c == 38 && d == 38) || (c == 124 && d == 124) || (c == 60
            && d == 60) || (c == 62 && d == 62) {
            return 2;
        }
    }
    1
}

/// Whether `b` is an ASCII letter.
fn is_letter(b: u8) -> (r: bool)
    ensures
        r == is_letter_byte(b),
{
    (65 <= b && b <= 90) || (97 <= b && b <= 122)
}

/// An ASCII byte that words are made of: a letter (upper or lower case), a digit, `_`, `$`
/// or `#`.
pub open spec fn ascii_word_byte(b: u8) -> bool {
    (65 <= b && b <= 90) || (97 <= b && b <= 122) || (48 <= b && b <= 57) || b == 95 || b == 36
        || b == 35
}

/// Law: a word is measured whole: when `s` begins with a letter (upper or lower case), `_`,
/// `$` or `#`, its first `n` bytes are word bytes and the byte after them (if any) is not,
/// the first token is `n` bytes long (so `Xyz + 1` begins with a token of 3 bytes).
pub proof fn law_word_is_measured_whole(s: Seq<u8>, n: int)
    requires
        1 <= n <= s.len(),
        !(48 <= s[0] && s[0] <= 57),
        forall|k: int| 0 <= k < n ==> ascii_word_byte(#[trigger] s[k]),
        n < s.len() ==> !ascii_word_byte(s[n]),
    ensures
        token_len(s) == n,
{
    let p = |b: u8| continues_word_byte(b);
    assert(ascii_word_byte(s[0]));
    assert forall|k: int| 1 <= k < n implies #[trigger] p(s[k]) by {
        assert(ascii_word_byte(s[k]));
    }
    lemma_run_len_exact(s, 1, n, p);
}

/// Law: a numeral is measured whole: when the first `n` bytes of `s` are digits or dots and
/// the byte after them (if any) is not, the first token is `n` bytes long.
pub proof fn law_numeral_is_measured_whole(s: Seq<u8>, n: int)
    requires
        1 <= n <= s.len(),
        forall|k: int| 0 <= k < n ==> (48 <= #[trigger] s[k] && s[k] <= 57) || s[k] == 46,
        n < s.len() ==> !((48 <= s[n] && s[n] <= 57) || s[n] == 46),
    ensures
        token_len(s) == n,
{
    let p = |b: u8| is_numeral_byte(b);
    assert(is_numeral_byte(s[0]));
    assert forall|k: int| 1 <= k < n implies #[trigger] p(s[k]) by {
        assert(is_numeral_byte(s[k]));
    }
    lemma_run_len_exact(s, 1, n, p);
}

/// The two-byte operators, as byte strings: `**`, `==`, `!=`, `<=`, `>=`, `&&`, `||`, `<<`
/// and `>>`.
pub open spec fn two_byte_operators() -> Set<Seq<u8>> {
    set![
        seq![42u8, 42u8], seq![61u8, 61u8], seq![33u8, 61u8], seq![60u8, 61u8], seq![62u8, 61u8],
        seq![38u8, 38u8], seq![124u8, 124u8], seq![60u8, 60u8], seq![62u8, 62u8],
    ]
}

/// Law: a text that begins with no digit, dot or word byte begins with an operator: a
/// two-byte operator is measured as 2 bytes, anything else as 1.
pub proof fn law_operator_is_measured(s: Seq<u8>)
    requires
        s.len() >= 1,
        !ascii_word_byte(s[0]),
        s[0] != 46,
    ensures
        token_len(s) == if s.len() >= 2 && two_byte_operators().contains(s.subrange(0, 2)) { 2nat } else { 1nat },
{
    if s.len() >= 2 {
        let h = s.subrange(0, 2);
        assert(h =~= seq![s[0], s[1]]);
        if is_pair_operator(s[0], s[1]) {
            assert(two_byte_operators().contains(h));
        }
        if two_byte_operators().contains(h) {
            assert(h[0] == s[0] && h[1] == s[1]);
        }
    }
}

} // verus!
