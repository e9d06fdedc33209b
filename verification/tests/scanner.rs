use mathex::ffi::expr_next_token;

#[test]
fn measures_numbers_and_words() {
    assert_eq!(expr_next_token(b"3.14+x"), 4);
    assert_eq!(expr_next_token(b"..1 "), 3);
    assert_eq!(expr_next_token(b"foo_bar#1$ + 2"), 10);
    assert_eq!(expr_next_token(b"#x"), 2);
}

#[test]
fn measures_operators() {
    for op in [&b"**"[..], b"==", b"!=", b"<=", b">=", b"&&", b"||", b"<<", b">>"] {
        assert_eq!(expr_next_token(op), 2);
    }
    assert_eq!(expr_next_token(b"*+"), 1);
    assert_eq!(expr_next_token(b"="), 1);
    assert_eq!(expr_next_token(b" x"), 1);
    assert_eq!(expr_next_token(b"(1)"), 1);
}

#[test]
fn empty_input_has_no_token() {
    assert_eq!(expr_next_token(b""), 0);
}

#[test]
fn non_ascii_bytes_are_single_tokens() {
    assert_eq!(expr_next_token("é".as_bytes()), 1);
}
