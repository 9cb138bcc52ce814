//! The shared code-point classes and the generic input stream.
use harbor::infra::{
    char_is_ident, char_is_ident_start, char_is_non_printable, char_is_whitespace, is_leading_surrogate,
    is_surrogate, is_trailing_surrogate, is_valid_escape, would_start_ident, InputStream,
};

#[test]
fn surrogates() {
    assert!(is_leading_surrogate(0xD800));
    assert!(!is_leading_surrogate(0xDC00));
    assert!(is_trailing_surrogate(0xDFFF));
    assert!(is_surrogate(0xDBFF));
    assert!(!is_surrogate(0xE000));
}

#[test]
fn identifiers() {
    assert!(char_is_ident_start('a'));
    assert!(char_is_ident_start('_'));
    assert!(char_is_ident_start('\u{E9}'));
    assert!(!char_is_ident_start('1'));
    assert!(char_is_ident('1'));
    assert!(char_is_ident('-'));
    assert!(!char_is_ident(' '));
    assert!(is_valid_escape('\\', Some('n')));
    assert!(!is_valid_escape('\\', Some('\n')));
    assert!(!is_valid_escape('\\', None));
    assert!(would_start_ident(&['-', 'a']));
    assert!(would_start_ident(&['-', '-']));
    assert!(would_start_ident(&['\\', 'x']));
    assert!(!would_start_ident(&['-', '1']));
    assert!(!would_start_ident(&['1']));
    assert!(!would_start_ident(&[]));
}

#[test]
fn white_space_and_non_printables() {
    assert!(char_is_whitespace('\t'));
    assert!(!char_is_whitespace('\r'));
    assert!(char_is_non_printable('\u{0}'));
    assert!(char_is_non_printable('\u{7F}'));
    assert!(char_is_non_printable('\u{FFFF}'));
    assert!(!char_is_non_printable('a'));
    assert!(!char_is_non_printable('\n'));
}

#[test]
fn generic_stream() {
    let data = ['a', 'b', 'c'];
    let mut s = InputStream::new(&data);
    assert_eq!(s.peek(), Some('a'));
    assert_eq!(s.consume(), Some('a'));
    assert_eq!(s.peek(), Some('b'));
    assert_eq!(s.peek_nth(1), Some('c'));
    assert_eq!(s.consume(), Some('b'));
    s.reconsume();
    assert_eq!(s.consume(), Some('b'));
    assert!(s.matches("c", None, Some(true)));
    assert_eq!(s.consume(), Some('c'));
    assert_eq!(s.consume(), None);
    assert!(s.is_eof);
    let mut t = InputStream::new(&data);
    let rest = t.finish();
    assert_eq!(rest, vec!['a', 'b', 'c']);
}
