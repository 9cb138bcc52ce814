//! The standalone tokenizer, one step at a time.
use harbor::html5::tokenize::{InputStream, Token, Tokenizer};

fn tokenizer(text: &str) -> Tokenizer {
    Tokenizer::new(InputStream::new(String::from(text)))
}

fn run(t: &mut Tokenizer, steps: usize) {
    for _ in 0..steps {
        assert!(t.tokenize_checked());
    }
}

fn is_char(k: &Token, c: char) -> bool {
    matches!(k, Token::Character(x) if *x == c)
}

fn start_tag_named(k: &Token, name: &str, self_closing: bool) -> bool {
    matches!(k, Token::StartTag(t) if t.name == name && t.is_self_closing == self_closing && t.attributes.is_empty())
}

fn end_tag_named(k: &Token, name: &str) -> bool {
    matches!(k, Token::EndTag(t) if t.name == name && t.attributes.is_empty())
}

#[test]
fn empty_input_gives_the_end_of_file_token() {
    let mut t = tokenizer("");
    t.tokenize();
    assert_eq!(t.emitted_tokens.len(), 1);
    assert!(matches!(t.emitted_tokens[0], Token::EOF));
}

#[test]
fn text_and_a_start_tag() {
    // The stream moves before it reads, so the first code point is passed over.
    let mut t = tokenizer("xa<b>c");
    run(&mut t, 6);
    assert_eq!(t.emitted_tokens.len(), 3);
    assert!(is_char(&t.emitted_tokens[0], 'a'));
    assert!(start_tag_named(&t.emitted_tokens[1], "b", false));
    assert!(is_char(&t.emitted_tokens[2], 'c'));
    // Reading past the last code point is refused.
    assert!(!t.tokenize_checked());
}

#[test]
fn an_end_tag() {
    let mut t = tokenizer("x</p>y");
    run(&mut t, 6);
    assert_eq!(t.emitted_tokens.len(), 2);
    assert!(end_tag_named(&t.emitted_tokens[0], "p"));
    assert!(is_char(&t.emitted_tokens[1], 'y'));
}

#[test]
fn tag_names_are_lowered() {
    let mut t = tokenizer("x<DiV>.");
    run(&mut t, 6);
    assert_eq!(t.emitted_tokens.len(), 1);
    assert!(start_tag_named(&t.emitted_tokens[0], "div", false));
}

#[test]
fn a_self_closing_tag() {
    let mut t = tokenizer("x<br/>.");
    run(&mut t, 6);
    assert_eq!(t.emitted_tokens.len(), 1);
    assert!(start_tag_named(&t.emitted_tokens[0], "br", true));
}

#[test]
fn a_null_code_point_is_an_error() {
    let mut t = tokenizer("xa\0b");
    run(&mut t, 1);
    assert!(!t.tokenize_checked());
}

#[test]
fn markup_declarations_are_not_supported() {
    let mut t = tokenizer("x<!-- c -->.");
    run(&mut t, 2);
    assert!(!t.tokenize_checked());
}

#[test]
fn tokens_are_only_ever_added() {
    let mut t = tokenizer("xab<i>cd</i>ef.");
    let mut seen: Vec<String> = Vec::new();
    for _ in 0..15 {
        assert!(t.tokenize_checked());
        let now: Vec<String> = t
            .emitted_tokens
            .iter()
            .map(|k| match k {
                Token::Character(c) => c.to_string(),
                Token::StartTag(tag) => format!("<{}>", tag.name),
                Token::EndTag(tag) => format!("</{}>", tag.name),
                _ => String::from("?"),
            })
            .collect();
        assert!(now.len() >= seen.len());
        assert_eq!(&now[..seen.len()], &seen[..]);
        seen = now;
    }
    assert_eq!(seen.join(""), "ab<i>cd</i>ef");
}
