use projection::pointer::{Pointer, Token};

fn property(name: &str) -> Token {
    Token::Property(name.to_string())
}

#[test]
fn empty_text_is_the_root() {
    assert_eq!(Pointer::from_str(""), Pointer(vec![]));
    assert!(Pointer::from_str("").is_empty());
    assert_eq!(Pointer::empty().to_text(), "");
}

#[test]
fn tokens_are_told_apart() {
    assert_eq!(
        Pointer::from_str("/foo/ba~1ar/3/-"),
        Pointer(vec![
            property("foo"),
            property("ba/ar"),
            Token::Index(3),
            Token::NextIndex
        ])
    );
    assert_eq!(
        Pointer::from_str("/0/01/+1/18446744073709551615/18446744073709551616/1a/"),
        Pointer(vec![
            Token::Index(0),
            property("01"),
            property("+1"),
            Token::Index(u64::MAX),
            property("18446744073709551616"),
            property("1a"),
            property(""),
        ])
    );
}

#[test]
fn leading_slash_may_be_missing() {
    assert_eq!(Pointer::from_str("a/b"), Pointer::from_str("/a/b"));
    assert_eq!(Pointer::from_str("/"), Pointer(vec![property("")]));
    assert_eq!(Pointer::from_str("//"), Pointer(vec![property(""), property("")]));
}

#[test]
fn escapes_are_read_in_one_pass() {
    assert_eq!(Pointer::from_str("/~01"), Pointer(vec![property("~1")]));
    assert_eq!(Pointer::from_str("/~0~1~"), Pointer(vec![property("~/~")]));
    assert_eq!(Pointer::from_str("/~2"), Pointer(vec![property("~2")]));
}

#[test]
fn canonical_text_reads_back() {
    for text in ["", "/", "/a/b", "/a~1b/~0/7/-", "/foo_bar/baz", "/0", "/ß/Minnow"] {
        assert_eq!(Pointer::from_str(text).to_text(), text);
    }
    assert_eq!(Pointer::from_str("a/b").to_text(), "/a/b");
    assert_eq!(Pointer::from_str("/a~b").to_text(), "/a~0b");
}

#[test]
fn token_text_is_what_was_read() {
    assert_eq!(Token::Index(120).text(), vec!['1', '2', '0']);
    assert_eq!(Token::Index(0).text(), vec!['0']);
    assert_eq!(Token::NextIndex.text(), vec!['-']);
    assert_eq!(property("a b").text(), vec!['a', ' ', 'b']);
    assert_eq!(Pointer::from_str("/a/b").len(), 2);
}

#[test]
fn pointers_are_ordered_token_by_token() {
    assert!(Pointer::from_str("") < Pointer::from_str("/a"));
    assert!(Pointer::from_str("/a") < Pointer::from_str("/a/b"));
    assert!(Pointer::from_str("/a/b") < Pointer::from_str("/b"));
    assert!(Pointer::from_str("/2") < Pointer::from_str("/10"));
    assert_eq!(Pointer::from_str("/a/b"), Pointer::from_str("/a/b").clone());
    assert_ne!(Pointer::from_str("/1"), Pointer::from_str("/01"));
}
