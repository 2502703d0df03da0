use projection::names::{derive_field_names, field_names_of, sort_unique, variants_of};
use projection::pointer::{Pointer, Token};

#[test]
fn test_derived_names() {
    assert_eq!(
        derive_field_names("/foo_bar"),
        vec!["/foo_bar", "foo bar", "foo_bar"]
    );

    assert_eq!(
        derive_field_names("/foo_bar/baz"),
        vec![
            "/foo_bar/baz",
            "foo_bar baz",
            "foo_bar/baz",
            "foo_bar_baz",
            "foo_barbaz",
        ]
    );

    assert_eq!(
        derive_field_names("/a/ß/Minnow"),
        vec![
            "/a/ss/minnow",
            "a ss minnow",
            "a/ss/minnow",
            "a_ss_minnow",
            "assminnow"
        ]
    );
}

#[test]
fn root_has_no_field_names() {
    assert_eq!(derive_field_names(""), Vec::<String>::new());
    assert_eq!(field_names_of(&Pointer::empty()), Vec::<String>::new());
}

#[test]
fn nested_location_never_yields_all_spaces() {
    let names = derive_field_names("/foo_bar/baz");
    assert!(!names.contains(&"foo bar baz".to_string()));
}

#[test]
fn variants_come_in_a_fixed_order() {
    let one = Pointer(vec![Token::Property("Foo_Bar".to_string())]);
    assert_eq!(
        variants_of(&one),
        vec!["Foo_Bar", "Foo_Bar", "Foo_Bar", "/Foo_Bar", "Foo_Bar", "Foo Bar"]
    );
    let two = Pointer(vec![
        Token::Property("a_b".to_string()),
        Token::Index(3),
        Token::NextIndex,
    ]);
    assert_eq!(
        variants_of(&two),
        vec!["a_b_3_-", "a_b 3 -", "a_b3-", "/a_b/3/-", "a_b/3/-"]
    );
    assert_eq!(variants_of(&Pointer::empty()), Vec::<String>::new());
}

#[test]
fn variants_escape_only_the_pointer_text() {
    let location = Pointer(vec![Token::Property("a/b~c".to_string())]);
    assert_eq!(
        variants_of(&location),
        vec!["a/b~c", "a/b~c", "a/b~c", "/a~1b~0c", "a~1b~0c", "a/b~c"]
    );
}

#[test]
fn sort_unique_orders_and_drops_repeats() {
    let items: Vec<String> = ["b", "a", "b", "", "ab", "a", "B", "é", "z"]
        .iter()
        .map(|s| s.to_string())
        .collect();
    assert_eq!(sort_unique(&items), vec!["", "B", "a", "ab", "b", "z", "é"]);
    let mut expected = items.clone();
    expected.sort();
    expected.dedup();
    assert_eq!(sort_unique(&items), expected);
    assert_eq!(sort_unique(&Vec::new()), Vec::<String>::new());
}

#[test]
fn index_and_append_tokens_are_written_out() {
    assert_eq!(
        derive_field_names("/items/12/-"),
        vec!["/items/12/-", "items 12 -", "items/12/-", "items12-", "items_12_-"]
    );
}
