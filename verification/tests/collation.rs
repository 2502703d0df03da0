use projection::collation::collate;

#[test]
fn collate_folds_case_and_sharp_s() {
    assert_eq!(collate("ß"), collate("SS"));
    assert_eq!(collate("SS"), "ss");
    assert_eq!(collate("Minnow"), "minnow");
    assert_eq!(collate("straße"), "strasse");
}

#[test]
fn collate_keeps_plain_text() {
    assert_eq!(collate(""), "");
    assert_eq!(collate("foo_bar baz/1"), "foo_bar baz/1");
}

#[test]
fn collate_is_stable_on_field_names() {
    for text in ["", "Foo Bar", "ß", "SS", "Ångström", "e\u{301}", "ﬁn", "İstanbul", "ΣΊΣΥΦΟΣ"] {
        let once = collate(text);
        assert_eq!(collate(&once), once, "{:?}", text);
    }
}

#[test]
fn collate_composes_after_folding() {
    assert_eq!(collate("E\u{301}"), "\u{e9}");
    assert_eq!(collate("\u{c9}"), "\u{e9}");
    assert_eq!(collate("ﬁ"), "fi");
}

#[test]
fn collate_decomposes_before_folding() {
    // The iota subscript is put after the accent first, and only then
    // folded to a letter of its own.
    assert_eq!(collate("\u{3b1}\u{345}\u{301}"), "\u{3ac}\u{3b9}");
    assert_eq!(collate("\u{1fc3}"), "\u{3b7}\u{3b9}");
}

#[test]
fn collate_takes_compatibility_characters_apart_last() {
    // No case folding follows the last step, so what it spells out keeps
    // its case.
    assert_eq!(collate("\u{2121}"), "TEL");
    assert_eq!(collate("TEL"), "tel");
    assert_eq!(collate("\u{3392}"), "MHz");
    assert_eq!(collate("\u{212b}"), "\u{e5}");
}
