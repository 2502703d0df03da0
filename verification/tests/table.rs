use projection::pointer::Pointer;
use projection::shape::TypeInfo;
use projection::table::ProjectionTable;

fn at(pointer: &str) -> TypeInfo {
    TypeInfo::unknown(Pointer::from_str(pointer))
}

#[test]
fn insert_keeps_one_entry_for_each_name() {
    let mut table = ProjectionTable::new();
    assert_eq!(table.len(), 0);
    assert_eq!(table.get("a"), None);
    table.insert("b".to_string(), at("/1"));
    table.insert("a".to_string(), at("/2"));
    table.insert("c".to_string(), at("/3"));
    table.insert("b".to_string(), at("/4"));
    assert_eq!(table.len(), 3);
    assert_eq!(table.get("a"), Some(&at("/2")));
    assert_eq!(table.get("b"), Some(&at("/4")));
    assert_eq!(table.get("c"), Some(&at("/3")));
    assert_eq!(table.get("d"), None);
    assert_eq!(table.get(""), None);
    assert_eq!(
        table.into_entries(),
        vec![
            ("a".to_string(), at("/2")),
            ("b".to_string(), at("/4")),
            ("c".to_string(), at("/3")),
        ]
    );
}

#[test]
fn entries_do_not_depend_on_insertion_order() {
    let mut one = ProjectionTable::new();
    let mut two = ProjectionTable::new();
    for name in ["z", "é", "", "ab", "a", "B"] {
        one.insert(name.to_string(), at("/x"));
    }
    for name in ["B", "a", "ab", "", "é", "z"] {
        two.insert(name.to_string(), at("/x"));
    }
    assert_eq!(one, two);
    let names: Vec<String> = one.into_entries().into_iter().map(|entry| entry.0).collect();
    assert_eq!(names, vec!["", "B", "a", "ab", "z", "é"]);
}
