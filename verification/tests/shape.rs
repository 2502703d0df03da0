use projection::shape::{JsonType, TypeSet};

#[test]
fn type_sets_hold_what_was_added() {
    let none = TypeSet::empty();
    let all = TypeSet::any();
    let kinds = [
        JsonType::Array,
        JsonType::Boolean,
        JsonType::Fractional,
        JsonType::Integer,
        JsonType::Null,
        JsonType::Object,
        JsonType::String,
    ];
    let mut grown = none;
    for kind in kinds {
        assert!(!none.contains(kind));
        assert!(all.contains(kind));
        let one = none.with(kind);
        for other in kinds {
            assert_eq!(one.contains(other), other == kind);
        }
        grown = grown.with(kind);
    }
    assert_eq!(grown, all);
    assert_eq!(none.with(JsonType::Null).with(JsonType::Null), none.with(JsonType::Null));
}
