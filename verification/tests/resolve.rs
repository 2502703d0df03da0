use projection::pointer::Pointer;
use projection::resolve::{
    apply_overrides, build_projections, insert_locations, Override, Projections, ShapeLocation,
    Warning,
};
use projection::shape::{Exists, JsonType, Shape, TypeInfo, TypeSet};
use projection::table::ProjectionTable;

fn shape(kind: JsonType) -> Shape {
    Shape { type_: TypeSet::empty().with(kind) }
}

fn location(pointer: &str, kind: JsonType, exists: Exists) -> ShapeLocation {
    ShapeLocation { pointer: pointer.to_string(), shape: shape(kind), exists }
}

fn mapped(field: &str, pointer: &str, located: Option<(Shape, Exists)>) -> Override {
    Override { field: field.to_string(), pointer: pointer.to_string(), located }
}

fn info(pointer: &str, kind: JsonType, must_exist: bool) -> TypeInfo {
    TypeInfo {
        possible_types: Some(TypeSet::empty().with(kind)),
        must_exist,
        target_location: Pointer::from_str(pointer),
    }
}

fn schema_locations() -> Vec<ShapeLocation> {
    vec![
        location("", JsonType::Object, Exists::Must),
        location("/bee", JsonType::Object, Exists::Must),
        location("/bee/loc", JsonType::String, Exists::May),
        location("/bee/rock", JsonType::Object, Exists::May),
        location("/bee/rock/flower", JsonType::Boolean, Exists::May),
        location("/locationa", JsonType::Integer, Exists::Must),
    ]
}

fn config_overrides() -> Vec<Override> {
    vec![
        mapped("BeeLoc", "/locationa", Some((shape(JsonType::Integer), Exists::Must))),
        mapped("fieldA", "/locationa", Some((shape(JsonType::Integer), Exists::Must))),
        mapped("fieldB", "/b/loc", None),
    ]
}

#[test]
fn projections_are_built() {
    let result = build_projections(&schema_locations(), &config_overrides());
    let Projections { table, warnings } = result;

    let locationa = info("/locationa", JsonType::Integer, true);
    assert_eq!(table.get("beeloc"), Some(&locationa));
    assert_eq!(table.get("beeloc"), table.get("locationa"));
    assert_eq!(table.get("fielda"), Some(&locationa));
    assert_eq!(
        table.get("fieldb"),
        Some(&TypeInfo {
            possible_types: None,
            must_exist: false,
            target_location: Pointer::from_str("/b/loc"),
        })
    );
    assert_eq!(
        warnings,
        vec![Warning { field: "fieldB".to_string(), pointer: "/b/loc".to_string() }]
    );

    let bee = info("/bee", JsonType::Object, true);
    let loc = info("/bee/loc", JsonType::String, false);
    let rock = info("/bee/rock", JsonType::Object, false);
    let flower = info("/bee/rock/flower", JsonType::Boolean, false);
    let expected: Vec<(&str, &TypeInfo)> = vec![
        ("/bee", &bee),
        ("/bee/loc", &loc),
        ("/bee/rock", &rock),
        ("/bee/rock/flower", &flower),
        ("/locationa", &locationa),
        ("bee", &bee),
        ("bee loc", &loc),
        ("bee rock", &rock),
        ("bee rock flower", &flower),
        ("bee/loc", &loc),
        ("bee/rock", &rock),
        ("bee/rock/flower", &flower),
        ("bee_loc", &loc),
        ("bee_rock", &rock),
        ("bee_rock_flower", &flower),
        ("beeloc", &locationa),
        ("beerock", &rock),
        ("beerockflower", &flower),
    ];
    let mut expected: Vec<(String, TypeInfo)> = expected
        .into_iter()
        .map(|(field, info)| (field.to_string(), info.clone()))
        .collect();
    expected.push(("fielda".to_string(), locationa.clone()));
    expected.push((
        "fieldb".to_string(),
        TypeInfo::unknown(Pointer::from_str("/b/loc")),
    ));
    expected.push(("locationa".to_string(), locationa.clone()));
    assert_eq!(table.len(), expected.len());
    assert_eq!(table.into_entries(), expected);
}

#[test]
fn absent_schema_gives_only_the_overrides() {
    let root = vec![ShapeLocation {
        pointer: String::new(),
        shape: Shape { type_: TypeSet::any() },
        exists: Exists::Must,
    }];
    let none = build_projections(&root, &Vec::new());
    assert_eq!(none.table.len(), 0);
    assert_eq!(none.warnings, Vec::new());

    let overrides = vec![
        mapped("Name", "/name", None),
        mapped("AGE", "/age", Some((shape(JsonType::Integer), Exists::Implicit))),
    ];
    let built = build_projections(&root, &overrides);
    assert_eq!(
        built.warnings,
        vec![Warning { field: "Name".to_string(), pointer: "/name".to_string() }]
    );
    assert_eq!(
        built.table.into_entries(),
        vec![
            ("age".to_string(), info("/age", JsonType::Integer, false)),
            ("name".to_string(), TypeInfo::unknown(Pointer::from_str("/name"))),
        ]
    );
}

#[test]
fn building_twice_gives_the_same_table() {
    let first = build_projections(&schema_locations(), &config_overrides());
    let second = build_projections(&schema_locations(), &config_overrides());
    assert_eq!(first, second);
    assert_eq!(format!("{:?}", first), format!("{:?}", second));
}

#[test]
fn later_location_wins_a_shared_name() {
    let mut table = ProjectionTable::new();
    insert_locations(
        &mut table,
        &vec![
            location("/a_b", JsonType::String, Exists::Must),
            location("/a/b", JsonType::Integer, Exists::May),
        ],
    );
    assert_eq!(table.get("a_b"), Some(&info("/a/b", JsonType::Integer, false)));
    assert_eq!(table.get("a b"), Some(&info("/a/b", JsonType::Integer, false)));
    assert_eq!(table.get("/a_b"), Some(&info("/a_b", JsonType::String, true)));
    assert_eq!(table.get("ab"), Some(&info("/a/b", JsonType::Integer, false)));
}

#[test]
fn later_override_wins_a_shared_name() {
    let mut table = ProjectionTable::new();
    let warnings = apply_overrides(
        &mut table,
        &vec![
            mapped("Straße", "/a", Some((shape(JsonType::String), Exists::Must))),
            mapped("STRASSE", "/b", None),
        ],
    );
    assert_eq!(table.len(), 1);
    assert_eq!(table.get("strasse"), Some(&TypeInfo::unknown(Pointer::from_str("/b"))));
    assert_eq!(table.get("Straße"), None);
    assert_eq!(
        warnings,
        vec![Warning { field: "STRASSE".to_string(), pointer: "/b".to_string() }]
    );
}

#[test]
fn only_must_is_required() {
    let here = Pointer::from_str("/x");
    for (exists, required) in [
        (Exists::Must, true),
        (Exists::May, false),
        (Exists::Implicit, false),
        (Exists::Cannot, false),
    ] {
        let built = TypeInfo::from_shape(here.clone(), &shape(JsonType::Null), exists);
        assert_eq!(built.must_exist, required);
        assert_eq!(built.possible_types, Some(TypeSet::empty().with(JsonType::Null)));
        assert_eq!(built.target_location, here);
    }
    let empty = TypeInfo::from_shape(here.clone(), &Shape { type_: TypeSet::empty() }, Exists::May);
    assert_eq!(empty.possible_types, Some(TypeSet::empty()));
    assert_ne!(empty.possible_types, TypeInfo::unknown(here).possible_types);
}
