use crate::collation::{collate, collation};
use crate::names::{collated, field_name_variants, field_names_of};
use crate::pointer::{pointer_tokens, Pointer, TokenView};
use crate::shape::{known, unknown, Exists, Shape, TypeInfo, TypeInfoView};
use crate::table::ProjectionTable;
use crate::text::views;
use vstd::prelude::*;

verus! {

/// One location that shape inference reached in a schema, as it reports it.
#[derive(Debug, PartialEq, Eq)]
pub struct ShapeLocation {
    /// The pointer to the location, as text.
    pub pointer: String,
    /// The shape found there.
    pub shape: Shape,
    /// Whether the location is present.
    pub exists: Exists,
}

/// A `ShapeLocation` with its pointer as a sequence of characters.
pub struct ShapeLocationView {
    pub pointer: Seq<char>,
    pub shape: Shape,
    pub exists: Exists,
}

impl View for ShapeLocation {
    type V = ShapeLocationView;

    open spec fn view(&self) -> ShapeLocationView {
        ShapeLocationView { pointer: self.pointer@, shape: self.shape, exists: self.exists }
    }
}

/// A field that the user maps to a location, with what shape inference
/// found when asked about that location.
#[derive(Debug, PartialEq, Eq)]
pub struct Override {
    /// The field name, as the user wrote it.
    pub field: String,
    /// The pointer to the location, as text.
    pub pointer: String,
    /// The shape at the location and whether it is present; `None` where
    /// the schema has no such location.
    pub located: Option<(Shape, Exists)>,
}

/// An `Override` with its texts as sequences of characters.
pub struct OverrideView {
    pub field: Seq<char>,
    pub pointer: Seq<char>,
    pub located: Option<(Shape, Exists)>,
}

impl View for Override {
    type V = OverrideView;

    open spec fn view(&self) -> OverrideView {
        OverrideView { field: self.field@, pointer: self.pointer@, located: self.located }
    }
}

/// An override whose location the schema does not have.
#[derive(Debug, PartialEq, Eq)]
pub struct Warning {
    /// The field name, as the user wrote it.
    pub field: String,
    /// The pointer that was not found, as the user wrote it.
    pub pointer: String,
}

/// A `Warning` with its texts as sequences of characters.
pub struct WarningView {
    pub field: Seq<char>,
    pub pointer: Seq<char>,
}

impl View for Warning {
    type V = WarningView;

    open spec fn view(&self) -> WarningView {
        WarningView { field: self.field@, pointer: self.pointer@ }
    }
}

/// The finished table, with one warning for each override that was not
/// found in the schema, in the order of the overrides.
#[derive(Debug, PartialEq, Eq)]
pub struct Projections {
    pub table: ProjectionTable,
    pub warnings: Vec<Warning>,
}

/// The views of a run of locations.
pub open spec fn location_views(locations: Seq<ShapeLocation>) -> Seq<ShapeLocationView> {
    Seq::new(locations.len(), |i: int| locations[i]@)
}

/// The views of a run of overrides.
pub open spec fn override_views(overrides: Seq<Override>) -> Seq<OverrideView> {
    Seq::new(overrides.len(), |i: int| overrides[i]@)
}

/// The views of a run of warnings.
pub open spec fn warning_views(warnings: Seq<Warning>) -> Seq<WarningView> {
    Seq::new(warnings.len(), |i: int| warnings[i]@)
}

/// Whether `name` is one of the field names derived from a location.
pub open spec fn is_field_name_of(name: Seq<char>, tokens: Seq<TokenView>) -> bool {
    collated(field_name_variants(tokens)).contains(name)
}

/// The table with `info` under each of `names`, and otherwise as it was.
pub open spec fn with_names(
    table: Map<Seq<char>, TypeInfoView>,
    names: Seq<Seq<char>>,
    info: TypeInfoView,
) -> Map<Seq<char>, TypeInfoView> {
    Map::new(
        |name: Seq<char>| table.contains_key(name) || names.contains(name),
        |name: Seq<char>|
            if names.contains(name) {
                info
            } else {
                table[name]
            },
    )
}

/// What the schema says of a location that shape inference reached.
pub open spec fn location_info(location: ShapeLocationView) -> TypeInfoView {
    known(pointer_tokens(location.pointer), location.shape, location.exists)
}

/// The table after one location: each field name derived from it now leads
/// to that location, whatever it led to before.
pub open spec fn with_location(
    table: Map<Seq<char>, TypeInfoView>,
    location: ShapeLocationView,
) -> Map<Seq<char>, TypeInfoView> {
    with_names(
        table,
        collated(field_name_variants(pointer_tokens(location.pointer))),
        location_info(location),
    )
}

/// The table after the locations, taken in order: a later one wins a field
/// name that an earlier one also gives.
pub open spec fn with_locations(
    table: Map<Seq<char>, TypeInfoView>,
    locations: Seq<ShapeLocationView>,
) -> Map<Seq<char>, TypeInfoView>
    decreases locations.len(),
{
    if locations.len() == 0 {
        table
    } else {
        with_location(with_locations(table, locations.drop_last()), locations.last())
    }
}

/// What an override puts into the table: what the schema knows of its
/// location, or the placeholder where the schema has no such location.
pub open spec fn override_info(entry: OverrideView) -> TypeInfoView {
    match entry.located {
        Some((shape, exists)) => known(pointer_tokens(entry.pointer), shape, exists),
        None => unknown(pointer_tokens(entry.pointer)),
    }
}

/// The table after the overrides, taken in order: each is put under its
/// collated field name, in place of whatever was there.
pub open spec fn with_overrides(
    table: Map<Seq<char>, TypeInfoView>,
    overrides: Seq<OverrideView>,
) -> Map<Seq<char>, TypeInfoView>
    decreases overrides.len(),
{
    if overrides.len() == 0 {
        table
    } else {
        with_overrides(table, overrides.drop_last()).insert(
            collation(overrides.last().field),
            override_info(overrides.last()),
        )
    }
}

/// The overrides that were not found in the schema, in order.
pub open spec fn unresolved(overrides: Seq<OverrideView>) -> Seq<WarningView>
    decreases overrides.len(),
{
    if overrides.len() == 0 {
        Seq::empty()
    } else {
        let before = unresolved(overrides.drop_last());
        let last = overrides.last();
        if last.located is None {
            before.push(WarningView { field: last.field, pointer: last.pointer })
        } else {
            before
        }
    }
}

/// The table that a schema's locations and the user's overrides give: the
/// locations first, the overrides after them.
pub open spec fn resolution(
    locations: Seq<ShapeLocationView>,
    overrides: Seq<OverrideView>,
) -> Map<Seq<char>, TypeInfoView> {
    with_overrides(with_locations(Map::empty(), locations), overrides)
}

/// Enters each location under every field name derived from it.
pub fn insert_locations(table: &mut ProjectionTable, locations: &Vec<ShapeLocation>)
    ensures
        final(table).wf(),
        final(table)@ == with_locations(old(table)@, location_views(locations@)),
{
    let ghost all = location_views(locations@);
    let ghost start = table@;
    let mut i: usize = 0;
    assert(all.take(0).len() == 0);
    proof {
        use_type_invariant(&*table);
    }
    while i < locations.len()
        invariant
            i <= locations.len(),
            all == location_views(locations@),
            table.wf(),
            table@ == with_locations(start, all.take(i as int)),
        decreases locations.len() - i,
    {
        let location = &locations[i];
        let target = Pointer::from_str(location.pointer.as_str());
        let names = field_names_of(&target);
        let ghost before = table@;
        let ghost info = location_info(location@);
        let ghost wanted = collated(field_name_variants(target@));
        let mut k: usize = 0;
        assert(with_names(before, views(names@).take(0), info) =~= before);
        while k < names.len()
            invariant
                k <= names.len(),
                table.wf(),
                target@ == pointer_tokens(location.pointer@),
                info == location_info(location@),
                table@ == with_names(before, views(names@).take(k as int), info),
            decreases names.len() - k,
        {
            let entry = TypeInfo::from_shape(target.clone(), &location.shape, location.exists);
            let name = names[k].clone();
            proof {
                let seen = views(names@).take(k as int);
                let next = views(names@).take(k + 1);
                assert(next == seen.push(name@));
                assert forall|f: Seq<char>| next.contains(f) <==> (seen.contains(f) || f
                    == name@) by {
                    if next.contains(f) {
                        let j = choose|j: int| 0 <= j < next.len() && next[j] == f;
                        if j < k {
                            assert(seen[j] == f);
                        }
                    }
                    if seen.contains(f) {
                        let j = choose|j: int| 0 <= j < seen.len() && seen[j] == f;
                        assert(next[j] == f);
                    }
                    assert(next[k as int] == name@);
                }
                assert(with_names(before, next, info) =~= with_names(before, seen, info).insert(
                    name@,
                    info,
                ));
            }
            table.insert(name, entry);
            k = k + 1;
        }
        proof {
            assert(views(names@).take(k as int) == views(names@));
            assert(with_names(before, views(names@), info) =~= with_names(before, wanted, info));
            let next = all.take(i + 1);
            assert(next.drop_last() == all.take(i as int));
            assert(next.last() == location@);
        }
        i = i + 1;
    }
    assert(all.take(i as int) == all);
}

/// Enters each override under its collated field name, in place of what was
/// there, and reports those whose location the schema does not have.
pub fn apply_overrides(table: &mut ProjectionTable, overrides: &Vec<Override>) -> (warnings: Vec<
    Warning,
>)
    ensures
        final(table).wf(),
        final(table)@ == with_overrides(old(table)@, override_views(overrides@)),
        warning_views(warnings@) == unresolved(override_views(overrides@)),
{
    let ghost all = override_views(overrides@);
    let ghost start = table@;
    let mut warnings: Vec<Warning> = Vec::new();
    let mut i: usize = 0;
    assert(all.take(0).len() == 0);
    proof {
        use_type_invariant(&*table);
    }
    while i < overrides.len()
        invariant
            i <= overrides.len(),
            all == override_views(overrides@),
            table.wf(),
            table@ == with_overrides(start, all.take(i as int)),
            warning_views(warnings@) == unresolved(all.take(i as int)),
        decreases overrides.len() - i,
    {
        let entry = &overrides[i];
        let target = Pointer::from_str(entry.pointer.as_str());
        let ghost reported = warning_views(warnings@);
        let info = match entry.located {
            Some((shape, exists)) => TypeInfo::from_shape(target, &shape, exists),
            None => {
                warnings.push(
                    Warning { field: entry.field.clone(), pointer: entry.pointer.clone() },
                );
                TypeInfo::unknown(target)
            },
        };
        proof {
            let next = all.take(i + 1);
            assert(next.drop_last() == all.take(i as int));
            assert(next.last() == entry@);
            if entry.located is None {
                assert(warning_views(warnings@) == reported.push(
                    WarningView { field: entry.field@, pointer: entry.pointer@ },
                ));
            } else {
                assert(warning_views(warnings@) == reported);
            }
        }
        table.insert(collate(entry.field.as_str()), info);
        i = i + 1;
    }
    assert(all.take(i as int) == all);
    warnings
}

/// Builds the table of field names for a schema. `locations` are the
/// locations that shape inference reached in the schema, in the order of its
/// walk; for a schema that says nothing that is the root alone. Every
/// location is entered under the field names derived from it, and then every
/// override under its collated field name, so that an override wins over
/// what the schema gives. An override that was not found in the schema is
/// entered all the same, as a placeholder, and reported.
pub fn build_projections(locations: &Vec<ShapeLocation>, overrides: &Vec<Override>) -> (built:
    Projections)
    ensures
        built.table.wf(),
        built.table@ == resolution(location_views(locations@), override_views(overrides@)),
        warning_views(built.warnings@) == unresolved(override_views(overrides@)),
{
    let mut table = ProjectionTable::new();
    insert_locations(&mut table, locations);
    let warnings = apply_overrides(&mut table, overrides);
    Projections { table, warnings }
}

} // verus!
