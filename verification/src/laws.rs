use crate::collation::collation;
use crate::names::{collated, field_name_variants};
use crate::pointer::pointer_tokens;
use crate::resolve::{
    is_field_name_of, location_info, override_info, resolution, unresolved, with_locations,
    with_overrides, OverrideView, ShapeLocationView, WarningView,
};
use crate::shape::TypeInfoView;
use crate::table::{same_map_same_entries, ProjectionTable};
use vstd::prelude::*;

verus! {

/// After the overrides, a field name that no override collates to leads
/// where it led before.
pub proof fn overrides_leave_other_names(
    table: Map<Seq<char>, TypeInfoView>,
    overrides: Seq<OverrideView>,
    name: Seq<char>,
)
    requires
        forall|i: int| 0 <= i < overrides.len() ==> collation(overrides[i].field) != name,
    ensures
        with_overrides(table, overrides).contains_key(name) == table.contains_key(name),
        table.contains_key(name) ==> with_overrides(table, overrides)[name] == table[name],
    decreases overrides.len(),
{
    if overrides.len() > 0 {
        let before = overrides.drop_last();
        assert forall|i: int| 0 <= i < before.len() implies collation(before[i].field)
            != name by {
            assert(before[i] == overrides[i]);
        }
        overrides_leave_other_names(table, before, name);
        assert(collation(overrides.last().field) != name);
    }
}

/// An override takes precedence: its collated field name is in the table
/// and leads to what the override says, whatever the schema gave for that
/// name, unless a later override collates to the same name.
pub proof fn override_takes_precedence(
    locations: Seq<ShapeLocationView>,
    overrides: Seq<OverrideView>,
    i: int,
)
    requires
        0 <= i < overrides.len(),
        forall|j: int|
            i < j < overrides.len() ==> collation(overrides[j].field) != collation(
                overrides[i].field,
            ),
    ensures
        resolution(locations, overrides).contains_key(collation(overrides[i].field)),
        resolution(locations, overrides)[collation(overrides[i].field)] == override_info(
            overrides[i],
        ),
    decreases overrides.len(),
{
    if i < overrides.len() - 1 {
        let before = overrides.drop_last();
        assert(before[i] == overrides[i]);
        assert forall|j: int| i < j < before.len() implies collation(before[j].field)
            != collation(before[i].field) by {
            assert(before[j] == overrides[j]);
        }
        override_takes_precedence(locations, before, i);
        assert(collation(overrides.last().field) != collation(overrides[i].field));
    }
}

/// What the schema gives stays where no override takes its place: a field
/// name that no override collates to is in the table just when some
/// location gives it, and then leads where the locations alone lead.
pub proof fn schema_entries_stay(
    locations: Seq<ShapeLocationView>,
    overrides: Seq<OverrideView>,
    name: Seq<char>,
)
    requires
        forall|i: int| 0 <= i < overrides.len() ==> collation(overrides[i].field) != name,
    ensures
        resolution(locations, overrides).contains_key(name) == with_locations(
            Map::empty(),
            locations,
        ).contains_key(name),
        resolution(locations, overrides).contains_key(name) ==> resolution(
            locations,
            overrides,
        )[name] == with_locations(Map::empty(), locations)[name],
{
    overrides_leave_other_names(with_locations(Map::empty(), locations), overrides, name);
}

/// Among the locations a later one wins: a field name derived from a
/// location leads to it unless a later location gives the same name.
pub proof fn later_location_wins(
    table: Map<Seq<char>, TypeInfoView>,
    locations: Seq<ShapeLocationView>,
    i: int,
    name: Seq<char>,
)
    requires
        0 <= i < locations.len(),
        is_field_name_of(name, pointer_tokens(locations[i].pointer)),
        forall|j: int|
            i < j < locations.len() ==> !is_field_name_of(
                name,
                pointer_tokens(#[trigger] locations[j].pointer),
            ),
    ensures
        with_locations(table, locations).contains_key(name),
        with_locations(table, locations)[name] == location_info(locations[i]),
    decreases locations.len(),
{
    if i < locations.len() - 1 {
        let before = locations.drop_last();
        assert(before[i] == locations[i]);
        assert forall|j: int| i < j < before.len() implies !is_field_name_of(
            name,
            pointer_tokens(#[trigger] before[j].pointer),
        ) by {
            assert(before[j] == locations[j]);
        }
        later_location_wins(table, before, i, name);
        assert(!is_field_name_of(name, pointer_tokens(locations[locations.len() - 1].pointer)));
    }
}

/// Every field name that the locations put into an empty table is derived
/// from one of them.
pub proof fn schema_names_are_derived(locations: Seq<ShapeLocationView>, name: Seq<char>)
    requires
        with_locations(Map::empty(), locations).contains_key(name),
    ensures
        exists|i: int|
            0 <= i < locations.len() && is_field_name_of(
                name,
                pointer_tokens(#[trigger] locations[i].pointer),
            ),
    decreases locations.len(),
{
    if locations.len() > 0 {
        let n = locations.len() - 1;
        let before = locations.drop_last();
        if is_field_name_of(name, pointer_tokens(locations[n].pointer)) {
        } else {
            schema_names_are_derived(before, name);
            let i = choose|i: int|
                0 <= i < before.len() && is_field_name_of(
                    name,
                    pointer_tokens(#[trigger] before[i].pointer),
                );
            assert(before[i] == locations[i]);
            assert(is_field_name_of(name, pointer_tokens(locations[i].pointer)));
        }
    }
}

/// Every key of the table is a collated text, never a raw one: it is the
/// collated field name of an override, or the collated form of a variant
/// of a location.
pub proof fn keys_are_collated(
    locations: Seq<ShapeLocationView>,
    overrides: Seq<OverrideView>,
    key: Seq<char>,
)
    requires
        resolution(locations, overrides).contains_key(key),
    ensures
        exists|text: Seq<char>| key == collation(text),
        (exists|i: int| 0 <= i < overrides.len() && key == collation(#[trigger] overrides[i].field))
            || (exists|i: int|
            0 <= i < locations.len() && is_field_name_of(
                key,
                pointer_tokens(#[trigger] locations[i].pointer),
            )),
{
    if exists|i: int| 0 <= i < overrides.len() && key == collation(#[trigger] overrides[i].field) {
        let i = choose|i: int|
            0 <= i < overrides.len() && key == collation(#[trigger] overrides[i].field);
        assert(key == collation(overrides[i].field));
    } else {
        schema_entries_stay(locations, overrides, key);
        schema_names_are_derived(locations, key);
        let i = choose|i: int|
            0 <= i < locations.len() && is_field_name_of(
                key,
                pointer_tokens(#[trigger] locations[i].pointer),
            );
        let variants = field_name_variants(pointer_tokens(locations[i].pointer));
        let all = collated(variants);
        let k = choose|k: int| 0 <= k < all.len() && all[k] == key;
        assert(key == collation(variants[k]));
    }
}

/// The keys that the overrides put into an empty table are their collated
/// field names and nothing else.
pub proof fn override_keys(overrides: Seq<OverrideView>, key: Seq<char>)
    ensures
        with_overrides(Map::empty(), overrides).contains_key(key) <==> exists|i: int|
            0 <= i < overrides.len() && key == collation(#[trigger] overrides[i].field),
    decreases overrides.len(),
{
    if overrides.len() > 0 {
        let n = overrides.len() - 1;
        let before = overrides.drop_last();
        override_keys(before, key);
        if exists|i: int| 0 <= i < before.len() && key == collation(#[trigger] before[i].field) {
            let i = choose|i: int|
                0 <= i < before.len() && key == collation(#[trigger] before[i].field);
            assert(before[i] == overrides[i]);
            assert(key == collation(overrides[i].field));
        }
        if exists|i: int|
            0 <= i < overrides.len() && key == collation(#[trigger] overrides[i].field) {
            let i = choose|i: int|
                0 <= i < overrides.len() && key == collation(#[trigger] overrides[i].field);
            if i < n {
                assert(before[i] == overrides[i]);
                assert(key == collation(before[i].field));
            }
        }
    }
}

/// A schema that says nothing has the root as its one location, and the
/// root has no field names. So where every location is the root, the table
/// holds the overrides and nothing else: its keys are their collated field
/// names.
pub proof fn root_alone_gives_only_overrides(
    locations: Seq<ShapeLocationView>,
    overrides: Seq<OverrideView>,
)
    requires
        forall|i: int| 0 <= i < locations.len() ==> (#[trigger] locations[i]).pointer.len() == 0,
    ensures
        with_locations(Map::empty(), locations) == Map::<Seq<char>, TypeInfoView>::empty(),
        resolution(locations, overrides) == with_overrides(Map::empty(), overrides),
        forall|key: Seq<char>|
            resolution(locations, overrides).contains_key(key) <==> exists|i: int|
                0 <= i < overrides.len() && key == collation(#[trigger] overrides[i].field),
    decreases locations.len(),
{
    if locations.len() > 0 {
        let before = locations.drop_last();
        assert forall|i: int| 0 <= i < before.len() implies (#[trigger] before[i]).pointer.len()
            == 0 by {
            assert(before[i] == locations[i]);
        }
        root_alone_gives_only_overrides(before, overrides);
        let last = locations.last();
        assert(last == locations[locations.len() - 1]);
        assert(pointer_tokens(last.pointer).len() == 0);
        assert(collated(field_name_variants(pointer_tokens(last.pointer))).len() == 0);
        assert(with_locations(Map::empty(), locations) =~= Map::<
            Seq<char>,
            TypeInfoView,
        >::empty());
    }
    assert forall|key: Seq<char>|
        resolution(locations, overrides).contains_key(key) <==> exists|i: int|
            0 <= i < overrides.len() && key == collation(#[trigger] overrides[i].field) by {
        override_keys(overrides, key);
    }
}

/// Building is deterministic: two tables built from the same locations and
/// overrides hold the same entries in the same order.
pub proof fn same_inputs_same_table(
    locations: Seq<ShapeLocationView>,
    overrides: Seq<OverrideView>,
    first: ProjectionTable,
    second: ProjectionTable,
)
    requires
        first.wf(),
        second.wf(),
        first@ == resolution(locations, overrides),
        second@ == resolution(locations, overrides),
    ensures
        first.fields() == second.fields(),
        first.infos() == second.infos(),
{
    same_map_same_entries(first, second);
}

/// There is one warning for each override without a location in the
/// schema, and none for the others: the warnings are those overrides, in
/// order, each with its field name and its pointer as the user wrote them.
pub proof fn one_warning_for_each_unresolved(overrides: Seq<OverrideView>)
    ensures
        unresolved(overrides) == overrides.filter(
            |entry: OverrideView| entry.located is None,
        ).map_values(
            |entry: OverrideView| WarningView { field: entry.field, pointer: entry.pointer },
        ),
    decreases overrides.len(),
{
    let missing = |entry: OverrideView| entry.located is None;
    let warning = |entry: OverrideView| WarningView { field: entry.field, pointer: entry.pointer };
    reveal(Seq::filter);
    if overrides.len() > 0 {
        let before = overrides.drop_last();
        one_warning_for_each_unresolved(before);
        if missing(overrides.last()) {
            assert(before.filter(missing).push(overrides.last()).map_values(warning)
                =~= before.filter(missing).map_values(warning).push(warning(overrides.last())));
        }
    } else {
        assert(overrides.filter(missing).map_values(warning) =~= Seq::<WarningView>::empty());
    }
}

} // verus!
