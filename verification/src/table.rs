use crate::names::{sorted_run_counts, sorted_runs_agree, strictly_sorted};
use crate::shape::{TypeInfo, TypeInfoView};
use crate::text::{
    chars_of, precedes, precedes_is_irreflexive, precedes_is_total, precedes_is_transitive,
    text_precedes,
};
use vstd::prelude::*;

verus! {

/// The table from collated field names to what is known about the locations
/// they stand for. Each field name occurs once; the entries are kept in
/// ascending order of field name, so two tables that map the same names to
/// the same things hold the same entries in the same order.
#[derive(Debug, PartialEq, Eq)]
pub struct ProjectionTable {
    entries: Vec<(String, TypeInfo)>,
}

/// The place of `field` in `fields`, where it occurs.
pub open spec fn place_of(fields: Seq<Seq<char>>, field: Seq<char>) -> int {
    choose|i: int| 0 <= i < fields.len() && fields[i] == field
}

/// The map that a run of entries stands for.
pub open spec fn map_of(fields: Seq<Seq<char>>, infos: Seq<TypeInfoView>) -> Map<
    Seq<char>,
    TypeInfoView,
> {
    Map::new(|field: Seq<char>| fields.contains(field), |field: Seq<char>| infos[place_of(fields, field)])
}

/// In an ascending run each text has one place.
pub proof fn place_is_unique(fields: Seq<Seq<char>>, i: int)
    requires
        strictly_sorted(fields),
        0 <= i < fields.len(),
    ensures
        place_of(fields, fields[i]) == i,
{
    let j = place_of(fields, fields[i]);
    precedes_is_irreflexive(fields[i]);
    if j < i {
        assert(precedes(fields[j], fields[i]));
    } else if i < j {
        assert(precedes(fields[i], fields[j]));
    }
}

impl ProjectionTable {
    /// The field names of the entries, in the order in which they are kept.
    pub closed spec fn fields(&self) -> Seq<Seq<char>> {
        Seq::new(self.entries@.len(), |i: int| self.entries@[i].0@)
    }

    /// What the entries hold, in the order in which they are kept.
    pub closed spec fn infos(&self) -> Seq<TypeInfoView> {
        Seq::new(self.entries@.len(), |i: int| self.entries@[i].1@)
    }

    /// The field names ascend, so none occurs twice.
    #[verifier::type_invariant]
    pub closed spec fn wf(&self) -> bool {
        strictly_sorted(self.fields())
    }

    /// How the entries and the map that the table stands for hang together.
    pub proof fn entries_are_the_map(&self)
        requires
            self.wf(),
        ensures
            strictly_sorted(self.fields()),
            self.fields().len() == self.infos().len(),
            self@ == map_of(self.fields(), self.infos()),
            forall|i: int|
                0 <= i < self.fields().len() ==> self@.contains_key(#[trigger] self.fields()[i])
                    && self@[self.fields()[i]] == self.infos()[i],
            forall|field: Seq<char>|
                self@.contains_key(field) <==> self.fields().contains(field),
    {
        assert forall|i: int| 0 <= i < self.fields().len() implies self@.contains_key(
            #[trigger] self.fields()[i],
        ) && self@[self.fields()[i]] == self.infos()[i] by {
            place_is_unique(self.fields(), i);
        }
    }

    /// The table without entries.
    pub fn new() -> (table: ProjectionTable)
        ensures
            table.wf(),
            table@ == Map::<Seq<char>, TypeInfoView>::empty(),
    {
        let table = ProjectionTable { entries: Vec::new() };
        assert(table@ =~= Map::<Seq<char>, TypeInfoView>::empty());
        table
    }

    /// The number of entries.
    pub fn len(&self) -> (n: usize)
        ensures
            n == self.fields().len(),
            n == self@.dom().len(),
    {
        proof {
            use_type_invariant(self);
            self.entries_are_the_map();
            sorted_run_counts(self.fields());
            assert(self@.dom() =~= self.fields().to_set());
        }
        self.entries.len()
    }

    /// The first place whose field name does not come before `field`.
    fn search(entries: &Vec<(String, TypeInfo)>, field: &Vec<char>) -> (at: usize)
        requires
            strictly_sorted(Seq::new(entries@.len(), |i: int| entries@[i].0@)),
        ensures
            at <= entries@.len(),
            forall|k: int| 0 <= k < at ==> precedes(#[trigger] entries@[k].0@, field@),
            forall|k: int|
                at <= k < entries@.len() ==> !precedes(#[trigger] entries@[k].0@, field@),
    {
        let ghost fields = Seq::new(entries@.len(), |i: int| entries@[i].0@);
        let mut at: usize = 0;
        while at < entries.len()
            invariant
                at <= entries.len(),
                fields == Seq::new(entries@.len(), |i: int| entries@[i].0@),
                strictly_sorted(fields),
                forall|k: int| 0 <= k < at ==> precedes(#[trigger] entries@[k].0@, field@),
            decreases entries.len() - at,
        {
            let here = chars_of(entries[at].0.as_str());
            if !text_precedes(&here, field) {
                proof {
                    assert forall|k: int| at <= k < entries@.len() implies !precedes(
                        #[trigger] entries@[k].0@,
                        field@,
                    ) by {
                        if k > at && precedes(entries@[k].0@, field@) {
                            assert(precedes(fields[at as int], fields[k]));
                            precedes_is_transitive(fields[at as int], fields[k], field@);
                        }
                    }
                }
                return at;
            }
            at = at + 1;
        }
        at
    }

    /// What the table holds for `field`, if anything.
    pub fn get(&self, field: &str) -> (found: Option<&TypeInfo>)
        ensures
            match found {
                Some(info) => self@.contains_key(field@) && info@ == self@[field@],
                None => !self@.contains_key(field@),
            },
    {
        proof {
            use_type_invariant(self);
            self.entries_are_the_map();
        }
        let key = chars_of(field);
        let at = Self::search(&self.entries, &key);
        let ghost fields = self.fields();
        if at < self.entries.len() {
            let here = chars_of(self.entries[at].0.as_str());
            if !text_precedes(&key, &here) {
                proof {
                    precedes_is_total(key@, here@);
                    assert(fields[at as int] == field@);
                }
                return Some(&self.entries[at].1);
            }
        }
        proof {
            if fields.contains(field@) {
                let k = choose|k: int| 0 <= k < fields.len() && fields[k] == field@;
                precedes_is_irreflexive(field@);
                if k < at {
                    assert(precedes(self.entries@[k].0@, key@));
                } else if k > at {
                    assert(precedes(fields[at as int], fields[k]));
                }
            }
        }
        None
    }

    /// Puts `info` under `field`, in place of what was there.
    pub fn insert(&mut self, field: String, info: TypeInfo)
        ensures
            final(self).wf(),
            final(self)@ == old(self)@.insert(field@, info@),
    {
        proof {
            use_type_invariant(&*self);
            self.entries_are_the_map();
        }
        let ghost before = *self;
        let ghost fields = self.fields();
        let ghost infos = self.infos();
        let mut entries: Vec<(String, TypeInfo)> = Vec::new();
        std::mem::swap(&mut entries, &mut self.entries);
        let key = chars_of(field.as_str());
        let at = Self::search(&entries, &key);
        let mut present = false;
        if at < entries.len() {
            let here = chars_of(entries[at].0.as_str());
            present = !text_precedes(&key, &here);
            proof {
                precedes_is_total(key@, here@);
            }
        }
        let ghost name = field@;
        let ghost value = info@;
        if present {
            entries.set(at, (field, info));
        } else {
            entries.insert(at, (field, info));
        }
        let ghost new_fields = Seq::new(entries@.len(), |i: int| entries@[i].0@);
        let ghost new_infos = Seq::new(entries@.len(), |i: int| entries@[i].1@);
        proof {
            if present {
                assert(new_fields =~= fields);
                assert(new_infos =~= infos.update(at as int, value));
            } else {
                assert(new_fields =~= fields.insert(at as int, name));
                assert(new_infos =~= infos.insert(at as int, value));
                assert forall|k: int| at <= k < fields.len() implies precedes(
                    name,
                    #[trigger] fields[k],
                ) by {
                    if k > at {
                        precedes_is_transitive(name, fields[at as int], fields[k]);
                    }
                }
                assert forall|i: int, j: int| 0 <= i < j < new_fields.len() implies precedes(
                    new_fields[i],
                    new_fields[j],
                ) by {
                    if j < at {
                    } else if j == at {
                    } else if i < at {
                        precedes_is_transitive(fields[i], name, fields[j - 1]);
                    } else if i == at {
                    } else {
                    }
                }
            }
            assert(strictly_sorted(new_fields));
            assert(map_of(new_fields, new_infos) =~= map_of(fields, infos).insert(name, value)) by {
                assert forall|k: int| 0 <= k < fields.len() implies place_of(
                    fields,
                    #[trigger] fields[k],
                ) == k by {
                    place_is_unique(fields, k);
                }
                assert forall|k: int| 0 <= k < new_fields.len() implies place_of(
                    new_fields,
                    #[trigger] new_fields[k],
                ) == k by {
                    place_is_unique(new_fields, k);
                }
                assert forall|f: Seq<char>| new_fields.contains(f) <==> (fields.contains(f) || f
                    == name) by {
                    if new_fields.contains(f) {
                        let k = choose|k: int| 0 <= k < new_fields.len() && new_fields[k] == f;
                        if present {
                        } else if k < at {
                            assert(fields[k] == f);
                        } else if k > at {
                            assert(fields[k - 1] == f);
                        }
                    }
                    if fields.contains(f) {
                        let k = choose|k: int| 0 <= k < fields.len() && fields[k] == f;
                        if present {
                            assert(new_fields[k] == f);
                        } else if k < at {
                            assert(new_fields[k] == f);
                        } else {
                            assert(new_fields[k + 1] == f);
                        }
                    }
                    if f == name {
                        assert(new_fields[at as int] == f);
                    }
                }
                assert forall|f: Seq<char>| new_fields.contains(f) implies map_of(
                    new_fields,
                    new_infos,
                )[f] == map_of(fields, infos).insert(name, value)[f] by {
                    let k = choose|k: int| 0 <= k < new_fields.len() && new_fields[k] == f;
                    assert(place_of(new_fields, new_fields[k]) == k);
                    if f != name {
                        if present {
                            assert(fields[k] == f);
                            assert(place_of(fields, fields[k]) == k);
                        } else if k < at {
                            assert(fields[k] == f);
                            assert(place_of(fields, fields[k]) == k);
                        } else {
                            assert(fields[k - 1] == f);
                            assert(place_of(fields, fields[k - 1]) == k - 1);
                        }
                    } else {
                        assert(new_fields[at as int] == name);
                        assert(place_of(new_fields, new_fields[at as int]) == at);
                    }
                }
            }
        }
        self.entries = entries;
        proof {
            assert(self.fields() == new_fields);
            assert(self.infos() == new_infos);
            self.entries_are_the_map();
        }
    }

    /// The entries, in ascending order of field name.
    pub fn into_entries(self) -> (entries: Vec<(String, TypeInfo)>)
        ensures
            Seq::new(entries@.len(), |i: int| entries@[i].0@) == self.fields(),
            Seq::new(entries@.len(), |i: int| entries@[i].1@) == self.infos(),
    {
        self.entries
    }
}

impl View for ProjectionTable {
    type V = Map<Seq<char>, TypeInfoView>;

    closed spec fn view(&self) -> Map<Seq<char>, TypeInfoView> {
        map_of(self.fields(), self.infos())
    }
}

/// Tables that stand for the same map hold the same entries in the same
/// order.
pub proof fn same_map_same_entries(a: ProjectionTable, b: ProjectionTable)
    requires
        a.wf(),
        b.wf(),
        a@ == b@,
    ensures
        a.fields() == b.fields(),
        a.infos() == b.infos(),
{
    a.entries_are_the_map();
    b.entries_are_the_map();
    assert forall|text: Seq<char>| a.fields().contains(text) <==> b.fields().contains(text) by {
        assert(a@.contains_key(text) <==> b@.contains_key(text));
    }
    sorted_runs_agree(a.fields(), b.fields());
    assert forall|i: int| 0 <= i < a.infos().len() implies a.infos()[i] == b.infos()[i] by {
        assert(a@[a.fields()[i]] == a.infos()[i]);
        assert(b@[b.fields()[i]] == b.infos()[i]);
    }
    assert(a.infos() =~= b.infos());
}

} // verus!
