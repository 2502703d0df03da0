use crate::pointer::{Pointer, TokenView};
use vstd::prelude::*;

verus! {

/// The kinds of value that a document can hold.
#[derive(Debug, Clone, Copy, PartialEq, Eq, Structural)]
pub enum JsonType {
    Array,
    Boolean,
    Fractional,
    Integer,
    Null,
    Object,
    String,
}

/// A set of kinds of value. The empty set admits no value at all.
#[derive(Debug, Clone, Copy, PartialEq, Eq, Structural)]
pub struct TypeSet {
    pub array: bool,
    pub boolean: bool,
    pub fractional: bool,
    pub integer: bool,
    pub null: bool,
    pub object: bool,
    pub string: bool,
}

impl TypeSet {
    /// Whether the set holds `kind`.
    pub open spec fn has(self, kind: JsonType) -> bool {
        match kind {
            JsonType::Array => self.array,
            JsonType::Boolean => self.boolean,
            JsonType::Fractional => self.fractional,
            JsonType::Integer => self.integer,
            JsonType::Null => self.null,
            JsonType::Object => self.object,
            JsonType::String => self.string,
        }
    }

    /// The set that holds no kind.
    pub fn empty() -> (set: TypeSet)
        ensures
            forall|kind: JsonType| !set.has(kind),
    {
        TypeSet {
            array: false,
            boolean: false,
            fractional: false,
            integer: false,
            null: false,
            object: false,
            string: false,
        }
    }

    /// The set that holds every kind.
    pub fn any() -> (set: TypeSet)
        ensures
            forall|kind: JsonType| set.has(kind),
    {
        TypeSet {
            array: true,
            boolean: true,
            fractional: true,
            integer: true,
            null: true,
            object: true,
            string: true,
        }
    }

    /// The set with `kind` added.
    pub fn with(self, kind: JsonType) -> (set: TypeSet)
        ensures
            forall|other: JsonType| set.has(other) == (self.has(other) || other == kind),
    {
        let mut set = self;
        match kind {
            JsonType::Array => { set.array = true; },
            JsonType::Boolean => { set.boolean = true; },
            JsonType::Fractional => { set.fractional = true; },
            JsonType::Integer => { set.integer = true; },
            JsonType::Null => { set.null = true; },
            JsonType::Object => { set.object = true; },
            JsonType::String => { set.string = true; },
        }
        set
    }

    /// Whether the set holds `kind`.
    pub fn contains(self, kind: JsonType) -> (held: bool)
        ensures
            held == self.has(kind),
    {
        match kind {
            JsonType::Array => self.array,
            JsonType::Boolean => self.boolean,
            JsonType::Fractional => self.fractional,
            JsonType::Integer => self.integer,
            JsonType::Null => self.null,
            JsonType::Object => self.object,
            JsonType::String => self.string,
        }
    }
}

/// Whether a location is present in the documents that a schema admits.
#[derive(Debug, Clone, Copy, PartialEq, Eq, Structural)]
pub enum Exists {
    /// The location is in every such document.
    Must,
    /// The location may be there or not.
    May,
    /// The schema says nothing of the location, and so allows it.
    Implicit,
    /// The location is in no such document.
    Cannot,
}

/// What shape inference knows about the values at one location.
#[derive(Debug, Clone, Copy, PartialEq, Eq, Structural)]
pub struct Shape {
    /// The kinds of value that may stand there.
    pub type_: TypeSet,
}

/// What is known about one location of a document.
#[derive(Debug, PartialEq, Eq)]
pub struct TypeInfo {
    /// The kinds of value that may stand at the location; `None` where
    /// nothing is known, which is not the empty set.
    pub possible_types: Option<TypeSet>,
    /// Whether every document has the location.
    pub must_exist: bool,
    /// The location itself.
    pub target_location: Pointer,
}

/// A `TypeInfo` with its location as a sequence of tokens.
pub struct TypeInfoView {
    pub possible_types: Option<TypeSet>,
    pub must_exist: bool,
    pub target_location: Seq<TokenView>,
}

impl View for TypeInfo {
    type V = TypeInfoView;

    open spec fn view(&self) -> TypeInfoView {
        TypeInfoView {
            possible_types: self.possible_types,
            must_exist: self.must_exist,
            target_location: self.target_location@,
        }
    }
}

/// What is known of a location that shape inference found: the kinds of its
/// shape, and that it must exist only where inference says `Must`.
pub open spec fn known(location: Seq<TokenView>, shape: Shape, exists: Exists) -> TypeInfoView {
    TypeInfoView {
        possible_types: Some(shape.type_),
        must_exist: exists == Exists::Must,
        target_location: location,
    }
}

/// What stands for a location of which the schema says nothing: no kinds
/// known, and no need to exist.
pub open spec fn unknown(location: Seq<TokenView>) -> TypeInfoView {
    TypeInfoView { possible_types: None, must_exist: false, target_location: location }
}

impl Clone for TypeInfo {
    fn clone(&self) -> (copy: TypeInfo)
        ensures
            copy@ == self@,
    {
        TypeInfo {
            possible_types: self.possible_types,
            must_exist: self.must_exist,
            target_location: self.target_location.clone(),
        }
    }
}

impl TypeInfo {
    /// What is known of `target_location`, given the shape found there.
    pub fn from_shape(target_location: Pointer, shape: &Shape, exists: Exists) -> (info: TypeInfo)
        ensures
            info@ == known(target_location@, *shape, exists),
    {
        TypeInfo {
            target_location,
            must_exist: exists == Exists::Must,
            possible_types: Some(shape.type_),
        }
    }

    /// The placeholder for a location of which the schema says nothing.
    pub fn unknown(target_location: Pointer) -> (info: TypeInfo)
        ensures
            info@ == unknown(target_location@),
    {
        TypeInfo { target_location, must_exist: false, possible_types: None }
    }
}

} // verus!
