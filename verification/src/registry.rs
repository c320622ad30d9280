//! The registry of types, each under its name.

use crate::error::BridgeError;
use crate::types::{
    lemma_struct_view, FieldDescriptor, FieldSchema, PrimitiveKind, Schema, TypeDescriptor,
};
use vstd::prelude::*;

verus! {

impl PrimitiveKind {
    /// The name under which the kind is registered.
    pub open spec fn name(self) -> Seq<char> {
        match self {
            PrimitiveKind::Bool => "bool"@,
            PrimitiveKind::U8 => "u8"@,
            PrimitiveKind::I16 => "i16"@,
            PrimitiveKind::U16 => "u16"@,
            PrimitiveKind::I32 => "i32"@,
            PrimitiveKind::U32 => "u32"@,
            PrimitiveKind::I64 => "i64"@,
            PrimitiveKind::U64 => "u64"@,
            PrimitiveKind::F32 => "f32"@,
            PrimitiveKind::F64 => "f64"@,
        }
    }

    /// The name under which the kind is registered.
    pub fn registered_name(self) -> (name: String)
        ensures
            name@ == self.name(),
    {
        match self {
            PrimitiveKind::Bool => "bool".to_owned(),
            PrimitiveKind::U8 => "u8".to_owned(),
            PrimitiveKind::I16 => "i16".to_owned(),
            PrimitiveKind::U16 => "u16".to_owned(),
            PrimitiveKind::I32 => "i32".to_owned(),
            PrimitiveKind::U32 => "u32".to_owned(),
            PrimitiveKind::I64 => "i64".to_owned(),
            PrimitiveKind::U64 => "u64".to_owned(),
            PrimitiveKind::F32 => "f32".to_owned(),
            PrimitiveKind::F64 => "f64".to_owned(),
        }
    }
}

/// One field of a struct to be registered: its name and the registered name of its type.
#[derive(Debug, PartialEq, Eq)]
pub struct FieldDecl {
    pub name: String,
    pub declared_type: String,
}

struct Registered {
    name: String,
    descriptor: TypeDescriptor,
}

/// The registered types, each under its name.
pub struct Registry {
    entries: Vec<Registered>,
}

/// The names and schemas that a list of registrations holds.
spec fn map_of(entries: Seq<Registered>) -> Map<Seq<char>, Schema>
    decreases entries.len(),
{
    if entries.len() == 0 {
        Map::empty()
    } else {
        map_of(entries.drop_last()).insert(entries.last().name@, entries.last().descriptor@)
    }
}

proof fn lemma_map_of_absent(entries: Seq<Registered>, name: Seq<char>)
    requires
        forall|j: int| 0 <= j < entries.len() ==> (#[trigger] entries[j]).name@ != name,
    ensures
        !map_of(entries).contains_key(name),
    decreases entries.len(),
{
    if entries.len() > 0 {
        lemma_map_of_absent(entries.drop_last(), name);
    }
}

proof fn lemma_map_of_latest(entries: Seq<Registered>, i: int, name: Seq<char>)
    requires
        0 <= i < entries.len(),
        entries[i].name@ == name,
        forall|j: int| i < j < entries.len() ==> (#[trigger] entries[j]).name@ != name,
    ensures
        map_of(entries).contains_key(name),
        map_of(entries)[name] == entries[i].descriptor@,
    decreases entries.len(),
{
    if i < entries.len() - 1 {
        lemma_map_of_latest(entries.drop_last(), i, name);
    }
}

proof fn lemma_map_of_well_formed(entries: Seq<Registered>, name: Seq<char>)
    requires
        forall|j: int| 0 <= j < entries.len() ==> (#[trigger] entries[j]).descriptor@.well_formed(),
        map_of(entries).contains_key(name),
    ensures
        map_of(entries)[name].well_formed(),
    decreases entries.len(),
{
    if entries.len() > 0 {
        if entries.last().name@ != name {
            lemma_map_of_well_formed(entries.drop_last(), name);
        }
    }
}

/// The schema of a struct declared by name over the types registered in `known`.
pub open spec fn declared_struct(
    known: Map<Seq<char>, Schema>,
    name: Seq<char>,
    fields: Seq<FieldDecl>,
) -> Schema {
    Schema::Struct {
        name,
        fields: Seq::new(
            fields.len(),
            |i: int| FieldSchema { name: fields[i].name@, ty: known[fields[i].declared_type@] },
        ),
    }
}

impl View for Registry {
    type V = Map<Seq<char>, Schema>;

    closed spec fn view(&self) -> Map<Seq<char>, Schema> {
        map_of(self.entries@)
    }
}

impl Registry {
    /// Every registered descriptor is well formed.
    pub closed spec fn well_formed(&self) -> bool {
        forall|j: int|
            0 <= j < self.entries@.len() ==> (#[trigger] self.entries@[j]).descriptor@.well_formed()
    }

    /// Every schema found in a well-formed registry is well formed.
    pub proof fn lemma_registered_well_formed(&self, name: Seq<char>)
        requires
            self.well_formed(),
            self@.contains_key(name),
        ensures
            self@[name].well_formed(),
    {
        lemma_map_of_well_formed(self.entries@, name);
    }

    /// A registry with no type in it.
    pub fn new() -> (registry: Registry)
        ensures
            registry.well_formed(),
            registry@ == Map::<Seq<char>, Schema>::empty(),
    {
        Registry { entries: Vec::new() }
    }

    fn find(&self, name: &String) -> (r: Option<usize>)
        ensures
            r is Some <==> self@.contains_key(name@),
            r matches Some(i) ==> i < self.entries@.len() && self.entries@[i as int].descriptor@
                == self@[name@],
    {
        let mut i: usize = self.entries.len();
        while i > 0
            invariant
                i <= self.entries.len(),
                forall|j: int| i <= j < self.entries@.len() ==> (#[trigger] self.entries@[j]).name@ != name@,
            decreases i,
        {
            i -= 1;
            if self.entries[i].name == *name {
                proof {
                    lemma_map_of_latest(self.entries@, i as int, name@);
                }
                return Some(i);
            }
        }
        proof {
            lemma_map_of_absent(self.entries@, name@);
        }
        None
    }

    /// The descriptor registered under `name`; an unknown name is an unsupported type.
    pub fn lookup(&self, name: &str) -> (r: Result<TypeDescriptor, BridgeError>)
        ensures
            r is Ok <==> self@.contains_key(name@),
            r matches Ok(descriptor) ==> descriptor@ == self@[name@],
            r matches Err(e) ==> e == BridgeError::UnsupportedType,
    {
        let wanted: String = name.to_owned();
        match self.find(&wanted) {
            Some(i) => Ok(self.entries[i].descriptor.clone()),
            None => Err(BridgeError::UnsupportedType),
        }
    }

    /// Registers a primitive under the name of its kind, with its natural size and alignment.
    /// A kind that is registered already is refused as a duplicate.
    pub fn register_primitive(&mut self, kind: PrimitiveKind) -> (r: Result<(), BridgeError>)
        requires
            old(self).well_formed(),
        ensures
            final(self).well_formed(),
            r is Err <==> old(self)@.contains_key(kind.name()),
            r matches Err(e) ==> e == BridgeError::DuplicateType && final(self)@ == old(self)@,
            r is Ok ==> final(self)@ == old(self)@.insert(
                kind.name(),
                Schema::Primitive { kind, size: kind.width(), align: kind.width() },
            ),
    {
        let name: String = kind.registered_name();
        if self.find(&name).is_some() {
            return Err(BridgeError::DuplicateType);
        }
        self.entries.push(Registered { name, descriptor: TypeDescriptor::primitive(kind) });
        assert(self.entries@.drop_last() == old(self).entries@);
        Ok(())
    }

    /// Registers a struct under `name`, its fields in the order given, each
    /// field's type found by its registered name.
    ///
    /// A name that is registered already is refused as a duplicate; otherwise a
    /// field whose type is not registered makes the struct an unsupported type.
    /// A refused registration leaves the registry as it was.
    pub fn register_struct(&mut self, name: &str, fields: &Vec<FieldDecl>) -> (r: Result<
        (),
        BridgeError,
    >)
        requires
            old(self).well_formed(),
        ensures
            final(self).well_formed(),
            r is Ok <==> !old(self)@.contains_key(name@) && forall|i: int|
                0 <= i < fields@.len() ==> old(self)@.contains_key(
                    (#[trigger] fields@[i]).declared_type@,
                ),
            r is Ok ==> final(self)@ == old(self)@.insert(
                name@,
                declared_struct(old(self)@, name@, fields@),
            ),
            r matches Err(e) ==> final(self)@ == old(self)@ && e == if old(self)@.contains_key(
                name@,
            ) {
                BridgeError::DuplicateType
            } else {
                BridgeError::UnsupportedType
            },
    {
        let owned: String = name.to_owned();
        if self.find(&owned).is_some() {
            return Err(BridgeError::DuplicateType);
        }
        let mut members: Vec<FieldDescriptor> = Vec::new();
        let mut i: usize = 0;
        while i < fields.len()
            invariant
                i <= fields.len(),
                *self == *old(self),
                self.well_formed(),
                !self@.contains_key(name@),
                members@.len() == i,
                forall|j: int|
                    0 <= j < i ==> self@.contains_key((#[trigger] fields@[j]).declared_type@),
                forall|j: int|
                    0 <= j < i ==> (#[trigger] members@[j])@ == declared_struct(
                        self@,
                        name@,
                        fields@,
                    )->fields[j],
            decreases fields.len() - i,
        {
            match self.find(&fields[i].declared_type) {
                None => {
                    return Err(BridgeError::UnsupportedType);
                },
                Some(k) => {
                    proof {
                        lemma_map_of_well_formed(self.entries@, fields@[i as int].declared_type@);
                    }
                    members.push(
                        FieldDescriptor {
                            name: fields[i].name.clone(),
                            ty: self.entries[k].descriptor.clone(),
                        },
                    );
                },
            }
            i += 1;
        }
        let descriptor = TypeDescriptor::Struct { name: name.to_owned(), fields: members };
        proof {
            lemma_struct_view(descriptor);
            assert(descriptor@->fields =~= declared_struct(old(self)@, name@, fields@)->fields);
            assert forall|j: int| 0 <= j < descriptor@->fields.len() implies (
            #[trigger] descriptor@->fields[j]).ty.well_formed() by {
                lemma_map_of_well_formed(old(self).entries@, fields@[j].declared_type@);
            }
        }
        self.entries.push(Registered { name: owned, descriptor });
        assert(self.entries@.drop_last() == old(self).entries@);
        Ok(())
    }
}

} // verus!
