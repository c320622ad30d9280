//! Type descriptors: primitives and structs, and their mathematical model.

use vstd::prelude::*;

verus! {

/// The primitive kinds a guest can exchange with the host.
///
/// Floating-point kinds are carried as their IEEE-754 bit patterns.
#[derive(Clone, Copy, Debug, PartialEq, Eq, Structural)]
pub enum PrimitiveKind {
    Bool,
    U8,
    I16,
    U16,
    I32,
    U32,
    I64,
    U64,
    F32,
    F64,
}

impl PrimitiveKind {
    /// The natural width of the kind in bytes.
    pub open spec fn width(self) -> nat {
        match self {
            PrimitiveKind::Bool | PrimitiveKind::U8 => 1,
            PrimitiveKind::I16 | PrimitiveKind::U16 => 2,
            PrimitiveKind::I32 | PrimitiveKind::U32 | PrimitiveKind::F32 => 4,
            PrimitiveKind::I64 | PrimitiveKind::U64 | PrimitiveKind::F64 => 8,
        }
    }

    /// The natural width of the kind in bytes; its natural alignment is the same number.
    pub fn byte_width(self) -> (w: u32)
        ensures
            w == self.width(),
    {
        match self {
            PrimitiveKind::Bool | PrimitiveKind::U8 => 1,
            PrimitiveKind::I16 | PrimitiveKind::U16 => 2,
            PrimitiveKind::I32 | PrimitiveKind::U32 | PrimitiveKind::F32 => 4,
            PrimitiveKind::I64 | PrimitiveKind::U64 | PrimitiveKind::F64 => 8,
        }
    }
}

/// The mathematical model of a type descriptor.
pub enum Schema {
    Primitive { kind: PrimitiveKind, size: nat, align: nat },
    Struct { name: Seq<char>, fields: Seq<FieldSchema> },
}

/// The mathematical model of one field of a struct descriptor.
pub struct FieldSchema {
    pub name: Seq<char>,
    pub ty: Schema,
}

/// One named field of a struct descriptor.
#[derive(Debug)]
pub struct FieldDescriptor {
    pub name: String,
    pub ty: TypeDescriptor,
}

/// A primitive or a struct, the latter as an ordered list of named fields.
#[derive(Debug)]
pub enum TypeDescriptor {
    Primitive { kind: PrimitiveKind, size: u32, align: u32 },
    Struct { name: String, fields: Vec<FieldDescriptor> },
}

/// The model of a descriptor: names as character sequences, sizes as natural numbers.
pub open spec fn schema_of(descriptor: TypeDescriptor) -> Schema
    decreases descriptor, 0nat,
{
    match descriptor {
        TypeDescriptor::Primitive { kind, size, align } => Schema::Primitive {
            kind,
            size: size as nat,
            align: align as nat,
        },
        TypeDescriptor::Struct { name, fields } => Schema::Struct {
            name: name@,
            fields: schemas_of(fields@),
        },
    }
}

/// The models of a list of fields, in order.
pub open spec fn schemas_of(fields: Seq<FieldDescriptor>) -> Seq<FieldSchema>
    decreases fields, fields.len(),
{
    if fields.len() == 0 {
        Seq::empty()
    } else {
        schemas_of(fields.drop_last()).push(
            FieldSchema { name: fields.last().name@, ty: schema_of(fields.last().ty) },
        )
    }
}

impl View for FieldDescriptor {
    type V = FieldSchema;

    open spec fn view(&self) -> FieldSchema {
        FieldSchema { name: self.name@, ty: schema_of(self.ty) }
    }
}

impl View for TypeDescriptor {
    type V = Schema;

    open spec fn view(&self) -> Schema {
        schema_of(*self)
    }
}

/// The models of a list of fields are the models of its members.
pub proof fn lemma_schemas_of(fields: Seq<FieldDescriptor>)
    ensures
        schemas_of(fields).len() == fields.len(),
        forall|i: int| 0 <= i < fields.len() ==> #[trigger] schemas_of(fields)[i] == fields[i]@,
    decreases fields.len(),
{
    if fields.len() > 0 {
        lemma_schemas_of(fields.drop_last());
    }
}

/// What the view of a struct descriptor is, field by field.
pub proof fn lemma_struct_view(descriptor: TypeDescriptor)
    requires
        descriptor is Struct,
    ensures
        descriptor@ is Struct,
        descriptor@->name == descriptor->name@,
        descriptor@->fields.len() == descriptor->fields@.len(),
        forall|i: int|
            0 <= i < descriptor->fields@.len() ==> #[trigger] descriptor@->fields[i]
                == descriptor->fields@[i]@,
        forall|i: int|
            0 <= i < descriptor->fields@.len() ==> (#[trigger] descriptor@->fields[i]).ty
                == descriptor->fields@[i].ty@,
{
    lemma_schemas_of(descriptor->fields@);
}

impl TypeDescriptor {
    /// The descriptor of a primitive, with the natural size and alignment of its kind.
    pub fn primitive(kind: PrimitiveKind) -> (d: TypeDescriptor)
        ensures
            d@ == (Schema::Primitive { kind, size: kind.width(), align: kind.width() }),
    {
        let w: u32 = kind.byte_width();
        TypeDescriptor::Primitive { kind, size: w, align: w }
    }

    /// Whether two descriptors describe the same type: same kinds, names and fields, in order.
    #[verifier::loop_isolation(false)]
    pub fn same(&self, other: &TypeDescriptor) -> (r: bool)
        ensures
            r == (self@ == other@),
        decreases self,
    {
        match self {
            TypeDescriptor::Primitive { kind, size, align } => match other {
                TypeDescriptor::Primitive { kind: kind2, size: size2, align: align2 } => {
                    *kind == *kind2 && *size == *size2 && *align == *align2
                },
                TypeDescriptor::Struct { .. } => false,
            },
            TypeDescriptor::Struct { name, fields } => match other {
                TypeDescriptor::Primitive { .. } => false,
                TypeDescriptor::Struct { name: name2, fields: fields2 } => {
                    proof {
                        lemma_struct_view(*self);
                        lemma_struct_view(*other);
                    }
                    if !(*name == *name2) || fields.len() != fields2.len() {
                        return false;
                    }
                    let mut i: usize = 0;
                    while i < fields.len()
                        invariant
                            i <= fields.len(),
                            forall|j: int| 0 <= j < i ==> (#[trigger] fields@[j])@ == fields2@[j]@,
                        decreases fields.len() - i,
                    {
                        if !(fields[i].name == fields2[i].name) || !fields[i].ty.same(
                            &fields2[i].ty,
                        ) {
                            assert(self@->fields[i as int] != other@->fields[i as int]);
                            return false;
                        }
                        i += 1;
                    }
                    assert(self@->fields =~= other@->fields);
                    true
                },
            },
        }
    }
}

impl Clone for FieldDescriptor {
    fn clone(&self) -> (r: FieldDescriptor)
        ensures
            r@ == self@,
        decreases self,
    {
        FieldDescriptor { name: self.name.clone(), ty: self.ty.clone() }
    }
}

impl Clone for TypeDescriptor {
    #[verifier::loop_isolation(false)]
    fn clone(&self) -> (r: TypeDescriptor)
        ensures
            r@ == self@,
        decreases self,
    {
        match self {
            TypeDescriptor::Primitive { kind, size, align } => TypeDescriptor::Primitive {
                kind: *kind,
                size: *size,
                align: *align,
            },
            TypeDescriptor::Struct { name, fields } => {
                let mut copies: Vec<FieldDescriptor> = Vec::new();
                let mut i: usize = 0;
                while i < fields.len()
                    invariant
                        i <= fields.len(),
                        copies@.len() == i,
                        forall|j: int| 0 <= j < i ==> (#[trigger] copies@[j])@ == fields@[j]@,
                    decreases fields.len() - i,
                {
                    copies.push(fields[i].clone());
                    i += 1;
                }
                let r = TypeDescriptor::Struct { name: name.clone(), fields: copies };
                proof {
                    lemma_struct_view(*self);
                    lemma_struct_view(r);
                    assert(r@->fields =~= self@->fields);
                }
                r
            },
        }
    }
}

} // verus!
