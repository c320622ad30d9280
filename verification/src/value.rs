//! Host values, and the numbers that stand for primitives in a guest call.

use crate::types::{lemma_struct_view, PrimitiveKind, Schema, TypeDescriptor};
use vstd::prelude::*;

verus! {

/// A host value. A floating-point value is held as its IEEE-754 bit pattern;
/// a struct holds the values of its fields in declared order.
#[derive(Debug, PartialEq, Eq)]
pub enum Value {
    Bool(bool),
    U8(u8),
    I16(i16),
    U16(u16),
    I32(i32),
    U32(u32),
    I64(i64),
    U64(u64),
    F32(u32),
    F64(u64),
    Struct(Vec<Value>),
}

/// The mathematical model of a host value.
pub enum Datum {
    Bool(bool),
    U8(u8),
    I16(i16),
    U16(u16),
    I32(i32),
    U32(u32),
    I64(i64),
    U64(u64),
    F32(u32),
    F64(u64),
    Struct(Seq<Datum>),
}

/// The model of a value.
pub open spec fn datum_of(value: Value) -> Datum
    decreases value, 0nat,
{
    match value {
        Value::Bool(b) => Datum::Bool(b),
        Value::U8(x) => Datum::U8(x),
        Value::I16(x) => Datum::I16(x),
        Value::U16(x) => Datum::U16(x),
        Value::I32(x) => Datum::I32(x),
        Value::U32(x) => Datum::U32(x),
        Value::I64(x) => Datum::I64(x),
        Value::U64(x) => Datum::U64(x),
        Value::F32(bits) => Datum::F32(bits),
        Value::F64(bits) => Datum::F64(bits),
        Value::Struct(members) => Datum::Struct(data_of(members@)),
    }
}

/// The models of a list of values, in order.
pub open spec fn data_of(values: Seq<Value>) -> Seq<Datum>
    decreases values, values.len(),
{
    if values.len() == 0 {
        Seq::empty()
    } else {
        data_of(values.drop_last()).push(datum_of(values.last()))
    }
}

impl View for Value {
    type V = Datum;

    open spec fn view(&self) -> Datum {
        datum_of(*self)
    }
}

/// The models of a list of values are the models of its members.
pub proof fn lemma_data_of(values: Seq<Value>)
    ensures
        data_of(values).len() == values.len(),
        forall|i: int| 0 <= i < values.len() ==> #[trigger] data_of(values)[i] == values[i]@,
    decreases values.len(),
{
    if values.len() > 0 {
        lemma_data_of(values.drop_last());
    }
}

impl Datum {
    /// The kind of a primitive value; a struct has none.
    pub open spec fn kind(self) -> Option<PrimitiveKind> {
        match self {
            Datum::Bool(_) => Some(PrimitiveKind::Bool),
            Datum::U8(_) => Some(PrimitiveKind::U8),
            Datum::I16(_) => Some(PrimitiveKind::I16),
            Datum::U16(_) => Some(PrimitiveKind::U16),
            Datum::I32(_) => Some(PrimitiveKind::I32),
            Datum::U32(_) => Some(PrimitiveKind::U32),
            Datum::I64(_) => Some(PrimitiveKind::I64),
            Datum::U64(_) => Some(PrimitiveKind::U64),
            Datum::F32(_) => Some(PrimitiveKind::F32),
            Datum::F64(_) => Some(PrimitiveKind::F64),
            Datum::Struct(_) => None,
        }
    }

    /// The value is one of the schema: a primitive of the schema's kind, or a
    /// struct with one value of the right type for each field, in order.
    pub open spec fn conforms(self, schema: Schema) -> bool
        decreases schema,
    {
        match schema {
            Schema::Primitive { kind, size, align } => self.kind() == Some(kind),
            Schema::Struct { name, fields } => self matches Datum::Struct(members)
                && members.len() == fields.len() && forall|i: int|
                0 <= i < fields.len() ==> members[i].conforms((#[trigger] fields[i]).ty),
        }
    }

    /// The number that stands for a primitive value when it is handed to a
    /// guest: `false` and `true` as 0 and 1, an integer as its two's-complement
    /// bit pattern in the width of its kind, a float's bit pattern as it is;
    /// the bits above the width are zero. A struct has none, and gives 0.
    pub open spec fn raw(self) -> u64 {
        match self {
            Datum::Bool(b) => if b {
                1
            } else {
                0
            },
            Datum::U8(x) => x as u64,
            Datum::I16(x) => (x as u16) as u64,
            Datum::U16(x) => x as u64,
            Datum::I32(x) => (x as u32) as u64,
            Datum::U32(x) => x as u64,
            Datum::I64(x) => x as u64,
            Datum::U64(x) => x,
            Datum::F32(bits) => bits as u64,
            Datum::F64(bits) => bits,
            Datum::Struct(_) => 0,
        }
    }

    /// The primitive value of `kind` that the low bits of `raw` stand for; any
    /// number but 0 stands for `true`.
    pub open spec fn from_raw(kind: PrimitiveKind, raw: u64) -> Datum {
        match kind {
            PrimitiveKind::Bool => Datum::Bool(raw != 0),
            PrimitiveKind::U8 => Datum::U8(raw as u8),
            PrimitiveKind::I16 => Datum::I16((raw as u16) as i16),
            PrimitiveKind::U16 => Datum::U16(raw as u16),
            PrimitiveKind::I32 => Datum::I32((raw as u32) as i32),
            PrimitiveKind::U32 => Datum::U32(raw as u32),
            PrimitiveKind::I64 => Datum::I64(raw as i64),
            PrimitiveKind::U64 => Datum::U64(raw),
            PrimitiveKind::F32 => Datum::F32(raw as u32),
            PrimitiveKind::F64 => Datum::F64(raw),
        }
    }
}

/// `raw` is a number that a value of `kind` is handed over as: 0 or 1 for a
/// boolean, and otherwise no bit set above the width of the kind.
pub open spec fn canonical(kind: PrimitiveKind, raw: u64) -> bool {
    match kind {
        PrimitiveKind::Bool => raw <= 1,
        PrimitiveKind::U8 => raw <= 0xff,
        PrimitiveKind::I16 | PrimitiveKind::U16 => raw <= 0xffff,
        PrimitiveKind::I32 | PrimitiveKind::U32 | PrimitiveKind::F32 => raw <= 0xffff_ffff,
        PrimitiveKind::I64 | PrimitiveKind::U64 | PrimitiveKind::F64 => true,
    }
}

/// A primitive value comes back from the number that stands for it, and that number is canonical.
pub proof fn lemma_from_raw_of_raw(value: Datum)
    requires
        value.kind() is Some,
    ensures
        Datum::from_raw(value.kind()->0, value.raw()) == value,
        canonical(value.kind()->0, value.raw()),
{
    match value {
        Datum::I16(x) => {
            assert((x as u16) as i16 == x) by (bit_vector);
        },
        Datum::I32(x) => {
            assert((x as u32) as i32 == x) by (bit_vector);
        },
        Datum::I64(x) => {
            assert((x as u64) as i64 == x) by (bit_vector);
        },
        _ => {},
    }
}

/// A canonical number comes back from the value that it stands for.
pub proof fn lemma_raw_of_from_raw(kind: PrimitiveKind, raw: u64)
    requires
        canonical(kind, raw),
    ensures
        Datum::from_raw(kind, raw).raw() == raw,
        Datum::from_raw(kind, raw).kind() == Some(kind),
{
    match kind {
        PrimitiveKind::I16 => {
            let y = raw as u16;
            assert((y as i16) as u16 == y) by (bit_vector);
        },
        PrimitiveKind::I32 => {
            let y = raw as u32;
            assert((y as i32) as u32 == y) by (bit_vector);
        },
        PrimitiveKind::I64 => {
            assert((raw as i64) as u64 == raw) by (bit_vector);
        },
        _ => {},
    }
}

impl Value {
    /// The kind of a primitive value; `None` for a struct.
    pub fn kind(&self) -> (k: Option<PrimitiveKind>)
        ensures
            k == self@.kind(),
    {
        match self {
            Value::Bool(_) => Some(PrimitiveKind::Bool),
            Value::U8(_) => Some(PrimitiveKind::U8),
            Value::I16(_) => Some(PrimitiveKind::I16),
            Value::U16(_) => Some(PrimitiveKind::U16),
            Value::I32(_) => Some(PrimitiveKind::I32),
            Value::U32(_) => Some(PrimitiveKind::U32),
            Value::I64(_) => Some(PrimitiveKind::I64),
            Value::U64(_) => Some(PrimitiveKind::U64),
            Value::F32(_) => Some(PrimitiveKind::F32),
            Value::F64(_) => Some(PrimitiveKind::F64),
            Value::Struct(_) => None,
        }
    }

    /// The number that stands for the value when it is handed to a guest.
    pub fn to_raw(&self) -> (raw: u64)
        ensures
            raw == self@.raw(),
    {
        match self {
            Value::Bool(b) => if *b {
                1
            } else {
                0
            },
            Value::U8(x) => *x as u64,
            Value::I16(x) => (#[verifier::truncate] (*x as u16)) as u64,
            Value::U16(x) => *x as u64,
            Value::I32(x) => (#[verifier::truncate] (*x as u32)) as u64,
            Value::U32(x) => *x as u64,
            Value::I64(x) => #[verifier::truncate] (*x as u64),
            Value::U64(x) => *x,
            Value::F32(bits) => *bits as u64,
            Value::F64(bits) => *bits,
            Value::Struct(_) => 0,
        }
    }

    /// The primitive value of `kind` that the low bits of `raw` stand for.
    pub fn from_raw(kind: PrimitiveKind, raw: u64) -> (value: Value)
        ensures
            value@ == Datum::from_raw(kind, raw),
    {
        match kind {
            PrimitiveKind::Bool => Value::Bool(raw != 0),
            PrimitiveKind::U8 => Value::U8(#[verifier::truncate] (raw as u8)),
            PrimitiveKind::I16 => Value::I16(
                #[verifier::truncate] ((#[verifier::truncate] (raw as u16)) as i16),
            ),
            PrimitiveKind::U16 => Value::U16(#[verifier::truncate] (raw as u16)),
            PrimitiveKind::I32 => Value::I32(
                #[verifier::truncate] ((#[verifier::truncate] (raw as u32)) as i32),
            ),
            PrimitiveKind::U32 => Value::U32(#[verifier::truncate] (raw as u32)),
            PrimitiveKind::I64 => Value::I64(#[verifier::truncate] (raw as i64)),
            PrimitiveKind::U64 => Value::U64(raw),
            PrimitiveKind::F32 => Value::F32(#[verifier::truncate] (raw as u32)),
            PrimitiveKind::F64 => Value::F64(raw),
        }
    }

    /// Whether the value is one of the descriptor's type.
    #[verifier::loop_isolation(false)]
    pub fn conforms_to(&self, descriptor: &TypeDescriptor) -> (r: bool)
        ensures
            r == self@.conforms(descriptor@),
        decreases descriptor,
    {
        match descriptor {
            TypeDescriptor::Primitive { kind, size, align } => match self.kind() {
                Some(own) => own == *kind,
                None => false,
            },
            TypeDescriptor::Struct { name, fields } => match self {
                Value::Struct(members) => {
                    proof {
                        lemma_struct_view(*descriptor);
                        lemma_data_of(members@);
                    }
                    if members.len() != fields.len() {
                        return false;
                    }
                    let mut i: usize = 0;
                    while i < fields.len()
                        invariant
                            i <= fields.len(),
                            forall|j: int|
                                0 <= j < i ==> (#[trigger] members@[j])@.conforms(fields@[j].ty@),
                        decreases fields.len() - i,
                    {
                        if !members[i].conforms_to(&fields[i].ty) {
                            assert(!self@->Struct_0[i as int].conforms(
                                descriptor@->fields[i as int].ty,
                            ));
                            return false;
                        }
                        i += 1;
                    }
                    assert forall|j: int| 0 <= j < descriptor@->fields.len() implies self@->Struct_0[j].conforms(
                        (#[trigger] descriptor@->fields[j]).ty,
                    ) by {
                        assert(members@[j]@.conforms(fields@[j].ty@));
                    }
                    true
                },
                _ => false,
            },
        }
    }
}

impl Clone for Value {
    #[verifier::loop_isolation(false)]
    fn clone(&self) -> (r: Value)
        ensures
            r@ == self@,
        decreases self,
    {
        match self {
            Value::Bool(b) => Value::Bool(*b),
            Value::U8(x) => Value::U8(*x),
            Value::I16(x) => Value::I16(*x),
            Value::U16(x) => Value::U16(*x),
            Value::I32(x) => Value::I32(*x),
            Value::U32(x) => Value::U32(*x),
            Value::I64(x) => Value::I64(*x),
            Value::U64(x) => Value::U64(*x),
            Value::F32(bits) => Value::F32(*bits),
            Value::F64(bits) => Value::F64(*bits),
            Value::Struct(members) => {
                let mut copies: Vec<Value> = Vec::new();
                let mut i: usize = 0;
                while i < members.len()
                    invariant
                        i <= members.len(),
                        copies@.len() == i,
                        forall|j: int| 0 <= j < i ==> (#[trigger] copies@[j])@ == members@[j]@,
                    decreases members.len() - i,
                {
                    copies.push(members[i].clone());
                    i += 1;
                }
                proof {
                    lemma_data_of(members@);
                    lemma_data_of(copies@);
                    assert(data_of(copies@) =~= data_of(members@));
                }
                Value::Struct(copies)
            },
        }
    }
}

} // verus!
