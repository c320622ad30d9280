//! The exports of the guest modules that compute with integers, and the
//! descriptors of the structs that the guest modules exchange.

use crate::types::{
    lemma_struct_view, FieldDescriptor, FieldSchema, PrimitiveKind, Schema, TypeDescriptor,
};
use crate::value::{lemma_data_of, Datum, Value};
use crate::layout::{cursor_after, max_align, offset_of};
use vstd::prelude::*;

verus! {

/// The sum of two integers.
pub fn add(a: i64, b: i64) -> (sum: i64)
    requires
        i64::MIN <= a + b <= i64::MAX,
    ensures
        sum == a + b,
{
    a + b
}

/// The negation of a boolean.
pub fn not(x: bool) -> (r: bool)
    ensures
        r == !x,
{
    !x
}

/// No number from 2 up to, but not including, `n` divides `n`.
pub open spec fn has_no_proper_divisor(n: nat) -> bool {
    forall|k: nat| 2 <= k < n ==> #[trigger] (n % k) != 0
}

/// Whether no number between 1 and `n` divides `n`. By this test 0 and 1 pass too.
pub fn is_prime(n: u64) -> (r: bool)
    ensures
        r == has_no_proper_divisor(n as nat),
{
    let mut k: u64 = 2;
    while k < n
        invariant
            2 <= k,
            forall|d: nat| 2 <= d < k ==> #[trigger] (n as nat % d) != 0,
        decreases n - k,
    {
        if n % k == 0 {
            assert((n as nat) % (k as nat) == 0);
            return false;
        }
        k += 1;
    }
    true
}

/// The product of the numbers from 1 to `n`.
pub open spec fn factorial(n: nat) -> nat
    decreases n,
{
    if n <= 1 {
        1
    } else {
        n * factorial((n - 1) as nat)
    }
}

/// The factorial of 20 is the largest that 64 bits hold, and the smaller ones lie below it.
proof fn lemma_factorial_fits(n: nat)
    requires
        n <= 20,
    ensures
        factorial(n) <= 2432902008176640000,
        factorial(n) >= 1,
{
    assert(factorial(1) == 1);
    assert(factorial(2) == 2 * factorial(1));
    assert(factorial(3) == 3 * factorial(2));
    assert(factorial(4) == 4 * factorial(3));
    assert(factorial(5) == 5 * factorial(4));
    assert(factorial(6) == 6 * factorial(5));
    assert(factorial(7) == 7 * factorial(6));
    assert(factorial(8) == 8 * factorial(7));
    assert(factorial(9) == 9 * factorial(8));
    assert(factorial(10) == 10 * factorial(9));
    assert(factorial(11) == 11 * factorial(10));
    assert(factorial(12) == 12 * factorial(11));
    assert(factorial(13) == 13 * factorial(12));
    assert(factorial(14) == 14 * factorial(13));
    assert(factorial(15) == 15 * factorial(14));
    assert(factorial(16) == 16 * factorial(15));
    assert(factorial(17) == 17 * factorial(16));
    assert(factorial(18) == 18 * factorial(17));
    assert(factorial(19) == 19 * factorial(18));
    assert(factorial(20) == 20 * factorial(19));
}

/// The factorial of `n`, for the `n` whose factorial 64 bits hold.
pub fn fact(n: u64) -> (r: u64)
    requires
        1 <= n <= 20,
    ensures
        r == factorial(n as nat),
    decreases n,
{
    if n == 1 {
        return 1;
    }
    proof {
        lemma_factorial_fits(n as nat);
        lemma_factorial_fits((n - 1) as nat);
    }
    n * fact(n - 1)
}

/// The negation of a 32-bit integer.
pub fn neg32(x: i32) -> (r: i32)
    requires
        x != i32::MIN,
    ensures
        r == -x,
{
    -x
}

/// A struct of mixed primitives, with padding between its fields.
#[derive(Clone, Copy, Debug, PartialEq, Eq, Structural)]
pub struct Cornucopia {
    pub b: bool,
    pub n0: i16,
    pub n1: u8,
    pub n2: i64,
}

/// 42 where `b` is set, and the sum of the three numbers where it is not.
pub fn cornucopia(x: &Cornucopia) -> (r: i64)
    requires
        !x.b ==> i64::MIN <= x.n0 + x.n1 + x.n2 <= i64::MAX,
    ensures
        r == if x.b {
            42
        } else {
            x.n0 + x.n1 + x.n2
        },
{
    if x.b {
        return 42;
    }
    return x.n0 as i64 + x.n1 as i64 + x.n2;
}

/// The schema of a primitive with its natural size and alignment.
pub open spec fn natural(kind: PrimitiveKind) -> Schema {
    Schema::Primitive { kind, size: kind.width(), align: kind.width() }
}

/// The schema of a struct with the fields given.
pub open spec fn record(name: Seq<char>, fields: Seq<FieldSchema>) -> Schema {
    Schema::Struct { name, fields }
}

/// A field schema.
pub open spec fn member(name: Seq<char>, ty: Schema) -> FieldSchema {
    FieldSchema { name, ty }
}

/// `Vector2`: the 64-bit floats `x` and `y`.
pub open spec fn vector2_schema() -> Schema {
    record(
        "Vector2"@,
        seq![member("x"@, natural(PrimitiveKind::F64)), member("y"@, natural(PrimitiveKind::F64))],
    )
}

/// `Vector3`: the 64-bit floats `x`, `y` and `z`.
pub open spec fn vector3_schema() -> Schema {
    record(
        "Vector3"@,
        seq![
            member("x"@, natural(PrimitiveKind::F64)),
            member("y"@, natural(PrimitiveKind::F64)),
            member("z"@, natural(PrimitiveKind::F64)),
        ],
    )
}

/// `Cornucopia`: a boolean `b`, and the numbers `n0` of 16, `n1` of 8 and `n2` of 64 bits.
pub open spec fn cornucopia_schema() -> Schema {
    record(
        "Cornucopia"@,
        seq![
            member("b"@, natural(PrimitiveKind::Bool)),
            member("n0"@, natural(PrimitiveKind::I16)),
            member("n1"@, natural(PrimitiveKind::U8)),
            member("n2"@, natural(PrimitiveKind::I64)),
        ],
    )
}

/// `Baz`: one `Vector2`, `vec`.
pub open spec fn baz_schema() -> Schema {
    record("Baz"@, seq![member("vec"@, vector2_schema())])
}

/// `Bar`: a boolean `b`, a `Baz` `baz` and an unsigned 16-bit number `n`.
pub open spec fn bar_schema() -> Schema {
    record(
        "Bar"@,
        seq![
            member("b"@, natural(PrimitiveKind::Bool)),
            member("baz"@, baz_schema()),
            member("n"@, natural(PrimitiveKind::U16)),
        ],
    )
}

/// `Foo`: a boolean `b` and a `Bar` `bar`.
pub open spec fn foo_schema() -> Schema {
    record("Foo"@, seq![member("b"@, natural(PrimitiveKind::Bool)), member("bar"@, bar_schema())])
}

/// `Vector2` takes 16 bytes aligned to 8, `x` at 0 and `y` at 8.
pub proof fn lemma_vector2_layout()
    ensures
        vector2_schema().supported(),
        vector2_schema().size() == 16,
        vector2_schema().align() == 8,
        offset_of(vector2_schema()->fields, 0) == 0,
        offset_of(vector2_schema()->fields, 1) == 8,
{
    let f = vector2_schema()->fields;
    assert(f[0].ty.size() == 8 && f[0].ty.align() == 8);
    assert(f[1].ty.size() == 8 && f[1].ty.align() == 8);
    assert(f.len() == 2);
    assert forall|i: int| 0 <= i < f.len() implies (#[trigger] f[i]).ty.well_formed() by {
        if i == 0 {
            assert(f[0].ty.well_formed());
        }
        if i == 1 {
            assert(f[1].ty.well_formed());
        }
    }
    assert(cursor_after(f, 0) == 0);
    assert(max_align(f, 0) == 1);
    assert(cursor_after(f, 1) == 8);
    assert(max_align(f, 1) == 8);
    assert(cursor_after(f, 2) == 16);
    assert(max_align(f, 2) == 8);
}

/// `Vector3` takes 24 bytes aligned to 8, `x` at 0, `y` at 8 and `z` at 16.
pub proof fn lemma_vector3_layout()
    ensures
        vector3_schema().supported(),
        vector3_schema().size() == 24,
        vector3_schema().align() == 8,
        offset_of(vector3_schema()->fields, 0) == 0,
        offset_of(vector3_schema()->fields, 1) == 8,
        offset_of(vector3_schema()->fields, 2) == 16,
{
    let f = vector3_schema()->fields;
    assert(f[0].ty.size() == 8 && f[0].ty.align() == 8);
    assert(f[1].ty.size() == 8 && f[1].ty.align() == 8);
    assert(f[2].ty.size() == 8 && f[2].ty.align() == 8);
    assert(f.len() == 3);
    assert forall|i: int| 0 <= i < f.len() implies (#[trigger] f[i]).ty.well_formed() by {
        if i == 0 {
            assert(f[0].ty.well_formed());
        }
        if i == 1 {
            assert(f[1].ty.well_formed());
        }
        if i == 2 {
            assert(f[2].ty.well_formed());
        }
    }
    assert(cursor_after(f, 0) == 0);
    assert(max_align(f, 0) == 1);
    assert(cursor_after(f, 1) == 8);
    assert(max_align(f, 1) == 8);
    assert(cursor_after(f, 2) == 16);
    assert(max_align(f, 2) == 8);
    assert(cursor_after(f, 3) == 24);
    assert(max_align(f, 3) == 8);
}

/// `Cornucopia` takes 16 bytes aligned to 8: `b` at 0, `n0` at 2, `n1` at 4
/// and `n2` at 8, with padding behind `b` and behind `n1`.
pub proof fn lemma_cornucopia_layout()
    ensures
        cornucopia_schema().supported(),
        cornucopia_schema().size() == 16,
        cornucopia_schema().align() == 8,
        offset_of(cornucopia_schema()->fields, 0) == 0,
        offset_of(cornucopia_schema()->fields, 1) == 2,
        offset_of(cornucopia_schema()->fields, 2) == 4,
        offset_of(cornucopia_schema()->fields, 3) == 8,
{
    let f = cornucopia_schema()->fields;
    assert(f[0].ty.size() == 1 && f[0].ty.align() == 1);
    assert(f[1].ty.size() == 2 && f[1].ty.align() == 2);
    assert(f[2].ty.size() == 1 && f[2].ty.align() == 1);
    assert(f[3].ty.size() == 8 && f[3].ty.align() == 8);
    assert(f.len() == 4);
    assert forall|i: int| 0 <= i < f.len() implies (#[trigger] f[i]).ty.well_formed() by {
        if i == 0 {
            assert(f[0].ty.well_formed());
        }
        if i == 1 {
            assert(f[1].ty.well_formed());
        }
        if i == 2 {
            assert(f[2].ty.well_formed());
        }
        if i == 3 {
            assert(f[3].ty.well_formed());
        }
    }
    assert(cursor_after(f, 0) == 0);
    assert(max_align(f, 0) == 1);
    assert(cursor_after(f, 1) == 1);
    assert(max_align(f, 1) == 1);
    assert(cursor_after(f, 2) == 4);
    assert(max_align(f, 2) == 2);
    assert(cursor_after(f, 3) == 5);
    assert(max_align(f, 3) == 2);
    assert(cursor_after(f, 4) == 16);
    assert(max_align(f, 4) == 8);
}

/// `Baz` is laid out as the `Vector2` it holds: 16 bytes aligned to 8.
pub proof fn lemma_baz_layout()
    ensures
        baz_schema().supported(),
        baz_schema().size() == 16,
        baz_schema().align() == 8,
        offset_of(baz_schema()->fields, 0) == 0,
{
    lemma_vector2_layout();
    let f = baz_schema()->fields;
    assert(f.len() == 1);
    assert forall|i: int| 0 <= i < f.len() implies (#[trigger] f[i]).ty.well_formed() by {
        if i == 0 {
            assert(f[0].ty.well_formed());
        }
    }
    assert(cursor_after(f, 0) == 0);
    assert(max_align(f, 0) == 1);
    assert(cursor_after(f, 1) == 16);
    assert(max_align(f, 1) == 8);
}

/// `Bar` takes 32 bytes aligned to 8: `b` at 0, `baz` at 8 and `n` at 24,
/// with padding behind `b` and behind `n`.
pub proof fn lemma_bar_layout()
    ensures
        bar_schema().supported(),
        bar_schema().size() == 32,
        bar_schema().align() == 8,
        offset_of(bar_schema()->fields, 0) == 0,
        offset_of(bar_schema()->fields, 1) == 8,
        offset_of(bar_schema()->fields, 2) == 24,
{
    lemma_baz_layout();
    let f = bar_schema()->fields;
    assert(f[0].ty.size() == 1 && f[0].ty.align() == 1);
    assert(f[2].ty.size() == 2 && f[2].ty.align() == 2);
    assert(f.len() == 3);
    assert forall|i: int| 0 <= i < f.len() implies (#[trigger] f[i]).ty.well_formed() by {
        if i == 0 {
            assert(f[0].ty.well_formed());
        }
        if i == 1 {
            assert(f[1].ty.well_formed());
        }
        if i == 2 {
            assert(f[2].ty.well_formed());
        }
    }
    assert(cursor_after(f, 0) == 0);
    assert(max_align(f, 0) == 1);
    assert(cursor_after(f, 1) == 1);
    assert(max_align(f, 1) == 1);
    assert(cursor_after(f, 2) == 24);
    assert(max_align(f, 2) == 8);
    assert(cursor_after(f, 3) == 26);
    assert(max_align(f, 3) == 8);
}

/// `Foo` takes 40 bytes aligned to 8: `b` at 0 and `bar` at 8.
pub proof fn lemma_foo_layout()
    ensures
        foo_schema().supported(),
        foo_schema().size() == 40,
        foo_schema().align() == 8,
        offset_of(foo_schema()->fields, 0) == 0,
        offset_of(foo_schema()->fields, 1) == 8,
{
    lemma_bar_layout();
    let f = foo_schema()->fields;
    assert(f[0].ty.size() == 1 && f[0].ty.align() == 1);
    assert(f.len() == 2);
    assert forall|i: int| 0 <= i < f.len() implies (#[trigger] f[i]).ty.well_formed() by {
        if i == 0 {
            assert(f[0].ty.well_formed());
        }
        if i == 1 {
            assert(f[1].ty.well_formed());
        }
    }
    assert(cursor_after(f, 0) == 0);
    assert(max_align(f, 0) == 1);
    assert(cursor_after(f, 1) == 1);
    assert(max_align(f, 1) == 1);
    assert(cursor_after(f, 2) == 40);
    assert(max_align(f, 2) == 8);
}

/// A struct descriptor with the fields given.
pub fn struct_of(name: &str, fields: Vec<FieldDescriptor>) -> (d: TypeDescriptor)
    ensures
        d@ == record(name@, Seq::new(fields@.len(), |i: int| fields@[i]@)),
{
    let d = TypeDescriptor::Struct { name: name.to_owned(), fields };
    proof {
        lemma_struct_view(d);
        assert(d@->fields =~= Seq::new(fields@.len(), |i: int| fields@[i]@));
    }
    d
}

/// A field descriptor.
pub fn field_of(name: &str, ty: TypeDescriptor) -> (f: FieldDescriptor)
    ensures
        f@ == member(name@, ty@),
{
    FieldDescriptor { name: name.to_owned(), ty }
}

/// The descriptor of `Vector2`: two 64-bit floats.
pub fn vector2_type() -> (d: TypeDescriptor)
    ensures
        d@ == vector2_schema(),
{
    let mut fields: Vec<FieldDescriptor> = Vec::new();
    fields.push(field_of("x", TypeDescriptor::primitive(PrimitiveKind::F64)));
    fields.push(field_of("y", TypeDescriptor::primitive(PrimitiveKind::F64)));
    let d = struct_of("Vector2", fields);
    assert(d@->fields =~= vector2_schema()->fields);
    d
}

/// The descriptor of `Vector3`: three 64-bit floats.
pub fn vector3_type() -> (d: TypeDescriptor)
    ensures
        d@ == vector3_schema(),
{
    let mut fields: Vec<FieldDescriptor> = Vec::new();
    fields.push(field_of("x", TypeDescriptor::primitive(PrimitiveKind::F64)));
    fields.push(field_of("y", TypeDescriptor::primitive(PrimitiveKind::F64)));
    fields.push(field_of("z", TypeDescriptor::primitive(PrimitiveKind::F64)));
    let d = struct_of("Vector3", fields);
    assert(d@->fields =~= vector3_schema()->fields);
    d
}

/// The descriptor of `Cornucopia`.
pub fn cornucopia_type() -> (d: TypeDescriptor)
    ensures
        d@ == cornucopia_schema(),
{
    let mut fields: Vec<FieldDescriptor> = Vec::new();
    fields.push(field_of("b", TypeDescriptor::primitive(PrimitiveKind::Bool)));
    fields.push(field_of("n0", TypeDescriptor::primitive(PrimitiveKind::I16)));
    fields.push(field_of("n1", TypeDescriptor::primitive(PrimitiveKind::U8)));
    fields.push(field_of("n2", TypeDescriptor::primitive(PrimitiveKind::I64)));
    let d = struct_of("Cornucopia", fields);
    assert(d@->fields =~= cornucopia_schema()->fields);
    d
}

/// The descriptor of `Baz`: one `Vector2`.
pub fn baz_type() -> (d: TypeDescriptor)
    ensures
        d@ == baz_schema(),
{
    let mut fields: Vec<FieldDescriptor> = Vec::new();
    fields.push(field_of("vec", vector2_type()));
    let d = struct_of("Baz", fields);
    assert(d@->fields =~= baz_schema()->fields);
    d
}

/// The descriptor of `Bar`: a boolean, a `Baz` and a 16-bit number.
pub fn bar_type() -> (d: TypeDescriptor)
    ensures
        d@ == bar_schema(),
{
    let mut fields: Vec<FieldDescriptor> = Vec::new();
    fields.push(field_of("b", TypeDescriptor::primitive(PrimitiveKind::Bool)));
    fields.push(field_of("baz", baz_type()));
    fields.push(field_of("n", TypeDescriptor::primitive(PrimitiveKind::U16)));
    let d = struct_of("Bar", fields);
    assert(d@->fields =~= bar_schema()->fields);
    d
}

/// The descriptor of `Foo`: a boolean and a `Bar`.
pub fn foo_type() -> (d: TypeDescriptor)
    ensures
        d@ == foo_schema(),
{
    let mut fields: Vec<FieldDescriptor> = Vec::new();
    fields.push(field_of("b", TypeDescriptor::primitive(PrimitiveKind::Bool)));
    fields.push(field_of("bar", bar_type()));
    let d = struct_of("Foo", fields);
    assert(d@->fields =~= foo_schema()->fields);
    d
}

impl Cornucopia {
    /// The struct as a value of its schema: the fields in declared order.
    pub open spec fn datum(self) -> Datum {
        Datum::Struct(
            seq![Datum::Bool(self.b), Datum::I16(self.n0), Datum::U8(self.n1), Datum::I64(self.n2)],
        )
    }

    /// The struct as a host value.
    pub fn to_value(&self) -> (value: Value)
        ensures
            value@ == self.datum(),
    {
        let mut members: Vec<Value> = Vec::new();
        members.push(Value::Bool(self.b));
        members.push(Value::I16(self.n0));
        members.push(Value::U8(self.n1));
        members.push(Value::I64(self.n2));
        proof {
            lemma_data_of(members@);
            assert(crate::value::data_of(members@) =~= self.datum()->Struct_0);
        }
        Value::Struct(members)
    }

    /// The struct that a host value holds, where the value is one of its schema.
    pub fn from_value(value: &Value) -> (r: Option<Cornucopia>)
        ensures
            r is Some <==> value@.conforms(cornucopia_schema()),
            r matches Some(x) ==> x.datum() == value@,
    {
        let descriptor = cornucopia_type();
        if !value.conforms_to(&descriptor) {
            return None;
        }
        proof {
            reveal_with_fuel(Datum::conforms, 2);
            let fields = cornucopia_schema()->fields;
            assert(value@->Struct_0[0].conforms(fields[0].ty));
            assert(value@->Struct_0[1].conforms(fields[1].ty));
            assert(value@->Struct_0[2].conforms(fields[2].ty));
            assert(value@->Struct_0[3].conforms(fields[3].ty));
        }
        match value {
            Value::Struct(members) => {
                proof {
                    lemma_data_of(members@);
                }
                match (&members[0], &members[1], &members[2], &members[3]) {
                    (Value::Bool(b), Value::I16(n0), Value::U8(n1), Value::I64(n2)) => {
                        let x = Cornucopia { b: *b, n0: *n0, n1: *n1, n2: *n2 };
                        assert(x.datum()->Struct_0 =~= value@->Struct_0);
                        Some(x)
                    },
                    _ => None,
                }
            },
            _ => None,
        }
    }
}

} // verus!
