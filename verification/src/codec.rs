//! The value codec: host values as bytes of guest memory, and back.

use crate::error::BridgeError;
use crate::layout::{
    cursor_after, layout_of, lemma_cursor_monotone, lemma_natural_align,
    lemma_rounded_up_is_least_multiple, lemma_supported_field, measure, offset_of, round_up,
    LayoutModel, StructLayout,
};
use crate::types::{lemma_struct_view, FieldSchema, PrimitiveKind, Schema, TypeDescriptor};
use crate::value::{lemma_data_of, lemma_from_raw_of_raw, lemma_raw_of_from_raw, Datum, Value};
use vstd::bytes::{
    lemma_auto_spec_u16_to_from_le_bytes, lemma_auto_spec_u32_to_from_le_bytes,
    lemma_auto_spec_u64_to_from_le_bytes, spec_u16_from_le_bytes, spec_u16_to_le_bytes,
    spec_u32_from_le_bytes, spec_u32_to_le_bytes, spec_u64_from_le_bytes, spec_u64_to_le_bytes,
    u16_from_le_bytes, u16_to_le_bytes, u32_from_le_bytes, u32_to_le_bytes, u64_from_le_bytes,
    u64_to_le_bytes,
};
use vstd::prelude::*;
use vstd::slice::slice_subrange;

verus! {

/// The `width` low bytes of `raw`, least significant first.
pub open spec fn le_bytes(width: nat, raw: u64) -> Seq<u8> {
    if width == 1 {
        seq![raw as u8]
    } else if width == 2 {
        spec_u16_to_le_bytes(raw as u16)
    } else if width == 4 {
        spec_u32_to_le_bytes(raw as u32)
    } else {
        spec_u64_to_le_bytes(raw)
    }
}

/// The number that `width` bytes hold, least significant first.
pub open spec fn le_value(width: nat, bytes: Seq<u8>) -> u64 {
    if width == 1 {
        bytes[0] as u64
    } else if width == 2 {
        spec_u16_from_le_bytes(bytes) as u64
    } else if width == 4 {
        spec_u32_from_le_bytes(bytes) as u64
    } else {
        spec_u64_from_le_bytes(bytes)
    }
}

/// `raw` has no bit set above its `width` low bytes.
pub open spec fn fits(width: nat, raw: u64) -> bool {
    if width == 1 {
        raw <= 0xff
    } else if width == 2 {
        raw <= 0xffff
    } else if width == 4 {
        raw <= 0xffff_ffff
    } else {
        true
    }
}

/// A number that fits its width comes back from its bytes.
pub proof fn lemma_le_value_of_bytes(width: nat, raw: u64)
    requires
        width == 1 || width == 2 || width == 4 || width == 8,
    ensures
        le_bytes(width, raw).len() == width,
        fits(width, raw) ==> le_value(width, le_bytes(width, raw)) == raw,
{
    lemma_auto_spec_u16_to_from_le_bytes();
    lemma_auto_spec_u32_to_from_le_bytes();
    lemma_auto_spec_u64_to_from_le_bytes();
    assert(spec_u16_to_le_bytes(raw as u16).len() == 2);
    assert(spec_u32_to_le_bytes(raw as u32).len() == 4);
    assert(spec_u64_to_le_bytes(raw).len() == 8);
}

/// Bytes come back from the number they hold, and that number fits their width.
pub proof fn lemma_le_bytes_of_value(width: nat, bytes: Seq<u8>)
    requires
        width == 1 || width == 2 || width == 4 || width == 8,
        bytes.len() == width,
    ensures
        le_bytes(width, le_value(width, bytes)) == bytes,
        fits(width, le_value(width, bytes)),
{
    lemma_auto_spec_u16_to_from_le_bytes();
    lemma_auto_spec_u32_to_from_le_bytes();
    lemma_auto_spec_u64_to_from_le_bytes();
    if width == 1 {
        assert(le_bytes(width, le_value(width, bytes)) =~= bytes);
    }
}

/// `bytes` with `patch` written over it from position `at` on.
pub open spec fn overlay(bytes: Seq<u8>, at: int, patch: Seq<u8>) -> Seq<u8> {
    Seq::new(
        bytes.len(),
        |j: int|
            if at <= j < at + patch.len() {
                patch[j - at]
            } else {
                bytes[j]
            },
    )
}

/// The bytes of a primitive value: its number in the width of its kind, least significant byte first.
pub open spec fn primitive_bytes(value: Datum) -> Seq<u8> {
    le_bytes(value.kind()->0.width(), value.raw())
}

/// The primitive value of `kind` that `bytes` hold; any byte but 0 holds `true`.
pub open spec fn primitive_from(kind: PrimitiveKind, bytes: Seq<u8>) -> Datum {
    Datum::from_raw(kind, le_value(kind.width(), bytes))
}

/// `bytes` after `value` is written at `base`: a primitive over the bytes of
/// its width, a struct field by field at `base` plus the field's offset. No
/// other byte changes.
pub open spec fn encoded(value: Datum, schema: Schema, bytes: Seq<u8>, base: int) -> Seq<u8>
    decreases schema, 0nat,
{
    match schema {
        Schema::Primitive { kind, size, align } => overlay(bytes, base, primitive_bytes(value)),
        Schema::Struct { name, fields } => encoded_fields(
            value->Struct_0,
            fields,
            bytes,
            base,
            fields.len(),
        ),
    }
}

/// `bytes` after the first `n` fields of a struct at `base` are written.
pub open spec fn encoded_fields(
    members: Seq<Datum>,
    fields: Seq<FieldSchema>,
    bytes: Seq<u8>,
    base: int,
    n: nat,
) -> Seq<u8>
    decreases fields, n,
{
    if n == 0 || n > fields.len() {
        bytes
    } else {
        encoded(
            members[n - 1],
            fields[n - 1].ty,
            encoded_fields(members, fields, bytes, base, (n - 1) as nat),
            base + offset_of(fields, (n - 1) as nat),
        )
    }
}

/// The value of `schema` that `bytes` hold at `base`.
pub open spec fn decoded(schema: Schema, bytes: Seq<u8>, base: int) -> Datum
    decreases schema, 0nat,
{
    match schema {
        Schema::Primitive { kind, size, align } => primitive_from(
            kind,
            bytes.subrange(base, base + kind.width()),
        ),
        Schema::Struct { name, fields } => Datum::Struct(
            decoded_fields(fields, bytes, base, fields.len()),
        ),
    }
}

/// The values of the first `n` fields of a struct that `bytes` hold at `base`.
pub open spec fn decoded_fields(fields: Seq<FieldSchema>, bytes: Seq<u8>, base: int, n: nat) -> Seq<
    Datum,
>
    decreases fields, n,
{
    if n == 0 || n > fields.len() {
        Seq::empty()
    } else {
        decoded_fields(fields, bytes, base, (n - 1) as nat).push(
            decoded(fields[n - 1].ty, bytes, base + offset_of(fields, (n - 1) as nat)),
        )
    }
}

/// Every boolean of `schema` at `base` is held as 0 or 1.
pub open spec fn valid_at(schema: Schema, bytes: Seq<u8>, base: int) -> bool
    decreases schema,
{
    match schema {
        Schema::Primitive { kind, size, align } => kind == PrimitiveKind::Bool ==> bytes[base]
            <= 1,
        Schema::Struct { name, fields } => forall|i: int|
            0 <= i < fields.len() ==> valid_at(
                (#[trigger] fields[i]).ty,
                bytes,
                base + offset_of(fields, i as nat),
            ),
    }
}

/// Position `j` lies inside a primitive of a value of `schema` at `base`: it is no padding.
pub open spec fn occupied(schema: Schema, base: int, j: int) -> bool
    decreases schema,
{
    match schema {
        Schema::Primitive { kind, size, align } => base <= j < base + size,
        Schema::Struct { name, fields } => exists|i: int|
            0 <= i < fields.len() && occupied(
                (#[trigger] fields[i]).ty,
                base + offset_of(fields, i as nat),
                j,
            ),
    }
}

/// The first `n` decoded fields are the fields decoded one by one.
pub proof fn lemma_decoded_fields(fields: Seq<FieldSchema>, bytes: Seq<u8>, base: int, n: nat)
    requires
        n <= fields.len(),
    ensures
        decoded_fields(fields, bytes, base, n).len() == n,
        forall|i: int|
            0 <= i < n ==> #[trigger] decoded_fields(fields, bytes, base, n)[i] == decoded(
                fields[i].ty,
                bytes,
                base + offset_of(fields, i as nat),
            ),
    decreases n,
{
    if n > 0 {
        lemma_decoded_fields(fields, bytes, base, (n - 1) as nat);
    }
}

/// Encoding keeps the length of the buffer and changes no byte outside the value.
pub proof fn lemma_encoded_frame(value: Datum, schema: Schema, bytes: Seq<u8>, base: int)
    requires
        schema.supported(),
        value.conforms(schema),
        0 <= base,
        base + schema.size() <= bytes.len(),
    ensures
        encoded(value, schema, bytes, base).len() == bytes.len(),
        forall|j: int|
            0 <= j < bytes.len() && !(base <= j < base + schema.size()) ==> encoded(
                value,
                schema,
                bytes,
                base,
            )[j] == bytes[j],
    decreases schema, 1nat, 0nat,
{
    match schema {
        Schema::Primitive { kind, size, align } => {
            lemma_le_value_of_bytes(kind.width(), value.raw());
        },
        Schema::Struct { name, fields } => {
            lemma_encoded_fields_frame(value, schema, bytes, base, fields.len());
            lemma_natural_align(schema);
            lemma_rounded_up_is_least_multiple(cursor_after(fields, fields.len()), schema.align());
        },
    }
}

/// Encoding the first `n` fields keeps the length of the buffer and changes
/// no byte outside the part of the struct that these fields take.
pub proof fn lemma_encoded_fields_frame(
    value: Datum,
    schema: Schema,
    bytes: Seq<u8>,
    base: int,
    n: nat,
)
    requires
        schema is Struct,
        schema.supported(),
        value.conforms(schema),
        0 <= base,
        base + schema.size() <= bytes.len(),
        n <= schema->fields.len(),
    ensures
        encoded_fields(value->Struct_0, schema->fields, bytes, base, n).len() == bytes.len(),
        forall|j: int|
            0 <= j < bytes.len() && !(base <= j < base + cursor_after(schema->fields, n))
                ==> encoded_fields(value->Struct_0, schema->fields, bytes, base, n)[j] == bytes[j],
    decreases schema, 0nat, n,
{
    if n > 0 {
        let fields = schema->fields;
        let members = value->Struct_0;
        let before = encoded_fields(members, fields, bytes, base, (n - 1) as nat);
        lemma_encoded_fields_frame(value, schema, bytes, base, (n - 1) as nat);
        lemma_supported_field(schema, n - 1);
        lemma_cursor_monotone(fields, (n - 1) as nat, n);
        lemma_natural_align(fields[n - 1].ty);
        lemma_rounded_up_is_least_multiple(
            cursor_after(fields, (n - 1) as nat),
            fields[n - 1].ty.align(),
        );
        lemma_encoded_frame(
            members[n - 1],
            fields[n - 1].ty,
            before,
            base + offset_of(fields, (n - 1) as nat),
        );
    }
}

/// Fields written later leave the bytes of the fields written before them as they are.
pub proof fn lemma_encoded_fields_stable(
    value: Datum,
    schema: Schema,
    bytes: Seq<u8>,
    base: int,
    m: nat,
    n: nat,
)
    requires
        schema is Struct,
        schema.supported(),
        value.conforms(schema),
        0 <= base,
        base + schema.size() <= bytes.len(),
        m <= n <= schema->fields.len(),
    ensures
        forall|j: int|
            0 <= j < base + cursor_after(schema->fields, m) ==> encoded_fields(
                value->Struct_0,
                schema->fields,
                bytes,
                base,
                n,
            )[j] == encoded_fields(value->Struct_0, schema->fields, bytes, base, m)[j],
    decreases n,
{
    if m < n {
        let fields = schema->fields;
        let members = value->Struct_0;
        let before = encoded_fields(members, fields, bytes, base, (n - 1) as nat);
        lemma_encoded_fields_stable(value, schema, bytes, base, m, (n - 1) as nat);
        lemma_encoded_fields_frame(value, schema, bytes, base, (n - 1) as nat);
        lemma_supported_field(schema, n - 1);
        lemma_cursor_monotone(fields, m, (n - 1) as nat);
        lemma_natural_align(fields[n - 1].ty);
        lemma_rounded_up_is_least_multiple(
            cursor_after(fields, (n - 1) as nat),
            fields[n - 1].ty.align(),
        );
        lemma_encoded_frame(
            members[n - 1],
            fields[n - 1].ty,
            before,
            base + offset_of(fields, (n - 1) as nat),
        );
    }
}

/// What is decoded at `base` depends on the bytes of the value alone.
pub proof fn lemma_decoded_local(schema: Schema, first: Seq<u8>, second: Seq<u8>, base: int)
    requires
        schema.supported(),
        0 <= base,
        base + schema.size() <= first.len(),
        base + schema.size() <= second.len(),
        forall|j: int| base <= j < base + schema.size() ==> first[j] == second[j],
    ensures
        decoded(schema, first, base) == decoded(schema, second, base),
    decreases schema,
{
    match schema {
        Schema::Primitive { kind, size, align } => {
            assert(first.subrange(base, base + kind.width()) =~= second.subrange(
                base,
                base + kind.width(),
            ));
        },
        Schema::Struct { name, fields } => {
            lemma_decoded_fields(fields, first, base, fields.len());
            lemma_decoded_fields(fields, second, base, fields.len());
            assert forall|i: int| 0 <= i < fields.len() implies decoded(
                fields[i].ty,
                first,
                base + offset_of(fields, i as nat),
            ) == decoded(fields[i].ty, second, base + offset_of(fields, i as nat)) by {
                lemma_supported_field(schema, i);
                lemma_decoded_local(
                    fields[i].ty,
                    first,
                    second,
                    base + offset_of(fields, i as nat),
                );
            }
            assert(decoded_fields(fields, first, base, fields.len()) =~= decoded_fields(
                fields,
                second,
                base,
                fields.len(),
            ));
        },
    }
}

/// Decoding what was encoded gives the value back.
pub proof fn lemma_decode_encode(value: Datum, schema: Schema, bytes: Seq<u8>, base: int)
    requires
        schema.supported(),
        value.conforms(schema),
        0 <= base,
        base + schema.size() <= bytes.len(),
    ensures
        decoded(schema, encoded(value, schema, bytes, base), base) == value,
    decreases schema,
{
    match schema {
        Schema::Primitive { kind, size, align } => {
            lemma_le_value_of_bytes(kind.width(), value.raw());
            lemma_from_raw_of_raw(value);
            assert(encoded(value, schema, bytes, base).subrange(base, base + kind.width())
                =~= primitive_bytes(value));
        },
        Schema::Struct { name, fields } => {
            let members = value->Struct_0;
            let n = fields.len();
            let last = encoded_fields(members, fields, bytes, base, n);
            lemma_decoded_fields(fields, last, base, n);
            lemma_encoded_fields_frame(value, schema, bytes, base, n);
            assert forall|i: int| 0 <= i < n implies decoded(
                fields[i].ty,
                last,
                base + offset_of(fields, i as nat),
            ) == members[i] by {
                let at = base + offset_of(fields, i as nat);
                let before = encoded_fields(members, fields, bytes, base, i as nat);
                let after = encoded_fields(members, fields, bytes, base, (i + 1) as nat);
                lemma_supported_field(schema, i);
                lemma_encoded_fields_frame(value, schema, bytes, base, i as nat);
                lemma_encoded_fields_frame(value, schema, bytes, base, (i + 1) as nat);
                lemma_decode_encode(members[i], fields[i].ty, before, at);
                lemma_encoded_fields_stable(value, schema, bytes, base, (i + 1) as nat, n);
                lemma_cursor_monotone(fields, i as nat, (i + 1) as nat);
                lemma_decoded_local(fields[i].ty, last, after, at);
            }
            assert(decoded_fields(fields, last, base, n) =~= members);
        },
    }
}

/// Encoding what was decoded, over the bytes it was decoded from, changes
/// nothing, provided each boolean is held there as 0 or 1.
pub proof fn lemma_encode_decode(schema: Schema, bytes: Seq<u8>, base: int)
    requires
        schema.supported(),
        0 <= base,
        base + schema.size() <= bytes.len(),
        valid_at(schema, bytes, base),
    ensures
        encoded(decoded(schema, bytes, base), schema, bytes, base) == bytes,
    decreases schema, 1nat, 0nat,
{
    match schema {
        Schema::Primitive { kind, size, align } => {
            let part = bytes.subrange(base, base + kind.width());
            lemma_le_bytes_of_value(kind.width(), part);
            if kind == PrimitiveKind::Bool {
                assert(part[0] == bytes[base]);
            }
            lemma_raw_of_from_raw(kind, le_value(kind.width(), part));
            assert(encoded(decoded(schema, bytes, base), schema, bytes, base) =~= bytes);
        },
        Schema::Struct { name, fields } => {
            lemma_encode_decode_fields(schema, bytes, base, fields.len());
        },
    }
}

/// Encoding the first `n` decoded fields over the bytes they were decoded from changes nothing.
pub proof fn lemma_encode_decode_fields(schema: Schema, bytes: Seq<u8>, base: int, n: nat)
    requires
        schema is Struct,
        schema.supported(),
        0 <= base,
        base + schema.size() <= bytes.len(),
        valid_at(schema, bytes, base),
        n <= schema->fields.len(),
    ensures
        encoded_fields(
            decoded_fields(schema->fields, bytes, base, schema->fields.len()),
            schema->fields,
            bytes,
            base,
            n,
        ) == bytes,
    decreases schema, 0nat, n,
{
    if n > 0 {
        let fields = schema->fields;
        lemma_encode_decode_fields(schema, bytes, base, (n - 1) as nat);
        lemma_decoded_fields(fields, bytes, base, fields.len());
        lemma_supported_field(schema, n - 1);
        lemma_encode_decode(fields[n - 1].ty, bytes, base + offset_of(fields, (n - 1) as nat));
    }
}

/// What is decoded from any bytes is a value of the schema.
pub proof fn lemma_decoded_conforms(schema: Schema, bytes: Seq<u8>, base: int)
    ensures
        decoded(schema, bytes, base).conforms(schema),
    decreases schema,
{
    match schema {
        Schema::Primitive { kind, size, align } => {},
        Schema::Struct { name, fields } => {
            lemma_decoded_fields(fields, bytes, base, fields.len());
            assert forall|i: int| 0 <= i < fields.len() implies decoded_fields(
                fields,
                bytes,
                base,
                fields.len(),
            )[i].conforms((#[trigger] fields[i]).ty) by {
                lemma_decoded_conforms(fields[i].ty, bytes, base + offset_of(fields, i as nat));
            }
        },
    }
}

/// Encoding changes no padding: a byte that lies in no primitive of the value stays as it was.
pub proof fn lemma_encoded_padding(value: Datum, schema: Schema, bytes: Seq<u8>, base: int, j: int)
    requires
        schema.supported(),
        value.conforms(schema),
        0 <= base,
        base + schema.size() <= bytes.len(),
        0 <= j < bytes.len(),
        !occupied(schema, base, j),
    ensures
        encoded(value, schema, bytes, base)[j] == bytes[j],
    decreases schema, 1nat, 0nat,
{
    match schema {
        Schema::Primitive { kind, size, align } => {
            lemma_le_value_of_bytes(kind.width(), value.raw());
        },
        Schema::Struct { name, fields } => {
            lemma_encoded_fields_padding(value, schema, bytes, base, j, fields.len());
        },
    }
}

/// Encoding the first `n` fields changes no padding.
pub proof fn lemma_encoded_fields_padding(
    value: Datum,
    schema: Schema,
    bytes: Seq<u8>,
    base: int,
    j: int,
    n: nat,
)
    requires
        schema is Struct,
        schema.supported(),
        value.conforms(schema),
        0 <= base,
        base + schema.size() <= bytes.len(),
        0 <= j < bytes.len(),
        !occupied(schema, base, j),
        n <= schema->fields.len(),
    ensures
        encoded_fields(value->Struct_0, schema->fields, bytes, base, n)[j] == bytes[j],
    decreases schema, 0nat, n,
{
    if n > 0 {
        let fields = schema->fields;
        let members = value->Struct_0;
        let before = encoded_fields(members, fields, bytes, base, (n - 1) as nat);
        lemma_encoded_fields_padding(value, schema, bytes, base, j, (n - 1) as nat);
        lemma_encoded_fields_frame(value, schema, bytes, base, (n - 1) as nat);
        lemma_supported_field(schema, n - 1);
        assert(!occupied(fields[n - 1].ty, base + offset_of(fields, (n - 1) as nat), j));
        lemma_encoded_padding(
            members[n - 1],
            fields[n - 1].ty,
            before,
            base + offset_of(fields, (n - 1) as nat),
            j,
        );
    }
}

/// Why the codec refuses to work, if it does: the descriptor is not
/// supported; else the layout is not the descriptor's; else the value, where
/// there is one, is not of the descriptor's type; else the value does not lie
/// inside the buffer.
pub open spec fn refusal(
    value: Option<Datum>,
    schema: Schema,
    layout: LayoutModel,
    len: nat,
    base: nat,
) -> Option<BridgeError> {
    if !schema.supported() {
        Some(BridgeError::UnsupportedType)
    } else if layout != schema.layout() {
        Some(BridgeError::LayoutMismatch)
    } else if value is Some && !value->0.conforms(schema) {
        Some(BridgeError::UnsupportedType)
    } else if base + schema.size() > len {
        Some(BridgeError::LayoutMismatch)
    } else {
        None
    }
}

/// Writes `patch` over `destination` from position `at` on.
pub(crate) fn put(destination: &mut Vec<u8>, at: usize, patch: &Vec<u8>)
    requires
        at + patch@.len() <= old(destination)@.len(),
    ensures
        final(destination)@ == overlay(old(destination)@, at as int, patch@),
{
    let len: usize = destination.len();
    let mut k: usize = 0;
    while k < patch.len()
        invariant
            len == destination@.len(),
            k <= patch@.len(),
            at + patch@.len() <= destination@.len(),
            destination@.len() == old(destination)@.len(),
            forall|j: int|
                0 <= j < destination@.len() ==> destination@[j] == if at <= j < at + k {
                    patch@[j - at]
                } else {
                    old(destination)@[j]
                },
        decreases patch@.len() - k,
    {
        destination.set(at + k, patch[k]);
        k += 1;
    }
    assert(destination@ =~= overlay(old(destination)@, at as int, patch@));
}

/// The bytes of `raw` in the width of `kind`, least significant first.
fn raw_to_bytes(kind: PrimitiveKind, raw: u64) -> (bytes: Vec<u8>)
    ensures
        bytes@ == le_bytes(kind.width(), raw),
{
    let width: u32 = kind.byte_width();
    if width == 1 {
        let mut bytes: Vec<u8> = Vec::new();
        bytes.push(#[verifier::truncate] (raw as u8));
        assert(bytes@ =~= le_bytes(1, raw));
        bytes
    } else if width == 2 {
        u16_to_le_bytes(#[verifier::truncate] (raw as u16))
    } else if width == 4 {
        u32_to_le_bytes(#[verifier::truncate] (raw as u32))
    } else {
        u64_to_le_bytes(raw)
    }
}

/// The number that the bytes of a `kind` hold at `base`.
fn raw_from_bytes(kind: PrimitiveKind, source: &Vec<u8>, base: usize) -> (raw: u64)
    requires
        base + kind.width() <= source@.len(),
    ensures
        raw == le_value(kind.width(), source@.subrange(base as int, base + kind.width())),
{
    let width: u32 = kind.byte_width();
    let len: usize = source.len();
    if width == 1 {
        source[base] as u64
    } else if width == 2 {
        u16_from_le_bytes(slice_subrange(source.as_slice(), base, base + 2)) as u64
    } else if width == 4 {
        u32_from_le_bytes(slice_subrange(source.as_slice(), base, base + 4)) as u64
    } else {
        u64_from_le_bytes(slice_subrange(source.as_slice(), base, base + 8))
    }
}

/// Writes a value of a supported descriptor at `base`.
#[verifier::loop_isolation(false)]
fn write_value(value: &Value, descriptor: &TypeDescriptor, destination: &mut Vec<u8>, base: usize)
    requires
        descriptor@.supported(),
        value@.conforms(descriptor@),
        base + descriptor@.size() <= old(destination)@.len(),
    ensures
        final(destination)@ == encoded(value@, descriptor@, old(destination)@, base as int),
    decreases descriptor,
{
    match descriptor {
        TypeDescriptor::Primitive { kind, size, align } => {
            let patch = raw_to_bytes(*kind, value.to_raw());
            proof {
                lemma_le_value_of_bytes(kind.width(), value@.raw());
            }
            put(destination, base, &patch);
        },
        TypeDescriptor::Struct { name, fields } => {
            if let Value::Struct(members) = value {
                let len: usize = destination.len();
                let ghost fs = descriptor@->fields;
                let ghost data = value@->Struct_0;
                proof {
                    lemma_struct_view(*descriptor);
                    lemma_data_of(members@);
                }
                let mut cursor: u64 = 0;
                let mut i: usize = 0;
                while i < fields.len()
                    invariant
                        i <= fields.len(),
                        cursor == cursor_after(fs, i as nat),
                        cursor <= u32::MAX,
                        destination@ == encoded_fields(
                            data,
                            fs,
                            old(destination)@,
                            base as int,
                            i as nat,
                        ),
                        destination@.len() == old(destination)@.len(),
                    decreases fields.len() - i,
                {
                    proof {
                        lemma_supported_field(descriptor@, i as int);
                        lemma_natural_align(fs[i as int].ty);
                        lemma_cursor_monotone(fs, (i + 1) as nat, fs.len());
                        lemma_encoded_fields_frame(
                            value@,
                            descriptor@,
                            old(destination)@,
                            base as int,
                            (i + 1) as nat,
                        );
                    }
                    if let Some((field_size, field_align)) = measure(&fields[i].ty) {
                        let offset: u64 = round_up(cursor, field_align as u64);
                        write_value(&members[i], &fields[i].ty, destination, base + offset as usize);
                        cursor = offset + field_size as u64;
                    }
                    i += 1;
                }
            }
        },
    }
}

/// Reads the value of a supported descriptor at `base`.
#[verifier::loop_isolation(false)]
fn read_value(descriptor: &TypeDescriptor, source: &Vec<u8>, base: usize) -> (value: Value)
    requires
        descriptor@.supported(),
        base + descriptor@.size() <= source@.len(),
    ensures
        value@ == decoded(descriptor@, source@, base as int),
    decreases descriptor,
{
    match descriptor {
        TypeDescriptor::Primitive { kind, size, align } => Value::from_raw(
            *kind,
            raw_from_bytes(*kind, source, base),
        ),
        TypeDescriptor::Struct { name, fields } => {
            let ghost fs = descriptor@->fields;
            proof {
                lemma_struct_view(*descriptor);
            }
            let len: usize = source.len();
            let mut members: Vec<Value> = Vec::new();
            let mut cursor: u64 = 0;
            let mut i: usize = 0;
            while i < fields.len()
                invariant
                    i <= fields.len(),
                    cursor == cursor_after(fs, i as nat),
                    cursor <= u32::MAX,
                    members@.len() == i,
                    forall|j: int|
                        0 <= j < i ==> (#[trigger] members@[j])@ == decoded(
                            fs[j].ty,
                            source@,
                            base + offset_of(fs, j as nat),
                        ),
                decreases fields.len() - i,
            {
                proof {
                    lemma_supported_field(descriptor@, i as int);
                    lemma_natural_align(fs[i as int].ty);
                    lemma_cursor_monotone(fs, (i + 1) as nat, fs.len());
                }
                if let Some((field_size, field_align)) = measure(&fields[i].ty) {
                    let offset: u64 = round_up(cursor, field_align as u64);
                    members.push(read_value(&fields[i].ty, source, base + offset as usize));
                    cursor = offset + field_size as u64;
                }
                i += 1;
            }
            proof {
                lemma_data_of(members@);
                lemma_decoded_fields(fs, source@, base as int, fs.len());
                assert(crate::value::data_of(members@) =~= decoded_fields(
                    fs,
                    source@,
                    base as int,
                    fs.len(),
                ));
            }
            Value::Struct(members)
        },
    }
}

/// `n` bytes, each of them 0.
pub open spec fn zeros(n: nat) -> Seq<u8> {
    Seq::new(n, |i: int| 0u8)
}

/// A buffer of `n` bytes, each of them 0.
pub fn zeroed(n: usize) -> (buffer: Vec<u8>)
    ensures
        buffer@ == zeros(n as nat),
{
    let mut buffer: Vec<u8> = Vec::new();
    let mut i: usize = 0;
    while i < n
        invariant
            i <= n,
            buffer@.len() == i,
            forall|j: int| 0 <= j < i ==> buffer@[j] == 0,
        decreases n - i,
    {
        buffer.push(0);
        i += 1;
    }
    assert(buffer@ =~= zeros(n as nat));
    buffer
}

/// Writes `value` into `destination` at `base_offset`, as the descriptor and
/// its layout say: a primitive in the width of its kind, least significant
/// byte first; a struct field by field at its offsets, padding left as it is.
///
/// Nothing is written unless everything can be: a refusal leaves
/// `destination` untouched.
pub fn encode(
    value: &Value,
    descriptor: &TypeDescriptor,
    layout: &StructLayout,
    destination: &mut Vec<u8>,
    base_offset: usize,
) -> (r: Result<(), BridgeError>)
    ensures
        match refusal(
            Some(value@),
            descriptor@,
            layout@,
            old(destination)@.len(),
            base_offset as nat,
        ) {
            Some(e) => r == Err::<(), BridgeError>(e) && final(destination)@ == old(
                destination,
            )@,
            None => r is Ok && final(destination)@ == encoded(
                value@,
                descriptor@,
                old(destination)@,
                base_offset as int,
            ),
        },
{
    let own = layout_of(descriptor)?;
    if !own.same(layout) {
        return Err(BridgeError::LayoutMismatch);
    }
    if !value.conforms_to(descriptor) {
        return Err(BridgeError::UnsupportedType);
    }
    if base_offset > destination.len() || own.size as usize > destination.len() - base_offset {
        return Err(BridgeError::LayoutMismatch);
    }
    write_value(value, descriptor, destination, base_offset);
    Ok(())
}

/// A buffer of the layout's size that holds `value` and is 0 in its padding.
pub fn stage(value: &Value, descriptor: &TypeDescriptor, layout: &StructLayout) -> (r: Result<
    Vec<u8>,
    BridgeError,
>)
    ensures
        match refusal(Some(value@), descriptor@, layout@, layout@.size, 0) {
            Some(e) => r == Err::<Vec<u8>, BridgeError>(e),
            None => r is Ok && r->Ok_0@ == encoded(value@, descriptor@, zeros(layout@.size), 0),
        },
{
    let mut buffer = zeroed(layout.size as usize);
    match encode(value, descriptor, layout, &mut buffer, 0) {
        Ok(()) => Ok(buffer),
        Err(e) => Err(e),
    }
}

/// Reads from `source` at `base_offset` the value that the descriptor and its
/// layout say lies there: the mirror of `encode`.
pub fn decode(
    descriptor: &TypeDescriptor,
    layout: &StructLayout,
    source: &Vec<u8>,
    base_offset: usize,
) -> (r: Result<Value, BridgeError>)
    ensures
        match refusal(None, descriptor@, layout@, source@.len(), base_offset as nat) {
            Some(e) => r == Err::<Value, BridgeError>(e),
            None => r is Ok && r->Ok_0@ == decoded(descriptor@, source@, base_offset as int),
        },
{
    let own = layout_of(descriptor)?;
    if !own.same(layout) {
        return Err(BridgeError::LayoutMismatch);
    }
    if base_offset > source.len() || own.size as usize > source.len() - base_offset {
        return Err(BridgeError::LayoutMismatch);
    }
    Ok(read_value(descriptor, source, base_offset))
}

} // verus!
