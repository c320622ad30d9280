//! The layout calculator: size, alignment and field offsets of a descriptor,
//! by the rules of the default C layout.

use crate::error::BridgeError;
use crate::types::{lemma_struct_view, FieldSchema, Schema, TypeDescriptor};
use vstd::arithmetic::div_mod::{lemma_fundamental_div_mod, lemma_mod_multiples_basic};
use vstd::prelude::*;

verus! {

/// `cursor` moved up to the next multiple of `align`; `cursor` itself where it is one already.
pub open spec fn rounded_up(cursor: nat, align: nat) -> nat {
    if align == 0 || cursor % align == 0 {
        cursor
    } else {
        (cursor + (align - cursor % align)) as nat
    }
}

/// `rounded_up(cursor, align)` is the smallest multiple of `align` that is not below `cursor`.
pub proof fn lemma_rounded_up_is_least_multiple(cursor: nat, align: nat)
    requires
        align > 0,
    ensures
        cursor <= rounded_up(cursor, align) < cursor + align,
        rounded_up(cursor, align) % align == 0,
        forall|m: nat| m >= cursor && #[trigger] (m % align) == 0 ==> m >= rounded_up(cursor, align),
{
    let a = align as int;
    let c = cursor as int;
    let q = c / a;
    let r = c % a;
    lemma_fundamental_div_mod(c, a);
    if r != 0 {
        let up = rounded_up(cursor, align) as int;
        assert(up == a * (q + 1)) by (nonlinear_arith)
            requires
                up == c + (a - r),
                c == a * q + r,
        ;
        lemma_mod_multiples_basic(q + 1, a);
        assert(a * (q + 1) == (q + 1) * a) by (nonlinear_arith);
        assert forall|m: nat| m >= cursor && #[trigger] (m % align) == 0 implies m >= rounded_up(
            cursor,
            align,
        ) by {
            let mi = m as int;
            let k = mi / a;
            lemma_fundamental_div_mod(mi, a);
            if mi < up {
                assert(k <= q) by (nonlinear_arith)
                    requires
                        a * k < a * (q + 1),
                        a > 0,
                ;
                assert(a * k <= a * q) by (nonlinear_arith)
                    requires
                        k <= q,
                        a > 0,
                ;
                assert(false);
            }
        }
    }
}

/// Rounds `cursor` up to the next multiple of `align`.
pub fn round_up(cursor: u64, align: u64) -> (r: u64)
    requires
        align > 0,
        rounded_up(cursor as nat, align as nat) <= u64::MAX,
    ensures
        r == rounded_up(cursor as nat, align as nat),
{
    let rem: u64 = cursor % align;
    if rem == 0 {
        cursor
    } else {
        cursor + (align - rem)
    }
}

/// The largest alignment among the first `n` fields, and 1 where there is none.
pub open spec fn max_align(fields: Seq<FieldSchema>, n: nat) -> nat
    decreases fields, n,
{
    if n == 0 || n > fields.len() {
        1
    } else {
        let rest = max_align(fields, (n - 1) as nat);
        let own = fields[n - 1].ty.align();
        if own > rest {
            own
        } else {
            rest
        }
    }
}

/// The position just behind the first `n` fields, each placed at the first
/// multiple of its alignment that the fields before it leave free.
pub open spec fn cursor_after(fields: Seq<FieldSchema>, n: nat) -> nat
    decreases fields, n,
{
    if n == 0 || n > fields.len() {
        0
    } else {
        rounded_up(cursor_after(fields, (n - 1) as nat), fields[n - 1].ty.align()) + fields[n
            - 1].ty.size()
    }
}

/// Where field `i` starts, counted from the start of the struct.
pub open spec fn offset_of(fields: Seq<FieldSchema>, i: nat) -> nat {
    rounded_up(cursor_after(fields, i), fields[i as int].ty.align())
}

impl Schema {
    /// Every primitive in the schema has the natural size and alignment of its kind.
    pub open spec fn well_formed(self) -> bool
        decreases self,
    {
        match self {
            Schema::Primitive { kind, size, align } => size == kind.width() && align
                == kind.width(),
            Schema::Struct { name, fields } => forall|i: int|
                0 <= i < fields.len() ==> (#[trigger] fields[i]).ty.well_formed(),
        }
    }

    /// The alignment of a value of this schema: a struct is aligned as its most demanding field.
    pub open spec fn align(self) -> nat
        decreases self, 0nat,
    {
        match self {
            Schema::Primitive { kind, size, align } => align,
            Schema::Struct { name, fields } => max_align(fields, fields.len()),
        }
    }

    /// The size of a value of this schema: a struct ends at the first multiple
    /// of its own alignment behind its last field.
    pub open spec fn size(self) -> nat
        decreases self, 0nat,
    {
        match self {
            Schema::Primitive { kind, size, align } => size,
            Schema::Struct { name, fields } => rounded_up(
                cursor_after(fields, fields.len()),
                max_align(fields, fields.len()),
            ),
        }
    }

    /// The schema is well formed and a value of it fits a 32-bit address space.
    pub open spec fn supported(self) -> bool {
        self.well_formed() && self.size() <= u32::MAX
    }
}

/// A well-formed schema is aligned to 1, 2, 4 or 8 bytes.
pub proof fn lemma_natural_align(schema: Schema)
    requires
        schema.well_formed(),
    ensures
        schema.align() == 1 || schema.align() == 2 || schema.align() == 4 || schema.align() == 8,
    decreases schema, 0nat,
{
    match schema {
        Schema::Primitive { kind, size, align } => {},
        Schema::Struct { name, fields } => {
            lemma_natural_max_align(fields, fields.len());
        },
    }
}

/// The largest alignment among well-formed fields is 1, 2, 4 or 8 bytes.
pub proof fn lemma_natural_max_align(fields: Seq<FieldSchema>, n: nat)
    requires
        n <= fields.len(),
        forall|i: int| 0 <= i < n ==> (#[trigger] fields[i]).ty.well_formed(),
    ensures
        max_align(fields, n) == 1 || max_align(fields, n) == 2 || max_align(fields, n) == 4
            || max_align(fields, n) == 8,
    decreases fields, n,
{
    if n > 0 {
        lemma_natural_max_align(fields, (n - 1) as nat);
        lemma_natural_align(fields[n - 1].ty);
    }
}

/// The cursor never moves back, and each field lies before the cursor that follows it.
pub proof fn lemma_cursor_monotone(fields: Seq<FieldSchema>, i: nat, j: nat)
    requires
        i <= j <= fields.len(),
    ensures
        cursor_after(fields, i) <= cursor_after(fields, j),
        i < j ==> offset_of(fields, i) + fields[i as int].ty.size() <= cursor_after(fields, j),
    decreases j,
{
    if i < j {
        lemma_cursor_monotone(fields, i, (j - 1) as nat);
        let before = cursor_after(fields, (j - 1) as nat);
        let a = fields[j - 1].ty.align();
        if a > 0 {
            lemma_rounded_up_is_least_multiple(before, a);
        }
    }
}

/// Size and alignment of a descriptor, or `None` where the descriptor is not supported.
#[verifier::loop_isolation(false)]
pub fn measure(descriptor: &TypeDescriptor) -> (r: Option<(u32, u32)>)
    ensures
        r.is_some() == descriptor@.supported(),
        r matches Some((size, align)) ==> size == descriptor@.size() && align
            == descriptor@.align(),
    decreases descriptor,
{
    match descriptor {
        TypeDescriptor::Primitive { kind, size, align } => {
            let w: u32 = kind.byte_width();
            if *size == w && *align == w {
                Some((*size, *align))
            } else {
                None
            }
        },
        TypeDescriptor::Struct { name, fields } => {
            let ghost fs = descriptor@->fields;
            proof {
                lemma_struct_view(*descriptor);
            }
            let mut cursor: u64 = 0;
            let mut align: u32 = 1;
            let mut i: usize = 0;
            while i < fields.len()
                invariant
                    i <= fields.len(),
                    descriptor@ == (Schema::Struct { name: name@, fields: fs }),
                    fs.len() == fields.len(),
                    forall|j: int| 0 <= j < fields.len() ==> fs[j] == (#[trigger] fields@[j])@,
                    forall|j: int| 0 <= j < i ==> (#[trigger] fs[j]).ty.well_formed(),
                    cursor == cursor_after(fs, i as nat),
                    cursor <= u32::MAX,
                    align == max_align(fs, i as nat),
                    align == 1 || align == 2 || align == 4 || align == 8,
                decreases fields.len() - i,
            {
                proof {
                    lemma_cursor_monotone(fs, (i + 1) as nat, fs.len());
                    lemma_cursor_monotone(fs, i as nat, (i + 1) as nat);
                    if fs[i as int].ty.align() > 0 {
                        lemma_rounded_up_is_least_multiple(
                            cursor_after(fs, i as nat),
                            fs[i as int].ty.align(),
                        );
                    }
                    if max_align(fs, fs.len()) > 0 {
                        lemma_rounded_up_is_least_multiple(
                            cursor_after(fs, fs.len()),
                            max_align(fs, fs.len()),
                        );
                    }
                }
                match measure(&fields[i].ty) {
                    None => {
                        return None;
                    },
                    Some((field_size, field_align)) => {
                        proof {
                            lemma_natural_align(fs[i as int].ty);
                        }
                        let offset: u64 = round_up(cursor, field_align as u64);
                        let next: u64 = offset + field_size as u64;
                        if next > u32::MAX as u64 {
                            return None;
                        }
                        cursor = next;
                        if field_align > align {
                            align = field_align;
                        }
                    },
                }
                i += 1;
            }
            let total: u64 = round_up(cursor, align as u64);
            if total > u32::MAX as u64 {
                None
            } else {
                Some((total as u32, align))
            }
        },
    }
}

/// Where one field lies inside its struct.
#[derive(Clone, Copy, Debug, PartialEq, Eq, Structural)]
pub struct FieldLayout {
    pub offset: u32,
    pub size: u32,
    pub align: u32,
}

/// A field's name together with its place.
#[derive(Debug, PartialEq, Eq)]
pub struct FieldEntry {
    pub name: String,
    pub layout: FieldLayout,
}

/// Size, alignment and field places of one descriptor; the fields stand in declared order.
#[derive(Debug, PartialEq, Eq)]
pub struct StructLayout {
    pub size: u32,
    pub align: u32,
    pub fields: Vec<FieldEntry>,
}

/// The model of a field's entry in a layout.
pub struct SlotModel {
    pub name: Seq<char>,
    pub offset: nat,
    pub size: nat,
    pub align: nat,
}

/// The model of a layout.
pub struct LayoutModel {
    pub size: nat,
    pub align: nat,
    pub fields: Seq<SlotModel>,
}

impl View for FieldEntry {
    type V = SlotModel;

    open spec fn view(&self) -> SlotModel {
        SlotModel {
            name: self.name@,
            offset: self.layout.offset as nat,
            size: self.layout.size as nat,
            align: self.layout.align as nat,
        }
    }
}

impl View for StructLayout {
    type V = LayoutModel;

    open spec fn view(&self) -> LayoutModel {
        LayoutModel {
            size: self.size as nat,
            align: self.align as nat,
            fields: Seq::new(self.fields@.len(), |i: int| self.fields@[i]@),
        }
    }
}

impl Schema {
    /// The layout of the schema: a primitive has no fields; a struct lists
    /// each field at its offset, a nested struct as one field of its own size and alignment.
    pub open spec fn layout(self) -> LayoutModel {
        match self {
            Schema::Primitive { kind, size, align } => LayoutModel {
                size,
                align,
                fields: Seq::empty(),
            },
            Schema::Struct { name, fields } => LayoutModel {
                size: self.size(),
                align: self.align(),
                fields: Seq::new(
                    fields.len(),
                    |i: int|
                        SlotModel {
                            name: fields[i].name,
                            offset: offset_of(fields, i as nat),
                            size: fields[i].ty.size(),
                            align: fields[i].ty.align(),
                        },
                ),
            },
        }
    }
}

/// Each field of a supported struct is supported and ends inside the struct.
pub proof fn lemma_supported_field(schema: Schema, i: int)
    requires
        schema is Struct,
        schema.supported(),
        0 <= i < schema->fields.len(),
    ensures
        schema->fields[i].ty.supported(),
        offset_of(schema->fields, i as nat) + schema->fields[i].ty.size() <= schema.size(),
        offset_of(schema->fields, i as nat) % schema->fields[i].ty.align() == 0,
        schema->fields[i].ty.align() <= schema.align(),
{
    let fields = schema->fields;
    lemma_cursor_monotone(fields, i as nat, fields.len());
    lemma_natural_max_align(fields, fields.len());
    lemma_rounded_up_is_least_multiple(cursor_after(fields, fields.len()), schema.align());
    lemma_natural_align(fields[i].ty);
    lemma_rounded_up_is_least_multiple(cursor_after(fields, i as nat), fields[i].ty.align());
    lemma_max_align_bounds(fields, fields.len(), i);
}

/// A field of a supported struct starts at the first multiple of its alignment
/// that the fields before it leave free, and behind each of them.
pub proof fn lemma_fields_do_not_overlap(schema: Schema, i: int, j: int)
    requires
        schema is Struct,
        schema.supported(),
        0 <= i < j < schema->fields.len(),
    ensures
        offset_of(schema->fields, i as nat) + schema->fields[i].ty.size() <= offset_of(
            schema->fields,
            j as nat,
        ),
        forall|m: nat|
            m >= cursor_after(schema->fields, j as nat) && #[trigger] (m
                % schema->fields[j].ty.align()) == 0 ==> m >= offset_of(schema->fields, j as nat),
{
    let fields = schema->fields;
    lemma_cursor_monotone(fields, i as nat, j as nat);
    lemma_natural_align(fields[j].ty);
    lemma_rounded_up_is_least_multiple(cursor_after(fields, j as nat), fields[j].ty.align());
}

/// The size of a well-formed schema is a multiple of its alignment.
pub proof fn lemma_size_is_aligned(schema: Schema)
    requires
        schema.well_formed(),
    ensures
        schema.size() % schema.align() == 0,
{
    lemma_natural_align(schema);
    match schema {
        Schema::Primitive { kind, size, align } => {
            assert(size == align);
            assert(size == 1 || size == 2 || size == 4 || size == 8);
        },
        Schema::Struct { name, fields } => {
            lemma_rounded_up_is_least_multiple(cursor_after(fields, fields.len()), schema.align());
        },
    }
}

/// No field among the first `n` is aligned more strictly than their largest alignment.
pub proof fn lemma_max_align_bounds(fields: Seq<FieldSchema>, n: nat, i: int)
    requires
        0 <= i < n <= fields.len(),
    ensures
        fields[i].ty.align() <= max_align(fields, n),
    decreases n,
{
    if i < n - 1 {
        lemma_max_align_bounds(fields, (n - 1) as nat, i);
    }
}

impl Clone for FieldEntry {
    fn clone(&self) -> (r: FieldEntry)
        ensures
            r@ == self@,
            r.layout == self.layout,
    {
        FieldEntry { name: self.name.clone(), layout: self.layout }
    }
}

impl Clone for StructLayout {
    fn clone(&self) -> (r: StructLayout)
        ensures
            r@ == self@,
    {
        let mut copies: Vec<FieldEntry> = Vec::new();
        let mut i: usize = 0;
        while i < self.fields.len()
            invariant
                i <= self.fields.len(),
                copies@.len() == i,
                forall|j: int| 0 <= j < i ==> (#[trigger] copies@[j])@ == self.fields@[j]@,
            decreases self.fields.len() - i,
        {
            copies.push(self.fields[i].clone());
            i += 1;
        }
        let r = StructLayout { size: self.size, align: self.align, fields: copies };
        assert(r@.fields =~= self@.fields);
        r
    }
}

impl StructLayout {
    /// Whether two layouts agree in size, alignment and every field's name and place.
    pub fn same(&self, other: &StructLayout) -> (r: bool)
        ensures
            r == (self@ == other@),
    {
        if self.size != other.size || self.align != other.align || self.fields.len()
            != other.fields.len() {
            assert(self@.fields.len() != other@.fields.len() || self@.size != other@.size
                || self@.align != other@.align);
            return false;
        }
        let mut i: usize = 0;
        while i < self.fields.len()
            invariant
                i <= self.fields.len(),
                self.fields.len() == other.fields.len(),
                forall|j: int| 0 <= j < i ==> (#[trigger] self.fields@[j])@ == other.fields@[j]@,
            decreases self.fields.len() - i,
        {
            if !(self.fields[i].name == other.fields[i].name) || self.fields[i].layout
                != other.fields[i].layout {
                assert(self@.fields[i as int] != other@.fields[i as int]);
                return false;
            }
            i += 1;
        }
        assert(self@.fields =~= other@.fields);
        true
    }

    /// The place of the first field called `name`, if there is one.
    pub fn field(&self, name: &str) -> (r: Option<FieldLayout>)
        ensures
            r is None <==> forall|i: int|
                0 <= i < self@.fields.len() ==> (#[trigger] self@.fields[i]).name != name@,
            r matches Some(place) ==> exists|i: int|
                0 <= i < self.fields@.len() && (#[trigger] self.fields@[i]).name@ == name@
                    && self.fields@[i].layout == place && forall|j: int|
                    0 <= j < i ==> (#[trigger] self.fields@[j]).name@ != name@,
    {
        let wanted: String = name.to_owned();
        let mut i: usize = 0;
        while i < self.fields.len()
            invariant
                i <= self.fields.len(),
                wanted@ == name@,
                forall|j: int| 0 <= j < i ==> (#[trigger] self.fields@[j]).name@ != name@,
            decreases self.fields.len() - i,
        {
            if self.fields[i].name == wanted {
                assert(self@.fields[i as int].name == name@);
                return Some(self.fields[i].layout);
            }
            i += 1;
        }
        assert forall|i: int| 0 <= i < self@.fields.len() implies (#[trigger] self@.fields[i]).name
            != name@ by {
            assert(self.fields@[i].name@ != name@);
        }
        None
    }
}

/// The layout of a descriptor, computed afresh.
///
/// Descriptors that are not well formed, or whose values would not fit a
/// 32-bit address space, are refused as unsupported.
#[verifier::loop_isolation(false)]
pub fn layout_of(descriptor: &TypeDescriptor) -> (r: Result<StructLayout, BridgeError>)
    ensures
        r is Ok <==> descriptor@.supported(),
        r matches Ok(layout) ==> layout@ == descriptor@.layout(),
        r matches Err(e) ==> e == BridgeError::UnsupportedType,
{
    let (size, align) = match measure(descriptor) {
        None => {
            return Err(BridgeError::UnsupportedType);
        },
        Some(m) => m,
    };
    let mut entries: Vec<FieldEntry> = Vec::new();
    match descriptor {
        TypeDescriptor::Primitive { .. } => {},
        TypeDescriptor::Struct { name, fields } => {
            let ghost fs = descriptor@->fields;
            proof {
                lemma_struct_view(*descriptor);
            }
            let mut cursor: u64 = 0;
            let mut i: usize = 0;
            while i < fields.len()
                invariant
                    i <= fields.len(),
                    entries@.len() == i,
                    cursor == cursor_after(fs, i as nat),
                    cursor <= u32::MAX,
                    forall|j: int|
                        0 <= j < i ==> (#[trigger] entries@[j])@ == descriptor@.layout().fields[j],
                decreases fields.len() - i,
            {
                proof {
                    lemma_supported_field(descriptor@, i as int);
                    lemma_cursor_monotone(fs, (i + 1) as nat, fs.len());
                    lemma_natural_align(fs[i as int].ty);
                    lemma_natural_max_align(fs, fs.len());
                    lemma_rounded_up_is_least_multiple(
                        cursor_after(fs, fs.len()),
                        descriptor@.align(),
                    );
                }
                match measure(&fields[i].ty) {
                    None => {
                        return Err(BridgeError::UnsupportedType);
                    },
                    Some((field_size, field_align)) => {
                        let offset: u64 = round_up(cursor, field_align as u64);
                        entries.push(
                            FieldEntry {
                                name: fields[i].name.clone(),
                                layout: FieldLayout {
                                    offset: offset as u32,
                                    size: field_size,
                                    align: field_align,
                                },
                            },
                        );
                        cursor = offset + field_size as u64;
                    },
                }
                i += 1;
            }
        },
    }
    let layout = StructLayout { size, align, fields: entries };
    assert(layout@.fields =~= descriptor@.layout().fields);
    Ok(layout)
}

/// `newer` holds what `older` held, in the same places.
pub open spec fn keeps(newer: Seq<Schema>, older: Seq<Schema>) -> bool {
    older.len() <= newer.len() && forall|i: int| 0 <= i < older.len() ==> newer[i] == older[i]
}

/// One memoized layout.
struct Memo {
    descriptor: TypeDescriptor,
    layout: StructLayout,
}

/// Layouts computed so far, each kept as first computed.
pub struct LayoutCache {
    memos: Vec<Memo>,
}

impl View for LayoutCache {
    type V = Seq<Schema>;

    /// The schemas whose layouts are memoized, in the order of their first use.
    closed spec fn view(&self) -> Seq<Schema> {
        Seq::new(self.memos@.len(), |i: int| self.memos@[i].descriptor@)
    }
}

impl LayoutCache {
    /// Every memoized layout is the layout of its descriptor.
    pub closed spec fn well_formed(&self) -> bool {
        forall|i: int|
            0 <= i < self.memos@.len() ==> {
                &&& (#[trigger] self.memos@[i]).descriptor@.supported()
                &&& self.memos@[i].layout@ == self.memos@[i].descriptor@.layout()
            }
    }

    /// A cache that holds no layout yet.
    pub fn new() -> (cache: LayoutCache)
        ensures
            cache.well_formed(),
            cache@ == Seq::<Schema>::empty(),
    {
        let cache = LayoutCache { memos: Vec::new() };
        assert(cache@ =~= Seq::<Schema>::empty());
        cache
    }

    /// How many layouts are memoized.
    pub fn len(&self) -> (n: usize)
        ensures
            n == self@.len(),
    {
        self.memos.len()
    }

    /// The layout of a descriptor: the memoized one where there is one, else
    /// computed and memoized. The answer is that of `layout_of` either way, and
    /// what was memoized before stays as it was.
    pub fn layout_of(&mut self, descriptor: &TypeDescriptor) -> (r: Result<
        StructLayout,
        BridgeError,
    >)
        requires
            old(self).well_formed(),
        ensures
            final(self).well_formed(),
            r is Ok <==> descriptor@.supported(),
            r matches Ok(layout) ==> layout@ == descriptor@.layout(),
            r matches Err(e) ==> e == BridgeError::UnsupportedType,
            final(self)@ == if descriptor@.supported() && !old(self)@.contains(descriptor@) {
                old(self)@.push(descriptor@)
            } else {
                old(self)@
            },
    {
        let mut i: usize = 0;
        while i < self.memos.len()
            invariant
                i <= self.memos.len(),
                self.well_formed(),
                *self == *old(self),
                forall|j: int| 0 <= j < i ==> (#[trigger] self.memos@[j]).descriptor@ != descriptor@,
            decreases self.memos.len() - i,
        {
            if self.memos[i].descriptor.same(descriptor) {
                assert(self@[i as int] == descriptor@);
                return Ok(self.memos[i].layout.clone());
            }
            i += 1;
        }
        assert(!self@.contains(descriptor@));
        let layout = layout_of(descriptor)?;
        self.memos.push(Memo { descriptor: descriptor.clone(), layout: layout.clone() });
        assert(self@ =~= old(self)@.push(descriptor@));
        Ok(layout)
    }
}

} // verus!
