//! The table of exports, and a guest instance that runs inside the host.

use crate::codec::{decode, decoded, lemma_decoded_fields, overlay, primitive_from, zeros};
use crate::dispatch::{CallSignature, SignatureModel};
use crate::exports::{
    cornucopia, cornucopia_schema, cornucopia_type, fact, factorial, foo_schema, foo_type,
    has_no_proper_divisor, is_prime, lemma_cornucopia_layout, natural, neg32, not,
    vector2_schema, vector2_type, vector3_schema, vector3_type, Cornucopia,
};
use crate::guest::{GuestModule, Trap};
use crate::heap::{allocate, deallocate, has_room, next_region, LinearMemory};
use crate::layout::layout_of;
use crate::types::{PrimitiveKind, Schema, TypeDescriptor};
use vstd::prelude::*;

verus! {

/// The exports of the guest modules that the bridge is exercised with.
#[derive(Clone, Copy, Debug, PartialEq, Eq, Structural)]
pub enum Export {
    Add,
    Mul,
    Not,
    IsPrime,
    Fact,
    Neg32,
    Magnitude2,
    Magnitude3,
    Normalize2,
    Double3,
    Cornucopia,
    MagnitudeFoo,
    Allocate,
    Deallocate,
}

/// The export that a name stands for.
pub open spec fn export_named(name: Seq<char>) -> Option<Export> {
    if name == "add"@ {
        Some(Export::Add)
    } else if name == "mul"@ {
        Some(Export::Mul)
    } else if name == "not"@ {
        Some(Export::Not)
    } else if name == "is_prime"@ {
        Some(Export::IsPrime)
    } else if name == "fact"@ {
        Some(Export::Fact)
    } else if name == "neg32"@ {
        Some(Export::Neg32)
    } else if name == "magnitude2"@ {
        Some(Export::Magnitude2)
    } else if name == "magnitude3"@ {
        Some(Export::Magnitude3)
    } else if name == "normalize2"@ {
        Some(Export::Normalize2)
    } else if name == "double3"@ {
        Some(Export::Double3)
    } else if name == "cornucopia"@ {
        Some(Export::Cornucopia)
    } else if name == "magnitude_foo"@ {
        Some(Export::MagnitudeFoo)
    } else if name == "allocate"@ {
        Some(Export::Allocate)
    } else if name == "deallocate"@ {
        Some(Export::Deallocate)
    } else {
        None
    }
}

impl Export {
    /// The name under which the guest exports it.
    pub open spec fn name(self) -> Seq<char> {
        match self {
            Export::Add => "add"@,
            Export::Mul => "mul"@,
            Export::Not => "not"@,
            Export::IsPrime => "is_prime"@,
            Export::Fact => "fact"@,
            Export::Neg32 => "neg32"@,
            Export::Magnitude2 => "magnitude2"@,
            Export::Magnitude3 => "magnitude3"@,
            Export::Normalize2 => "normalize2"@,
            Export::Double3 => "double3"@,
            Export::Cornucopia => "cornucopia"@,
            Export::MagnitudeFoo => "magnitude_foo"@,
            Export::Allocate => "allocate"@,
            Export::Deallocate => "deallocate"@,
        }
    }

    /// The name under which the guest exports it.
    pub fn export_name(self) -> (name: String)
        ensures
            name@ == self.name(),
    {
        match self {
            Export::Add => "add".to_owned(),
            Export::Mul => "mul".to_owned(),
            Export::Not => "not".to_owned(),
            Export::IsPrime => "is_prime".to_owned(),
            Export::Fact => "fact".to_owned(),
            Export::Neg32 => "neg32".to_owned(),
            Export::Magnitude2 => "magnitude2".to_owned(),
            Export::Magnitude3 => "magnitude3".to_owned(),
            Export::Normalize2 => "normalize2".to_owned(),
            Export::Double3 => "double3".to_owned(),
            Export::Cornucopia => "cornucopia".to_owned(),
            Export::MagnitudeFoo => "magnitude_foo".to_owned(),
            Export::Allocate => "allocate".to_owned(),
            Export::Deallocate => "deallocate".to_owned(),
        }
    }

    /// The export that `name` stands for, if it stands for one.
    pub fn named(name: &str) -> (r: Option<Export>)
        ensures
            r == export_named(name@),
    {
        let wanted: String = name.to_owned();
        if wanted == Export::Add.export_name() {
            Some(Export::Add)
        } else if wanted == Export::Mul.export_name() {
            Some(Export::Mul)
        } else if wanted == Export::Not.export_name() {
            Some(Export::Not)
        } else if wanted == Export::IsPrime.export_name() {
            Some(Export::IsPrime)
        } else if wanted == Export::Fact.export_name() {
            Some(Export::Fact)
        } else if wanted == Export::Neg32.export_name() {
            Some(Export::Neg32)
        } else if wanted == Export::Magnitude2.export_name() {
            Some(Export::Magnitude2)
        } else if wanted == Export::Magnitude3.export_name() {
            Some(Export::Magnitude3)
        } else if wanted == Export::Normalize2.export_name() {
            Some(Export::Normalize2)
        } else if wanted == Export::Double3.export_name() {
            Some(Export::Double3)
        } else if wanted == Export::Cornucopia.export_name() {
            Some(Export::Cornucopia)
        } else if wanted == Export::MagnitudeFoo.export_name() {
            Some(Export::MagnitudeFoo)
        } else if wanted == Export::Allocate.export_name() {
            Some(Export::Allocate)
        } else if wanted == Export::Deallocate.export_name() {
            Some(Export::Deallocate)
        } else {
            None
        }
    }
}

/// Each export is found again under its own name.
pub proof fn lemma_named_finds(export: Export)
    ensures
        export_named(export.name()) == Some(export),
{
    reveal_strlit("add");
    reveal_strlit("mul");
    reveal_strlit("not");
    reveal_strlit("is_prime");
    reveal_strlit("fact");
    reveal_strlit("neg32");
    reveal_strlit("magnitude2");
    reveal_strlit("magnitude3");
    reveal_strlit("normalize2");
    reveal_strlit("double3");
    reveal_strlit("cornucopia");
    reveal_strlit("magnitude_foo");
    reveal_strlit("allocate");
    reveal_strlit("deallocate");
    assert("add"@.len() == 3);
    assert("mul"@.len() == 3);
    assert("not"@.len() == 3);
    assert("is_prime"@.len() == 8);
    assert("fact"@.len() == 4);
    assert("neg32"@.len() == 5);
    assert("magnitude2"@.len() == 10);
    assert("magnitude3"@.len() == 10);
    assert("normalize2"@.len() == 10);
    assert("double3"@.len() == 7);
    assert("cornucopia"@.len() == 10);
    assert("magnitude_foo"@.len() == 13);
    assert("allocate"@.len() == 8);
    assert("deallocate"@.len() == 10);
    assert("magnitude2"@[9] != "magnitude3"@[9]);
    assert("magnitude2"@[0] != "normalize2"@[0]);
    assert("add"@[0] != "mul"@[0]);
    assert("add"@[0] != "not"@[0]);
    assert("mul"@[0] != "not"@[0]);
    assert("neg32"@[0] != "fact"@[0]);
    assert("allocate"@[0] != "is_prime"@[0]);
    assert("magnitude3"@[0] != "normalize2"@[0]);
    assert("cornucopia"@[0] != "magnitude2"@[0]);
    assert("cornucopia"@[0] != "magnitude3"@[0]);
    assert("cornucopia"@[0] != "normalize2"@[0]);
    assert("cornucopia"@[0] != "deallocate"@[0]);
    assert("deallocate"@[0] != "magnitude2"@[0]);
    assert("deallocate"@[0] != "magnitude3"@[0]);
    assert("deallocate"@[0] != "normalize2"@[0]);
}

impl Export {
    /// The types of the parameters of the export.
    pub open spec fn params(self) -> Seq<Schema> {
        match self {
            Export::Add => seq![natural(PrimitiveKind::I64), natural(PrimitiveKind::I64)],
            Export::Mul => seq![natural(PrimitiveKind::F64), natural(PrimitiveKind::F64)],
            Export::Not => seq![natural(PrimitiveKind::Bool)],
            Export::IsPrime => seq![natural(PrimitiveKind::U64)],
            Export::Fact => seq![natural(PrimitiveKind::U64)],
            Export::Neg32 => seq![natural(PrimitiveKind::I32)],
            Export::Magnitude2 => seq![vector2_schema()],
            Export::Magnitude3 => seq![vector3_schema()],
            Export::Normalize2 => seq![vector2_schema()],
            Export::Double3 => seq![vector3_schema()],
            Export::Cornucopia => seq![cornucopia_schema()],
            Export::MagnitudeFoo => seq![foo_schema()],
            Export::Allocate => seq![natural(PrimitiveKind::U32)],
            Export::Deallocate => seq![natural(PrimitiveKind::U32), natural(PrimitiveKind::U32)],
        }
    }

    /// The type of the result of the export; `deallocate` has none.
    pub open spec fn result(self) -> Option<Schema> {
        match self {
            Export::Add => Some(natural(PrimitiveKind::I64)),
            Export::Mul => Some(natural(PrimitiveKind::F64)),
            Export::Not => Some(natural(PrimitiveKind::Bool)),
            Export::IsPrime => Some(natural(PrimitiveKind::Bool)),
            Export::Fact => Some(natural(PrimitiveKind::U64)),
            Export::Neg32 => Some(natural(PrimitiveKind::I32)),
            Export::Magnitude2 => Some(natural(PrimitiveKind::F64)),
            Export::Magnitude3 => Some(natural(PrimitiveKind::F64)),
            Export::Normalize2 => Some(vector2_schema()),
            Export::Double3 => Some(vector3_schema()),
            Export::Cornucopia => Some(natural(PrimitiveKind::I64)),
            Export::MagnitudeFoo => Some(natural(PrimitiveKind::F64)),
            Export::Allocate => Some(natural(PrimitiveKind::U32)),
            Export::Deallocate => None,
        }
    }

    /// The signature under which the dispatcher calls the export: a struct
    /// result comes back through a hidden pointer, which is the first
    /// argument. `None` for `deallocate`, which has no result to dispatch for.
    pub fn signature(self) -> (r: Option<CallSignature>)
        ensures
            r is Some <==> self.result() is Some,
            r matches Some(signature) ==> signature@ == (SignatureModel {
                export_name: self.name(),
                params: self.params(),
                result: self.result()->0,
                hidden: self.result()->0 is Struct,
                hidden_first: true,
            }),
    {
        let mut param_types: Vec<TypeDescriptor> = Vec::new();
        let return_type = match self {
            Export::Add => {
                param_types.push(TypeDescriptor::primitive(PrimitiveKind::I64));
                param_types.push(TypeDescriptor::primitive(PrimitiveKind::I64));
                TypeDescriptor::primitive(PrimitiveKind::I64)
            },
            Export::Mul => {
                param_types.push(TypeDescriptor::primitive(PrimitiveKind::F64));
                param_types.push(TypeDescriptor::primitive(PrimitiveKind::F64));
                TypeDescriptor::primitive(PrimitiveKind::F64)
            },
            Export::Not => {
                param_types.push(TypeDescriptor::primitive(PrimitiveKind::Bool));
                TypeDescriptor::primitive(PrimitiveKind::Bool)
            },
            Export::IsPrime => {
                param_types.push(TypeDescriptor::primitive(PrimitiveKind::U64));
                TypeDescriptor::primitive(PrimitiveKind::Bool)
            },
            Export::Fact => {
                param_types.push(TypeDescriptor::primitive(PrimitiveKind::U64));
                TypeDescriptor::primitive(PrimitiveKind::U64)
            },
            Export::Neg32 => {
                param_types.push(TypeDescriptor::primitive(PrimitiveKind::I32));
                TypeDescriptor::primitive(PrimitiveKind::I32)
            },
            Export::Magnitude2 => {
                param_types.push(vector2_type());
                TypeDescriptor::primitive(PrimitiveKind::F64)
            },
            Export::Magnitude3 => {
                param_types.push(vector3_type());
                TypeDescriptor::primitive(PrimitiveKind::F64)
            },
            Export::Normalize2 => {
                param_types.push(vector2_type());
                vector2_type()
            },
            Export::Double3 => {
                param_types.push(vector3_type());
                vector3_type()
            },
            Export::Cornucopia => {
                param_types.push(cornucopia_type());
                TypeDescriptor::primitive(PrimitiveKind::I64)
            },
            Export::MagnitudeFoo => {
                param_types.push(foo_type());
                TypeDescriptor::primitive(PrimitiveKind::F64)
            },
            Export::Allocate => {
                param_types.push(TypeDescriptor::primitive(PrimitiveKind::U32));
                TypeDescriptor::primitive(PrimitiveKind::U32)
            },
            Export::Deallocate => {
                return None;
            },
        };
        let by_pointer = match return_type {
            TypeDescriptor::Struct { .. } => true,
            TypeDescriptor::Primitive { .. } => false,
        };
        let signature = CallSignature {
            export_name: self.export_name(),
            param_types,
            return_type,
            returns_via_hidden_pointer: by_pointer,
            hidden_pointer_first: true,
        };
        assert(signature@.params =~= self.params());
        Some(signature)
    }
}

/// The `Cornucopia` that lies at `at`, field by field where the layout of
/// the struct puts them: `b` at 0, `n0` at 2, `n1` at 4 and `n2` at 8.
pub open spec fn cornucopia_at(bytes: Seq<u8>, at: int) -> Cornucopia {
    Cornucopia {
        b: primitive_from(PrimitiveKind::Bool, bytes.subrange(at, at + 1))->Bool_0,
        n0: primitive_from(PrimitiveKind::I16, bytes.subrange(at + 2, at + 4))->I16_0,
        n1: primitive_from(PrimitiveKind::U8, bytes.subrange(at + 4, at + 5))->U8_0,
        n2: primitive_from(PrimitiveKind::I64, bytes.subrange(at + 8, at + 16))->I64_0,
    }
}

/// Reads the `Cornucopia` that a pointer of the guest points to; `None`
/// where its 16 bytes do not all lie in the memory.
pub fn read_cornucopia(memory: &LinearMemory, pointer: u32) -> (r: Option<Cornucopia>)
    ensures
        r is Some <==> pointer + 16 <= memory.bytes@.len(),
        r matches Some(x) ==> x == cornucopia_at(memory.bytes@, pointer as int),
{
    let descriptor = cornucopia_type();
    proof {
        lemma_cornucopia_layout();
        lemma_decoded_fields(cornucopia_schema()->fields, memory.bytes@, pointer as int, 4);
        crate::codec::lemma_decoded_conforms(cornucopia_schema(), memory.bytes@, pointer as int);
    }
    let layout = match layout_of(&descriptor) {
        Ok(layout) => layout,
        Err(_) => {
            return None;
        },
    };
    match decode(&descriptor, &layout, &memory.bytes, pointer as usize) {
        Err(_) => None,
        Ok(value) => {
            let found = Cornucopia::from_value(&value);
            proof {
                let fields = cornucopia_schema()->fields;
                let members = value@->Struct_0;
                assert(members[0] == decoded(fields[0].ty, memory.bytes@, pointer + 0));
                assert(members[1] == decoded(fields[1].ty, memory.bytes@, pointer + 2));
                assert(members[2] == decoded(fields[2].ty, memory.bytes@, pointer + 4));
                assert(members[3] == decoded(fields[3].ty, memory.bytes@, pointer + 8));
                if found is Some {
                    assert(found->0.datum()->Struct_0[0] == members[0]);
                    assert(found->0.datum()->Struct_0[1] == members[1]);
                    assert(found->0.datum()->Struct_0[2] == members[2]);
                    assert(found->0.datum()->Struct_0[3] == members[3]);
                }
            }
            found
        },
    }
}

/// What the reference guest answers to a call, given the bytes of its memory
/// and the limit of it. A call with the wrong number of arguments, with an
/// argument outside the range of its type, or whose result would overflow, is
/// a trap; so is each export that computes with floating-point numbers,
/// which this guest does not hold.
pub open spec fn answer(export: Export, args: Seq<u64>, bytes: Seq<u8>, limit: u32) -> Result<
    Option<u64>,
    Trap,
> {
    match export {
        Export::Add => {
            let sum = (args[0] as i64) + (args[1] as i64);
            if args.len() == 2 && i64::MIN <= sum <= i64::MAX {
                Ok(Some((sum as i64) as u64))
            } else {
                Err(Trap {})
            }
        },
        Export::Not => if args.len() == 1 {
            Ok(
                Some(
                    if args[0] != 0 {
                        0
                    } else {
                        1
                    },
                ),
            )
        } else {
            Err(Trap {})
        },
        Export::IsPrime => if args.len() == 1 {
            Ok(
                Some(
                    if has_no_proper_divisor(args[0] as nat) {
                        1
                    } else {
                        0
                    },
                ),
            )
        } else {
            Err(Trap {})
        },
        Export::Fact => if args.len() == 1 && 1 <= args[0] <= 20 {
            Ok(Some(factorial(args[0] as nat) as u64))
        } else {
            Err(Trap {})
        },
        Export::Neg32 => {
            let x = (args[0] as u32) as i32;
            if args.len() == 1 && args[0] <= u32::MAX && x != i32::MIN {
                Ok(Some((((-x) as i32) as u32) as u64))
            } else {
                Err(Trap {})
            }
        },
        Export::Cornucopia => {
            let x = cornucopia_at(bytes, args[0] as int);
            let sum = x.n0 + x.n1 + x.n2;
            if args.len() == 1 && args[0] <= u32::MAX && args[0] + 16 <= bytes.len() && (x.b
                || i64::MIN <= sum <= i64::MAX) {
                Ok(
                    Some(
                        if x.b {
                            42
                        } else {
                            (sum as i64) as u64
                        },
                    ),
                )
            } else {
                Err(Trap {})
            }
        },
        Export::Allocate => if args.len() == 1 && args[0] <= u32::MAX {
            Ok(
                Some(
                    if has_room(bytes.len(), limit, args[0] as nat) {
                        next_region(bytes.len()) as u64
                    } else {
                        0
                    },
                ),
            )
        } else {
            Err(Trap {})
        },
        Export::Deallocate => if args.len() == 2 && args[0] <= u32::MAX && args[1] <= u32::MAX {
            Ok(None)
        } else {
            Err(Trap {})
        },
        _ => Err(Trap {}),
    }
}

/// The bytes of the reference guest's memory after a call: `allocate` lets
/// it grow by a region of zeros, `deallocate` cuts the last region off, and
/// no other export changes it.
pub open spec fn memory_after(export: Export, args: Seq<u64>, bytes: Seq<u8>, limit: u32) -> Seq<
    u8,
> {
    match export {
        Export::Allocate => if args.len() == 1 && args[0] <= u32::MAX && has_room(
            bytes.len(),
            limit,
            args[0] as nat,
        ) {
            bytes + zeros((next_region(bytes.len()) + args[0] - bytes.len()) as nat)
        } else {
            bytes
        },
        Export::Deallocate => if args.len() == 2 && args[0] <= u32::MAX && args[1] <= u32::MAX && 8
            <= args[0] && args[0] + args[1] == bytes.len() {
            bytes.take(args[0] as int)
        } else {
            bytes
        },
        _ => bytes,
    }
}

/// A guest that runs inside the host: a linear memory and the exports that
/// compute with integers.
#[derive(Debug)]
pub struct ReferenceGuest {
    pub memory: LinearMemory,
}

impl ReferenceGuest {
    /// A guest with an empty memory that may grow to `limit` bytes.
    pub fn new(limit: u32) -> (guest: ReferenceGuest)
        ensures
            guest.memory.bytes@.len() == 0,
            guest.memory.limit == limit,
    {
        ReferenceGuest { memory: LinearMemory::new(limit) }
    }

    /// Runs one export on numeric arguments.
    pub fn run(&mut self, export: Export, args: &Vec<u64>) -> (r: Result<Option<u64>, Trap>)
        ensures
            r == answer(export, args@, old(self).memory.bytes@, old(self).memory.limit),
            final(self).memory.limit == old(self).memory.limit,
            final(self).memory.bytes@ == memory_after(
                export,
                args@,
                old(self).memory.bytes@,
                old(self).memory.limit,
            ),
    {
        match export {
            Export::Add => {
                if args.len() != 2 {
                    return Err(Trap {});
                }
                let a: i64 = #[verifier::truncate] (args[0] as i64);
                let b: i64 = #[verifier::truncate] (args[1] as i64);
                if a.checked_add(b).is_none() {
                    return Err(Trap {});
                }
                Ok(Some(#[verifier::truncate] (crate::exports::add(a, b) as u64)))
            },
            Export::Not => {
                if args.len() != 1 {
                    return Err(Trap {});
                }
                Ok(
                    Some(
                        if not(args[0] != 0) {
                            1
                        } else {
                            0
                        },
                    ),
                )
            },
            Export::IsPrime => {
                if args.len() != 1 {
                    return Err(Trap {});
                }
                Ok(
                    Some(
                        if is_prime(args[0]) {
                            1
                        } else {
                            0
                        },
                    ),
                )
            },
            Export::Fact => {
                if args.len() != 1 || args[0] < 1 || args[0] > 20 {
                    return Err(Trap {});
                }
                Ok(Some(fact(args[0])))
            },
            Export::Neg32 => {
                if args.len() != 1 || args[0] > u32::MAX as u64 {
                    return Err(Trap {});
                }
                let x: i32 = #[verifier::truncate] ((args[0] as u32) as i32);
                if x == i32::MIN {
                    return Err(Trap {});
                }
                Ok(Some((#[verifier::truncate] (neg32(x) as u32)) as u64))
            },
            Export::Cornucopia => {
                if args.len() != 1 || args[0] > u32::MAX as u64 {
                    return Err(Trap {});
                }
                match read_cornucopia(&self.memory, args[0] as u32) {
                    None => Err(Trap {}),
                    Some(x) => {
                        if !x.b && (x.n0 as i64 + x.n1 as i64).checked_add(x.n2).is_none() {
                            return Err(Trap {});
                        }
                        Ok(Some(#[verifier::truncate] (cornucopia(&x) as u64)))
                    },
                }
            },
            Export::Allocate => {
                if args.len() != 1 || args[0] > u32::MAX as u64 {
                    return Err(Trap {});
                }
                Ok(Some(allocate(&mut self.memory, args[0] as usize) as u64))
            },
            Export::Deallocate => {
                if args.len() != 2 || args[0] > u32::MAX as u64 || args[1] > u32::MAX as u64 {
                    return Err(Trap {});
                }
                deallocate(&mut self.memory, args[0] as u32, args[1] as usize);
                Ok(None)
            },
            _ => Err(Trap {}),
        }
    }
}

impl GuestModule for ReferenceGuest {
    /// Runs the export that `export` names; a name that names none is a trap.
    fn call(&mut self, export: &str, args: &Vec<u64>) -> (r: Result<Option<u64>, Trap>)
        ensures
            final(self).memory.limit == old(self).memory.limit,
            match export_named(export@) {
                Some(found) => r == answer(
                    found,
                    args@,
                    old(self).memory.bytes@,
                    old(self).memory.limit,
                ) && final(self).memory.bytes@ == memory_after(
                    found,
                    args@,
                    old(self).memory.bytes@,
                    old(self).memory.limit,
                ),
                None => r == Err::<Option<u64>, Trap>(Trap {}) && final(self).memory.bytes@
                    == old(self).memory.bytes@,
            },
    {
        match Export::named(export) {
            Some(found) => self.run(found, args),
            None => Err(Trap {}),
        }
    }

    /// Reads from the memory; bytes outside it are a trap.
    fn read(&self, address: u32, len: u32) -> (r: Result<Vec<u8>, Trap>)
        ensures
            r is Ok <==> address + len <= self.memory.bytes@.len(),
            r matches Ok(bytes) ==> bytes@ == self.memory.bytes@.subrange(
                address as int,
                address + len,
            ),
    {
        match self.memory.read(address, len) {
            Some(bytes) => Ok(bytes),
            None => Err(Trap {}),
        }
    }

    /// Writes to the memory; bytes outside it are a trap, and nothing is written.
    fn write(&mut self, address: u32, bytes: &Vec<u8>) -> (r: Result<(), Trap>)
        ensures
            r is Ok <==> address + bytes@.len() <= old(self).memory.bytes@.len(),
            final(self).memory.limit == old(self).memory.limit,
            final(self).memory.bytes@ == if r is Ok {
                overlay(old(self).memory.bytes@, address as int, bytes@)
            } else {
                old(self).memory.bytes@
            },
    {
        if self.memory.write(address, bytes) {
            Ok(())
        } else {
            Err(Trap {})
        }
    }
}

} // verus!
