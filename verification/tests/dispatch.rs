use abi_bridge::dispatch::{
    check_call, finish_direct, finish_hidden, marshal, CallSignature, CallState, Dispatcher,
};
use abi_bridge::error::BridgeError;
use abi_bridge::exports::{cornucopia_type, vector2_type, Cornucopia};
use abi_bridge::guest::{GuestModule, Session, Trap};
use abi_bridge::instance::{Export, ReferenceGuest};
use abi_bridge::layout::layout_of;
use abi_bridge::types::{PrimitiveKind, TypeDescriptor};
use abi_bridge::value::Value;

/// The reference guest together with the exports that compute with floats,
/// and a few switches to make it fault.
struct Harness {
    inner: ReferenceGuest,
    allocations: usize,
    releases: usize,
    calls: Vec<(String, Vec<u64>)>,
    null_from_allocation: Option<usize>,
    trap_on: Option<String>,
    trap_on_write: bool,
    trap_on_read: bool,
    short_reads: bool,
}

impl Harness {
    fn new() -> Harness {
        Harness {
            inner: ReferenceGuest::new(1 << 16),
            allocations: 0,
            releases: 0,
            calls: vec![],
            null_from_allocation: None,
            trap_on: None,
            trap_on_write: false,
            trap_on_read: false,
            short_reads: false,
        }
    }

    fn float_at(&self, address: u64) -> Option<f64> {
        let bytes = self.inner.memory.read(address as u32, 8)?;
        let mut raw = [0u8; 8];
        raw.copy_from_slice(&bytes);
        Some(f64::from_le_bytes(raw))
    }

    fn put_float(&mut self, address: u64, value: f64) -> Option<()> {
        if self.inner.memory.write(address as u32, &value.to_le_bytes().to_vec()) {
            Some(())
        } else {
            None
        }
    }

    fn floats(&mut self, export: &str, args: &Vec<u64>) -> Option<Option<u64>> {
        match export {
            "mul" => Some(Some((f64::from_bits(args[0]) * f64::from_bits(args[1])).to_bits())),
            "magnitude2" => {
                let (x, y) = (self.float_at(args[0])?, self.float_at(args[0] + 8)?);
                Some(Some((x.powi(2) + y.powi(2)).sqrt().to_bits()))
            }
            "magnitude3" => {
                let (x, y) = (self.float_at(args[0])?, self.float_at(args[0] + 8)?);
                let z = self.float_at(args[0] + 16)?;
                Some(Some((x.powi(2) + y.powi(2) + z.powi(2)).sqrt().to_bits()))
            }
            "magnitude_foo" => {
                let (x, y) = (self.float_at(args[0] + 16)?, self.float_at(args[0] + 24)?);
                Some(Some((x.powi(2) + y.powi(2)).sqrt().to_bits()))
            }
            "normalize2" => {
                let (x, y) = (self.float_at(args[1])?, self.float_at(args[1] + 8)?);
                let l = (x.powi(2) + y.powi(2)).sqrt();
                self.put_float(args[0], x / l)?;
                self.put_float(args[0] + 8, y / l)?;
                Some(None)
            }
            "double3" => {
                for k in 0..3 {
                    let v = self.float_at(args[1] + 8 * k)?;
                    self.put_float(args[0] + 8 * k, v * 2.0)?;
                }
                Some(None)
            }
            _ => None,
        }
    }
}

impl GuestModule for Harness {
    fn call(&mut self, export: &str, args: &Vec<u64>) -> Result<Option<u64>, Trap> {
        self.calls.push((export.to_string(), args.clone()));
        if self.trap_on.as_deref() == Some(export) {
            return Err(Trap {});
        }
        match export {
            "allocate" => {
                self.allocations += 1;
                if let Some(n) = self.null_from_allocation {
                    if self.allocations > n {
                        self.allocations -= 1;
                        return Ok(Some(0));
                    }
                }
                self.inner.call(export, args)
            }
            "deallocate" => {
                self.releases += 1;
                self.inner.call(export, args)
            }
            "mul" | "magnitude2" | "magnitude3" | "magnitude_foo" | "normalize2" | "double3" => {
                self.floats(export, args).ok_or(Trap {})
            }
            _ => self.inner.call(export, args),
        }
    }

    fn read(&self, address: u32, len: u32) -> Result<Vec<u8>, Trap> {
        if self.trap_on_read {
            return Err(Trap {});
        }
        let mut bytes = self.inner.read(address, len)?;
        if self.short_reads {
            bytes.pop();
        }
        Ok(bytes)
    }

    fn write(&mut self, address: u32, bytes: &Vec<u8>) -> Result<(), Trap> {
        if self.trap_on_write {
            return Err(Trap {});
        }
        self.inner.write(address, bytes)
    }
}

fn faulty(prepare: impl FnOnce(&mut Harness)) -> Session<Harness> {
    let mut harness = Harness::new();
    prepare(&mut harness);
    Session::new(harness)
}

fn invoke(
    guest: &mut Session<Harness>,
    export: Export,
    args: Vec<Value>,
) -> Result<Value, BridgeError> {
    let mut dispatcher = Dispatcher::new();
    let result = dispatcher.invoke(guest, &export.signature().unwrap(), &args);
    assert_eq!(dispatcher.memory.outstanding(), 0);
    assert_eq!(guest.guest().allocations, guest.guest().releases);
    assert_eq!(
        dispatcher.state,
        if result.is_ok() { CallState::Released } else { CallState::Failed }
    );
    result
}

fn float(value: &Value) -> f64 {
    match value {
        Value::F64(bits) => f64::from_bits(*bits),
        other => panic!("no float: {:?}", other),
    }
}

fn vector2(x: f64, y: f64) -> Value {
    Value::Struct(vec![Value::F64(x.to_bits()), Value::F64(y.to_bits())])
}

fn vector3(x: f64, y: f64, z: f64) -> Value {
    Value::Struct(vec![Value::F64(x.to_bits()), Value::F64(y.to_bits()), Value::F64(z.to_bits())])
}

fn cornucopia_value(b: bool, n0: i16, n1: u8, n2: i64) -> Value {
    Cornucopia { b, n0, n1, n2 }.to_value()
}

#[test]
fn add_is_dispatched() {
    let mut guest = Session::new(Harness::new());
    assert_eq!(invoke(&mut guest, Export::Add, vec![Value::I64(2), Value::I64(3)]), Ok(Value::I64(5)));
    assert_eq!(
        invoke(&mut guest, Export::Add, vec![Value::I64(-2), Value::I64(-3)]),
        Ok(Value::I64(-5))
    );
    assert_eq!(guest.guest().allocations, 0);
}

#[test]
fn mul_is_dispatched() {
    let mut guest = Session::new(Harness::new());
    let product = invoke(
        &mut guest,
        Export::Mul,
        vec![Value::F64(2.5f64.to_bits()), Value::F64(4.0f64.to_bits())],
    )
    .unwrap();
    assert_eq!(float(&product), 10.0);
}

#[test]
fn not_is_dispatched() {
    let mut guest = Session::new(Harness::new());
    assert_eq!(invoke(&mut guest, Export::Not, vec![Value::Bool(true)]), Ok(Value::Bool(false)));
    assert_eq!(invoke(&mut guest, Export::Not, vec![Value::Bool(false)]), Ok(Value::Bool(true)));
}

#[test]
fn is_prime_is_dispatched() {
    let mut guest = Session::new(Harness::new());
    assert_eq!(invoke(&mut guest, Export::IsPrime, vec![Value::U64(7)]), Ok(Value::Bool(true)));
    assert_eq!(invoke(&mut guest, Export::IsPrime, vec![Value::U64(8)]), Ok(Value::Bool(false)));
    assert_eq!(invoke(&mut guest, Export::IsPrime, vec![Value::U64(2)]), Ok(Value::Bool(true)));
}

#[test]
fn fact_is_dispatched() {
    let mut guest = Session::new(Harness::new());
    assert_eq!(invoke(&mut guest, Export::Fact, vec![Value::U64(1)]), Ok(Value::U64(1)));
    assert_eq!(invoke(&mut guest, Export::Fact, vec![Value::U64(5)]), Ok(Value::U64(120)));
}

#[test]
fn neg32_is_dispatched() {
    let mut guest = Session::new(Harness::new());
    assert_eq!(invoke(&mut guest, Export::Neg32, vec![Value::I32(5)]), Ok(Value::I32(-5)));
    assert_eq!(invoke(&mut guest, Export::Neg32, vec![Value::I32(-5)]), Ok(Value::I32(5)));
}

#[test]
fn magnitude2_takes_its_struct_through_a_pointer() {
    let mut guest = Session::new(Harness::new());
    let length = invoke(&mut guest, Export::Magnitude2, vec![vector2(3.0, 4.0)]).unwrap();
    assert_eq!(float(&length), 5.0);
    assert_eq!(guest.guest().allocations, 1);
    assert_eq!(guest.guest().releases, 1);
    assert_eq!(
        guest.guest().calls,
        vec![
            ("allocate".to_string(), vec![16]),
            ("magnitude2".to_string(), vec![8]),
            ("deallocate".to_string(), vec![8, 16]),
        ]
    );
}

#[test]
fn magnitude3_takes_its_struct_through_a_pointer() {
    let mut guest = Session::new(Harness::new());
    let length = invoke(&mut guest, Export::Magnitude3, vec![vector3(2.0, 3.0, 6.0)]).unwrap();
    assert_eq!(float(&length), 7.0);
}

#[test]
fn magnitude_foo_reads_the_vector_inside_the_nested_structs() {
    let mut guest = Session::new(Harness::new());
    let baz = Value::Struct(vec![vector2(3.0, 4.0)]);
    let bar = Value::Struct(vec![Value::Bool(true), baz, Value::U16(9)]);
    let foo = Value::Struct(vec![Value::Bool(false), bar]);
    let length = invoke(&mut guest, Export::MagnitudeFoo, vec![foo]).unwrap();
    assert_eq!(float(&length), 5.0);
    assert_eq!(guest.guest().calls[0], ("allocate".to_string(), vec![40]));
}

#[test]
fn normalize2_answers_through_the_hidden_pointer() {
    let mut guest = Session::new(Harness::new());
    let unit = invoke(&mut guest, Export::Normalize2, vec![vector2(3.0, 4.0)]).unwrap();
    match &unit {
        Value::Struct(members) => {
            assert_eq!(members.len(), 2);
            assert!((float(&members[0]) - 0.6).abs() < 1e-9);
            assert!((float(&members[1]) - 0.8).abs() < 1e-9);
        }
        other => panic!("no struct: {:?}", other),
    }
    assert_eq!(guest.guest().allocations, 2);
    assert_eq!(guest.guest().releases, 2);
    assert_eq!(guest.guest().calls[2], ("normalize2".to_string(), vec![24, 8]));
    assert_eq!(guest.guest().inner.memory.bytes.len(), 8);
}

#[test]
fn double3_answers_through_the_hidden_pointer() {
    let mut guest = Session::new(Harness::new());
    let doubled = invoke(&mut guest, Export::Double3, vec![vector3(1.0, -2.5, 4.0)]).unwrap();
    assert_eq!(doubled, vector3(2.0, -5.0, 8.0));
}

#[test]
fn the_hidden_pointer_comes_last_where_the_signature_says_so() {
    let mut guest = Session::new(Harness::new());
    let mut signature = Export::Normalize2.signature().unwrap();
    signature.hidden_pointer_first = false;
    let mut dispatcher = Dispatcher::new();
    let result = dispatcher.invoke(&mut guest, &signature, &vec![vector2(3.0, 4.0)]);
    assert_eq!(guest.guest().calls[2], ("normalize2".to_string(), vec![8, 24]));
    assert!(result.is_ok());
    assert_eq!(dispatcher.memory.outstanding(), 0);
}

#[test]
fn cornucopia_answers_42_whatever_the_numbers() {
    let mut guest = Session::new(Harness::new());
    assert_eq!(
        invoke(&mut guest, Export::Cornucopia, vec![cornucopia_value(true, 1, 2, 3)]),
        Ok(Value::I64(42))
    );
    assert_eq!(
        invoke(&mut guest, Export::Cornucopia, vec![cornucopia_value(true, -9, 77, i64::MAX)]),
        Ok(Value::I64(42))
    );
}

#[test]
fn cornucopia_sums_the_numbers_when_the_flag_is_off() {
    let mut guest = Session::new(Harness::new());
    assert_eq!(
        invoke(&mut guest, Export::Cornucopia, vec![cornucopia_value(false, 1, 2, 3)]),
        Ok(Value::I64(6))
    );
    assert_eq!(
        invoke(&mut guest, Export::Cornucopia, vec![cornucopia_value(false, -10, 2, -3)]),
        Ok(Value::I64(-11))
    );
}

#[test]
fn a_wrong_argument_fails_before_the_guest_is_touched() {
    let mut guest = Session::new(Harness::new());
    let cases = vec![
        (Export::Add, vec![Value::I64(2)]),
        (Export::Add, vec![Value::I64(2), Value::U64(3)]),
        (Export::Add, vec![Value::I64(2), Value::I64(3), Value::I64(4)]),
        (Export::Magnitude2, vec![Value::F64(0)]),
        (Export::Magnitude2, vec![vector3(1.0, 2.0, 3.0)]),
        (Export::Cornucopia, vec![vector2(1.0, 2.0)]),
        (Export::Normalize2, vec![]),
    ];
    for (export, args) in cases {
        assert_eq!(invoke(&mut guest, export, args), Err(BridgeError::UnsupportedType));
    }
    assert!(guest.guest().calls.is_empty());
}

#[test]
fn a_signature_the_bridge_cannot_marshal_is_unsupported() {
    let mut guest = Session::new(Harness::new());
    let mut dispatcher = Dispatcher::new();
    let mut by_value = Export::Normalize2.signature().unwrap();
    by_value.returns_via_hidden_pointer = false;
    assert_eq!(
        dispatcher.invoke(&mut guest, &by_value, &vec![vector2(3.0, 4.0)]),
        Err(BridgeError::UnsupportedType)
    );
    let mut by_pointer = Export::Add.signature().unwrap();
    by_pointer.returns_via_hidden_pointer = true;
    assert_eq!(
        dispatcher.invoke(&mut guest, &by_pointer, &vec![Value::I64(1), Value::I64(2)]),
        Err(BridgeError::UnsupportedType)
    );
    let odd = CallSignature {
        export_name: "add".to_string(),
        param_types: vec![],
        return_type: TypeDescriptor::Primitive { kind: PrimitiveKind::I64, size: 4, align: 4 },
        returns_via_hidden_pointer: false,
        hidden_pointer_first: true,
    };
    assert_eq!(dispatcher.invoke(&mut guest, &odd, &vec![]), Err(BridgeError::UnsupportedType));
    assert_eq!(dispatcher.state, CallState::Failed);
    assert!(guest.guest().calls.is_empty());
}

#[test]
fn a_trapping_export_fails_the_call_and_leaks_nothing() {
    let mut guest = Session::new(Harness::new());
    assert_eq!(
        invoke(&mut guest, Export::Add, vec![Value::I64(i64::MAX), Value::I64(1)]),
        Err(BridgeError::GuestTrap)
    );
    assert_eq!(invoke(&mut guest, Export::Fact, vec![Value::U64(21)]), Err(BridgeError::GuestTrap));
    let mut trapping = faulty(|harness| harness.trap_on = Some("normalize2".to_string()));
    assert_eq!(
        invoke(&mut trapping, Export::Normalize2, vec![vector2(3.0, 4.0)]),
        Err(BridgeError::GuestTrap)
    );
    assert_eq!(trapping.guest().allocations, 2);
    assert_eq!(trapping.guest().releases, 2);
    assert_eq!(trapping.guest().inner.memory.bytes.len(), 8);
}

#[test]
fn a_failed_allocation_fails_the_call_and_leaks_nothing() {
    let mut guest = faulty(|harness| harness.null_from_allocation = Some(0));
    assert_eq!(
        invoke(&mut guest, Export::Magnitude2, vec![vector2(3.0, 4.0)]),
        Err(BridgeError::AllocationFailure)
    );
    assert_eq!(guest.guest().allocations, 0);
    let mut second = faulty(|harness| harness.null_from_allocation = Some(1));
    assert_eq!(
        invoke(&mut second, Export::Normalize2, vec![vector2(3.0, 4.0)]),
        Err(BridgeError::AllocationFailure)
    );
    assert_eq!(second.guest().allocations, 1);
    assert_eq!(second.guest().releases, 1);
    assert!(second.guest().calls.iter().all(|(name, _)| name != "normalize2"));
}

#[test]
fn a_fault_while_copying_fails_the_call_and_leaks_nothing() {
    let mut guest = faulty(|harness| harness.trap_on_write = true);
    assert_eq!(
        invoke(&mut guest, Export::Magnitude2, vec![vector2(3.0, 4.0)]),
        Err(BridgeError::GuestTrap)
    );
    assert_eq!(guest.guest().allocations, 1);
    assert_eq!(guest.guest().releases, 1);
    let mut reading = faulty(|harness| harness.trap_on_read = true);
    assert_eq!(
        invoke(&mut reading, Export::Double3, vec![vector3(1.0, 2.0, 3.0)]),
        Err(BridgeError::GuestTrap)
    );
    assert_eq!(reading.guest().allocations, 2);
    let mut short = faulty(|harness| harness.short_reads = true);
    assert_eq!(
        invoke(&mut short, Export::Double3, vec![vector3(1.0, 2.0, 3.0)]),
        Err(BridgeError::GuestTrap)
    );
    assert_eq!(short.guest().releases, 2);
}

#[test]
fn a_fault_in_deallocate_fails_the_call_but_clears_the_ledger() {
    let mut guest = faulty(|harness| harness.trap_on = Some("deallocate".to_string()));
    let mut dispatcher = Dispatcher::new();
    let result = dispatcher.invoke(
        &mut guest,
        &Export::Normalize2.signature().unwrap(),
        &vec![vector2(3.0, 4.0)],
    );
    assert_eq!(result, Err(BridgeError::GuestTrap));
    assert_eq!(dispatcher.memory.outstanding(), 0);
    assert_eq!(dispatcher.state, CallState::Failed);
    let calls = &guest.guest().calls;
    let attempts = calls.iter().filter(|(name, _)| name == "deallocate").count();
    assert_eq!(attempts, 2);
}

#[test]
fn a_call_leaves_earlier_allocations_in_the_ledger() {
    let mut guest = Session::new(Harness::new());
    let mut dispatcher = Dispatcher::new();
    let kept = dispatcher.memory.acquire(&mut guest, 32).unwrap();
    let result = dispatcher.invoke(
        &mut guest,
        &Export::Magnitude2.signature().unwrap(),
        &vec![vector2(6.0, 8.0)],
    );
    assert_eq!(float(&result.unwrap()), 10.0);
    assert_eq!(dispatcher.memory.outstanding(), 1);
    assert!(dispatcher.memory.holds(kept));
    let mut harness = guest.into_guest();
    harness.trap_on = Some("magnitude2".to_string());
    let mut guest = Session::new(harness);
    let failed = dispatcher.invoke(
        &mut guest,
        &Export::Magnitude2.signature().unwrap(),
        &vec![vector2(6.0, 8.0)],
    );
    assert_eq!(failed, Err(BridgeError::GuestTrap));
    assert_eq!(dispatcher.memory.outstanding(), 1);
    assert!(dispatcher.memory.holds(kept));
}

#[test]
fn the_dispatcher_memoizes_the_layouts_it_needs() {
    let mut guest = Session::new(Harness::new());
    let mut dispatcher = Dispatcher::new();
    assert_eq!(dispatcher.state, CallState::Idle);
    let signature = Export::Normalize2.signature().unwrap();
    assert!(dispatcher.invoke(&mut guest, &signature, &vec![vector2(3.0, 4.0)]).is_ok());
    assert_eq!(dispatcher.layouts.len(), 1);
    assert!(dispatcher.invoke(&mut guest, &signature, &vec![vector2(1.0, 0.0)]).is_ok());
    assert_eq!(dispatcher.layouts.len(), 1);
    let other = Export::Cornucopia.signature().unwrap();
    assert!(dispatcher.invoke(&mut guest, &other, &vec![cornucopia_value(true, 0, 0, 0)]).is_ok());
    assert_eq!(dispatcher.layouts.len(), 2);
}

#[test]
fn arguments_are_lowered_to_numbers_and_pointers() {
    let args = vec![Value::I32(-1), vector2(1.0, 2.0), Value::Bool(true), vector2(0.0, 0.0)];
    assert_eq!(
        marshal(&args, &vec![64, 128], None, true),
        Some(vec![0xffff_ffff, 64, 1, 128])
    );
    assert_eq!(
        marshal(&args, &vec![64, 128], Some(256), true),
        Some(vec![256, 0xffff_ffff, 64, 1, 128])
    );
    assert_eq!(
        marshal(&args, &vec![64, 128], Some(256), false),
        Some(vec![0xffff_ffff, 64, 1, 128, 256])
    );
    assert_eq!(marshal(&args, &vec![64], None, true), None);
    assert_eq!(marshal(&args, &vec![64, 128, 192], None, true), None);
    assert_eq!(marshal(&vec![], &vec![], Some(8), false), Some(vec![8]));
    assert_eq!(marshal(&vec![], &vec![], None, false), Some(vec![]));
}

#[test]
fn calls_are_checked_against_their_signature() {
    let signature = Export::Cornucopia.signature().unwrap();
    assert_eq!(check_call(&signature, &vec![cornucopia_value(true, 1, 2, 3)]), Ok(()));
    assert_eq!(check_call(&signature, &vec![]), Err(BridgeError::UnsupportedType));
    assert_eq!(check_call(&signature, &vec![Value::I64(1)]), Err(BridgeError::UnsupportedType));
    let mut odd = Export::Cornucopia.signature().unwrap();
    odd.param_types[0] = TypeDescriptor::Primitive { kind: PrimitiveKind::U8, size: 1, align: 2 };
    assert_eq!(check_call(&odd, &vec![Value::U8(1)]), Err(BridgeError::UnsupportedType));
}

#[test]
fn a_direct_answer_is_read_as_the_return_type() {
    assert_eq!(finish_direct(PrimitiveKind::I32, Ok(Some(0xffff_fffb))), Ok(Value::I32(-5)));
    assert_eq!(finish_direct(PrimitiveKind::Bool, Ok(Some(1))), Ok(Value::Bool(true)));
    assert_eq!(finish_direct(PrimitiveKind::U64, Ok(None)), Err(BridgeError::GuestTrap));
    assert_eq!(finish_direct(PrimitiveKind::U64, Err(Trap {})), Err(BridgeError::GuestTrap));
}

#[test]
fn a_hidden_answer_is_decoded_from_the_result_buffer() {
    let descriptor = vector2_type();
    let layout = layout_of(&descriptor).unwrap();
    let mut bytes = 0.6f64.to_le_bytes().to_vec();
    bytes.extend_from_slice(&0.8f64.to_le_bytes());
    assert_eq!(finish_hidden(&descriptor, &layout, Ok(bytes.clone())), Ok(vector2(0.6, 0.8)));
    assert_eq!(finish_hidden(&descriptor, &layout, Err(Trap {})), Err(BridgeError::GuestTrap));
    bytes.push(0);
    assert_eq!(finish_hidden(&descriptor, &layout, Ok(bytes)), Err(BridgeError::GuestTrap));
    assert_eq!(
        finish_hidden(&descriptor, &layout, Ok(vec![0u8; 15])),
        Err(BridgeError::GuestTrap)
    );
    let other = layout_of(&cornucopia_type()).unwrap();
    assert_eq!(
        finish_hidden(&descriptor, &other, Ok(vec![0u8; 16])),
        Err(BridgeError::LayoutMismatch)
    );
}

#[test]
fn call_states_follow_each_other() {
    assert_eq!(CallState::Idle.step(true), CallState::ArgsEncoded);
    assert_eq!(CallState::ArgsEncoded.step(true), CallState::Invoked);
    assert_eq!(CallState::Invoked.step(true), CallState::ResultDecoded);
    assert_eq!(CallState::ResultDecoded.step(true), CallState::Released);
    for state in [
        CallState::Idle,
        CallState::ArgsEncoded,
        CallState::Invoked,
        CallState::ResultDecoded,
    ] {
        assert!(!state.is_terminal());
        assert_eq!(state.step(false), CallState::Failed);
    }
    for state in [CallState::Released, CallState::Failed] {
        assert!(state.is_terminal());
        assert_eq!(state.step(true), state);
        assert_eq!(state.step(false), state);
    }
}
