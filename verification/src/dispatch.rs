//! The call dispatcher: one guest export called with host values.

use crate::codec::{decode, decoded, lemma_decoded_conforms, refusal, stage};
use crate::error::BridgeError;
use crate::guest::{GuestModule, Interaction, Session, Trap};
use crate::protocol::{
    acquired, answered, called, extends, follows_protocol, freed, lemma_acquired_stable,
    lemma_answered_stable, lemma_freed_stable, lemma_placed_failed, lemma_placed_stable,
    lemma_skip_extends, lemma_skip_push, outcome, placed, reserved, staged, value_of, Progress,
};
use crate::layout::{keeps, measure, LayoutCache, StructLayout};
use crate::memory::{GuestAllocation, MemoryBridge};
use crate::types::{PrimitiveKind, Schema, TypeDescriptor};
use crate::value::{data_of, lemma_data_of, Datum, Value};
use vstd::multiset::Multiset;
use vstd::prelude::*;
use vstd::seq_lib::to_multiset_build;

verus! {

/// One export of a guest: its name, the types of its parameters and of its
/// result, and how a result comes back.
#[derive(Debug)]
pub struct CallSignature {
    pub export_name: String,
    pub param_types: Vec<TypeDescriptor>,
    pub return_type: TypeDescriptor,
    /// The export writes its result to a buffer whose address it is handed as one more argument.
    pub returns_via_hidden_pointer: bool,
    /// That argument comes first; otherwise it comes last.
    pub hidden_pointer_first: bool,
}

/// The model of a call signature.
pub struct SignatureModel {
    pub export_name: Seq<char>,
    pub params: Seq<Schema>,
    pub result: Schema,
    pub hidden: bool,
    pub hidden_first: bool,
}

impl View for CallSignature {
    type V = SignatureModel;

    open spec fn view(&self) -> SignatureModel {
        SignatureModel {
            export_name: self.export_name@,
            params: Seq::new(self.param_types@.len(), |i: int| self.param_types@[i]@),
            result: self.return_type@,
            hidden: self.returns_via_hidden_pointer,
            hidden_first: self.hidden_pointer_first,
        }
    }
}

/// The arguments fit the signature, and the bridge can marshal every type in
/// it: each type is supported, a struct comes back through the hidden pointer
/// and a primitive directly, and there is one argument of the right type for
/// each parameter.
pub open spec fn well_typed(signature: SignatureModel, args: Seq<Datum>) -> bool {
    &&& signature.result.supported()
    &&& signature.hidden == (signature.result is Struct)
    &&& args.len() == signature.params.len()
    &&& forall|i: int|
        0 <= i < signature.params.len() ==> (#[trigger] signature.params[i]).supported()
            && args[i].conforms(signature.params[i])
}

/// Checks the arguments against the signature, before the guest is touched.
pub fn check_call(signature: &CallSignature, args: &Vec<Value>) -> (r: Result<(), BridgeError>)
    ensures
        r is Ok <==> well_typed(signature@, data_of(args@)),
        r matches Err(e) ==> e == BridgeError::UnsupportedType,
{
    proof {
        lemma_data_of(args@);
    }
    if measure(&signature.return_type).is_none() {
        return Err(BridgeError::UnsupportedType);
    }
    let by_pointer = match signature.return_type {
        TypeDescriptor::Struct { .. } => true,
        TypeDescriptor::Primitive { .. } => false,
    };
    if signature.returns_via_hidden_pointer != by_pointer || args.len()
        != signature.param_types.len() {
        return Err(BridgeError::UnsupportedType);
    }
    let mut i: usize = 0;
    while i < args.len()
        invariant
            i <= args@.len(),
            args@.len() == signature.param_types@.len(),
            forall|j: int|
                0 <= j < i ==> (#[trigger] signature@.params[j]).supported() && data_of(
                    args@,
                )[j].conforms(signature@.params[j]),
        decreases args@.len() - i,
    {
        proof {
            lemma_data_of(args@);
        }
        if measure(&signature.param_types[i]).is_none() || !args[i].conforms_to(
            &signature.param_types[i],
        ) {
            assert(!(signature@.params[i as int].supported() && data_of(args@)[i as int].conforms(
                signature@.params[i as int],
            )));
            return Err(BridgeError::UnsupportedType);
        }
        i += 1;
    }
    Ok(())
}

/// How many of the first `n` arguments are structs.
pub open spec fn struct_count(args: Seq<Datum>, n: nat) -> nat
    decreases n,
{
    if n == 0 || n > args.len() {
        0
    } else if args[n - 1] is Struct {
        struct_count(args, (n - 1) as nat) + 1
    } else {
        struct_count(args, (n - 1) as nat)
    }
}

/// The first `n` arguments as the guest receives them: a primitive as the
/// number that stands for it, a struct as the address of its copy in guest
/// memory, the addresses taken from `pointers` in order.
pub open spec fn lowered(args: Seq<Datum>, pointers: Seq<u32>, n: nat) -> Seq<u64>
    decreases n,
{
    if n == 0 || n > args.len() {
        Seq::empty()
    } else if args[n - 1] is Struct {
        lowered(args, pointers, (n - 1) as nat).push(
            pointers[struct_count(args, (n - 1) as nat) as int] as u64,
        )
    } else {
        lowered(args, pointers, (n - 1) as nat).push(args[n - 1].raw())
    }
}

/// The whole argument list of a guest call: the lowered arguments, and the
/// address of the result buffer before or behind them where there is one.
pub open spec fn guest_arguments(
    args: Seq<Datum>,
    pointers: Seq<u32>,
    result_buffer: Option<u32>,
    hidden_first: bool,
) -> Seq<u64> {
    let plain = lowered(args, pointers, args.len());
    match result_buffer {
        None => plain,
        Some(address) => if hidden_first {
            seq![address as u64] + plain
        } else {
            plain.push(address as u64)
        },
    }
}

/// Builds the argument list of a guest call from the host values, the
/// addresses of the struct arguments' copies and the address of the result
/// buffer. `None` where there is not one address for each struct argument.
pub fn marshal(
    args: &Vec<Value>,
    pointers: &Vec<u32>,
    result_buffer: Option<u32>,
    hidden_first: bool,
) -> (r: Option<Vec<u64>>)
    ensures
        r is Some <==> pointers@.len() == struct_count(data_of(args@), args@.len()),
        r matches Some(list) ==> list@ == guest_arguments(
            data_of(args@),
            pointers@,
            result_buffer,
            hidden_first,
        ),
{
    let ghost data = data_of(args@);
    proof {
        lemma_data_of(args@);
    }
    let mut list: Vec<u64> = Vec::new();
    if hidden_first {
        if let Some(address) = result_buffer {
            list.push(address as u64);
        }
    }
    let ghost prefix = list@;
    let mut used: usize = 0;
    let mut i: usize = 0;
    while i < args.len()
        invariant
            i <= args@.len(),
            data == data_of(args@),
            data.len() == args@.len(),
            used == struct_count(data, i as nat),
            used <= pointers@.len(),
            used <= i,
            list@ == prefix + lowered(data, pointers@, i as nat),
        decreases args@.len() - i,
    {
        proof {
            lemma_data_of(args@);
        }
        match args[i].kind() {
            Some(_) => {
                list.push(args[i].to_raw());
            },
            None => {
                if used >= pointers.len() {
                    proof {
                        lemma_struct_count_grows(data, (i + 1) as nat, args@.len() as nat);
                    }
                    return None;
                }
                list.push(pointers[used] as u64);
                used += 1;
            },
        }
        assert(list@ =~= prefix + lowered(data, pointers@, (i + 1) as nat));
        i += 1;
    }
    if used != pointers.len() {
        return None;
    }
    if !hidden_first {
        if let Some(address) = result_buffer {
            list.push(address as u64);
        }
    }
    assert(list@ =~= guest_arguments(data, pointers@, result_buffer, hidden_first));
    Some(list)
}

/// The count of structs among the first arguments grows with their number.
pub proof fn lemma_struct_count_grows(args: Seq<Datum>, m: nat, n: nat)
    requires
        m <= n <= args.len(),
    ensures
        struct_count(args, m) <= struct_count(args, n) <= n,
    decreases n,
{
    if m < n {
        lemma_struct_count_grows(args, m, (n - 1) as nat);
    } else if n > 0 {
        lemma_struct_count_grows(args, (n - 1) as nat, (n - 1) as nat);
    }
}

/// The result of a call that answers directly, for each answer of the guest:
/// the value of `kind` that the number stands for; a fault, or no number, is a trap.
pub fn finish_direct(kind: PrimitiveKind, answer: Result<Option<u64>, Trap>) -> (r: Result<
    Value,
    BridgeError,
>)
    ensures
        match answer {
            Ok(Some(raw)) => r is Ok && r->Ok_0@ == Datum::from_raw(kind, raw),
            _ => r == Err::<Value, BridgeError>(BridgeError::GuestTrap),
        },
{
    match answer {
        Ok(Some(raw)) => Ok(Value::from_raw(kind, raw)),
        _ => Err(BridgeError::GuestTrap),
    }
}

/// The result of a call that answers through the hidden pointer, for what
/// was read from the result buffer: the value decoded from just as many
/// bytes as the layout takes. A fault, or any other number of bytes, is a
/// trap; a descriptor or layout that the codec refuses is refused as there.
pub fn finish_hidden(
    descriptor: &TypeDescriptor,
    layout: &StructLayout,
    read: Result<Vec<u8>, Trap>,
) -> (r: Result<Value, BridgeError>)
    ensures
        r is Ok ==> r->Ok_0@ == decoded(descriptor@, read->Ok_0@, 0),
        r is Ok <==> read is Ok && read->Ok_0@.len() == layout@.size && refusal(
            None,
            descriptor@,
            layout@,
            layout@.size,
            0,
        ) is None,
        r matches Err(e) ==> e == if read is Ok && read->Ok_0@.len() == layout@.size {
            refusal(None, descriptor@, layout@, layout@.size, 0)->0
        } else {
            BridgeError::GuestTrap
        },
{
    match read {
        Ok(bytes) => {
            if bytes.len() != layout.size as usize {
                return Err(BridgeError::GuestTrap);
            }
            decode(descriptor, layout, &bytes, 0)
        },
        Err(_) => Err(BridgeError::GuestTrap),
    }
}

/// Where a dispatched call stands.
#[derive(Clone, Copy, Debug, PartialEq, Eq, Structural)]
pub enum CallState {
    Idle,
    ArgsEncoded,
    Invoked,
    ResultDecoded,
    Released,
    Failed,
}

impl CallState {
    /// A call ends released or failed.
    pub open spec fn terminal(self) -> bool {
        self == CallState::Released || self == CallState::Failed
    }

    /// The state that follows when a step succeeds; a terminal state stays.
    pub open spec fn following(self) -> CallState {
        match self {
            CallState::Idle => CallState::ArgsEncoded,
            CallState::ArgsEncoded => CallState::Invoked,
            CallState::Invoked => CallState::ResultDecoded,
            CallState::ResultDecoded => CallState::Released,
            CallState::Released => CallState::Released,
            CallState::Failed => CallState::Failed,
        }
    }

    /// Whether the call has ended.
    pub fn is_terminal(self) -> (r: bool)
        ensures
            r == self.terminal(),
    {
        match self {
            CallState::Released | CallState::Failed => true,
            _ => false,
        }
    }

    /// The state after a step: the following one where the step succeeded,
    /// `Failed` where it did not; a call that has ended stays where it is.
    pub fn step(self, succeeded: bool) -> (next: CallState)
        ensures
            next == if self.terminal() || succeeded {
                self.following()
            } else {
                CallState::Failed
            },
    {
        match self {
            CallState::Released => CallState::Released,
            CallState::Failed => CallState::Failed,
            _ if !succeeded => CallState::Failed,
            CallState::Idle => CallState::ArgsEncoded,
            CallState::ArgsEncoded => CallState::Invoked,
            CallState::Invoked => CallState::ResultDecoded,
            _ => CallState::Released,
        }
    }
}

/// Four successful steps lead from `Idle` to `Released`; a terminal state
/// stays where it is, and any other state moves on, never back to `Idle`.
pub proof fn lemma_call_states(state: CallState)
    ensures
        CallState::Idle.following().following().following().following() == CallState::Released,
        state.terminal() ==> state.following() == state,
        !state.terminal() ==> !(state.following() is Idle) && state.following() != state,
{
}

/// The dispatcher of one guest instance: its ledger, its layouts, and where its last call stands.
pub struct Dispatcher {
    pub memory: MemoryBridge,
    pub layouts: LayoutCache,
    pub state: CallState,
}

/// The error that a result stands for, if it stands for one.
pub open spec fn failure_of(r: Result<Value, BridgeError>) -> Option<BridgeError> {
    match r {
        Ok(_) => None,
        Err(e) => Some(e),
    }
}

impl Dispatcher {
    /// The dispatcher of a fresh guest instance.
    pub fn new() -> (dispatcher: Dispatcher)
        ensures
            dispatcher.layouts.well_formed(),
            dispatcher.memory@ == Multiset::<GuestAllocation>::empty(),
            dispatcher.state == CallState::Idle,
    {
        Dispatcher { memory: MemoryBridge::new(), layouts: LayoutCache::new(), state: CallState::Idle }
    }

    /// Copies each struct argument into guest memory. Every region acquired
    /// is entered in `held`, also when a later step fails.
    fn place<G: GuestModule>(
        &mut self,
        session: &mut Session<G>,
        signature: &CallSignature,
        args: &Vec<Value>,
        held: &mut Vec<GuestAllocation>,
        Ghost(origin): Ghost<nat>,
    ) -> (r: Result<Vec<u32>, BridgeError>)
        requires
            old(self).layouts.well_formed(),
            well_typed(signature@, data_of(args@)),
            old(held)@.len() == 0,
            origin == old(session).log().len(),
        ensures
            final(self).layouts.well_formed(),
            keeps(final(self).layouts@, old(self).layouts@),
            final(self).state == old(self).state,
            final(self).memory@ == old(self).memory@.add(final(held)@.to_multiset()),
            extends(final(session).log(), old(session).log()),
            r matches Ok(pointers) ==> pointers@.len() == struct_count(
                data_of(args@),
                args@.len(),
            ),
            r matches Err(e) ==> e == BridgeError::AllocationFailure || e == BridgeError::GuestTrap,
            ({
                let run = final(session).log().skip(origin as int);
                let p = placed(signature@, data_of(args@), args@.len(), run);
                &&& p.valid
                &&& p.at == run.len()
                &&& p.held == final(held)@
                &&& match r {
                    Ok(pointers) => p.failure is None && p.pointers == pointers@,
                    Err(e) => p.failure == Some(e),
                }
            }),
    {
        let ghost data = data_of(args@);
        let ghost before = self.memory@;
        let ghost sig = signature@;
        proof {
            lemma_data_of(args@);
            held@.to_multiset_ensures();
            vstd::multiset::lemma_multiset_empty_len(held@.to_multiset());
            assert(before =~= before.add(held@.to_multiset()));
            assert(session.log().skip(origin as int) =~= Seq::<Interaction>::empty());
            assert(held@ =~= Seq::<GuestAllocation>::empty());
        }
        let mut pointers: Vec<u32> = Vec::new();
        assert(pointers@ =~= Seq::<u32>::empty());
        let mut i: usize = 0;
        while i < args.len()
            invariant
                i <= args@.len(),
                data == data_of(args@),
                data.len() == args@.len(),
                sig == signature@,
                well_typed(sig, data),
                self.layouts.well_formed(),
                keeps(self.layouts@, old(self).layouts@),
                self.state == old(self).state,
                before == old(self).memory@,
                self.memory@ == before.add(held@.to_multiset()),
                pointers@.len() == struct_count(data, i as nat),
                origin <= session.log().len(),
                extends(session.log(), old(session).log()),
                placed(sig, data, i as nat, session.log().skip(origin as int)) == (Progress {
                    at: session.log().skip(origin as int).len(),
                    held: held@,
                    pointers: pointers@,
                    failure: None,
                    valid: true,
                }),
            decreases args@.len() - i,
        {
            proof {
                lemma_data_of(args@);
            }
            assert(sig.params[i as int].supported());
            if args[i].kind().is_none() {
                let ghost log0 = session.log();
                let ghost run0 = log0.skip(origin as int);
                let ghost so_far = placed(sig, data, i as nat, run0);
                let ghost schema = sig.params[i as int];
                let layout = self.layouts.layout_of(&signature.param_types[i])?;
                let acquired_region = self.memory.acquire(session, layout.size);
                let ghost log1 = session.log();
                let ghost run1 = log1.skip(origin as int);
                proof {
                    lemma_skip_push(log0, log1, origin);
                    lemma_placed_stable(sig, data, i as nat, run0, run1);
                    assert(run1[so_far.at as int] == log1.last());
                    assert(layout.size == schema.size() as u32);
                }
                let allocation = match acquired_region {
                    Ok(allocation) => allocation,
                    Err(e) => {
                        proof {
                            lemma_placed_failed(sig, data, (i + 1) as nat, args@.len(), run1);
                        }
                        return Err(e);
                    },
                };
                proof {
                    to_multiset_build(held@, allocation);
                    assert(before.add(held@.to_multiset()).insert(allocation) =~= before.add(
                        held@.to_multiset().insert(allocation),
                    ));
                }
                held.push(allocation);
                let buffer = stage(&args[i], &signature.param_types[i], &layout)?;
                let sent = session.write(allocation.pointer, &buffer);
                let ghost log2 = session.log();
                let ghost run2 = log2.skip(origin as int);
                proof {
                    assert(log2.drop_last() =~= log1);
                    lemma_skip_push(log1, log2, origin);
                    lemma_placed_stable(sig, data, i as nat, run0, run2);
                    lemma_acquired_stable(so_far, layout.size, run1, run2);
                    let q = acquired(so_far, layout.size, run2);
                    assert(run2[q.at as int] == log2.last());
                    assert(buffer@ == staged(data[i as int], schema));
                }
                if sent.is_err() {
                    proof {
                        lemma_placed_failed(sig, data, (i + 1) as nat, args@.len(), run2);
                    }
                    return Err(BridgeError::GuestTrap);
                }
                pointers.push(allocation.pointer);
            }
            i += 1;
        }
        Ok(pointers)
    }

    /// Places the arguments, reserves the result buffer, calls the export
    /// and takes its result. Every region acquired on the way is entered in `held`.
    fn perform<G: GuestModule>(
        &mut self,
        session: &mut Session<G>,
        signature: &CallSignature,
        args: &Vec<Value>,
        held: &mut Vec<GuestAllocation>,
        Ghost(origin): Ghost<nat>,
    ) -> (r: Result<Value, BridgeError>)
        requires
            old(self).layouts.well_formed(),
            old(self).state == CallState::Idle,
            well_typed(signature@, data_of(args@)),
            old(held)@.len() == 0,
            origin == old(session).log().len(),
        ensures
            final(self).layouts.well_formed(),
            keeps(final(self).layouts@, old(self).layouts@),
            final(self).memory@ == old(self).memory@.add(final(held)@.to_multiset()),
            extends(final(session).log(), old(session).log()),
            r is Ok ==> final(self).state == CallState::ResultDecoded,
            r matches Ok(value) ==> value@.conforms(signature@.result),
            r matches Err(e) ==> e == BridgeError::AllocationFailure || e == BridgeError::GuestTrap,
            ({
                let run = final(session).log().skip(origin as int);
                let p = answered(signature@, data_of(args@), run);
                &&& p.valid
                &&& p.at == run.len()
                &&& p.held == final(held)@
                &&& p.failure == failure_of(r)
                &&& r matches Ok(value) ==> value@ == value_of(signature@, p, run)
            }),
    {
        let ghost data = data_of(args@);
        let ghost sig = signature@;
        let ghost before = self.memory@;
        proof {
            lemma_data_of(args@);
        }
        let placing = self.place(session, signature, args, held, Ghost(origin));
        let ghost log1 = session.log();
        let ghost run1 = log1.skip(origin as int);
        let ghost at_placed = placed(sig, data, args@.len(), run1);
        let pointers = match placing {
            Ok(pointers) => pointers,
            Err(e) => {
                assert(reserved(sig, at_placed, run1) == at_placed);
                assert(answered(sig, data, run1) == at_placed);
                return Err(e);
            },
        };
        let mut result_buffer: Option<u32> = None;
        if signature.returns_via_hidden_pointer {
            let layout = self.layouts.layout_of(&signature.return_type)?;
            let acquired_region = self.memory.acquire(session, layout.size);
            proof {
                lemma_skip_push(log1, session.log(), origin);
                lemma_placed_stable(sig, data, args@.len(), run1, session.log().skip(origin as int));
                assert(session.log().skip(origin as int)[at_placed.at as int] == session.log().last());
                assert(layout.size == sig.result.size() as u32);
            }
            let allocation = match acquired_region {
                Ok(allocation) => allocation,
                Err(e) => {
                    proof {
                        let run = session.log().skip(origin as int);
                        let p = reserved(sig, placed(sig, data, args@.len(), run), run);
                        assert(p.failure == Some(e) && p.valid && p.at == run.len());
                        assert(called(sig, data, p, run) == p);
                        assert(answered(sig, data, run) == p);
                    }
                    return Err(e);
                },
            };
            proof {
                to_multiset_build(held@, allocation);
                assert(before.add(held@.to_multiset()).insert(allocation) =~= before.add(
                    held@.to_multiset().insert(allocation),
                ));
            }
            held.push(allocation);
            result_buffer = Some(allocation.pointer);
        }
        let ghost log2 = session.log();
        let ghost run2 = log2.skip(origin as int);
        let ghost at_reserved = reserved(sig, placed(sig, data, args@.len(), run2), run2);
        assert(at_reserved.valid && at_reserved.failure is None && at_reserved.at == run2.len() && at_reserved.held == held@
            && at_reserved.pointers == pointers@);
        let list = match marshal(args, &pointers, result_buffer, signature.hidden_pointer_first) {
            Some(list) => list,
            None => {
                return Err(BridgeError::GuestTrap);
            },
        };
        self.state = self.state.step(true);
        let answer = session.call(signature.export_name.as_str(), &list);
        let ghost log3 = session.log();
        let ghost run3 = log3.skip(origin as int);
        proof {
            assert(log3.drop_last() =~= log2);
            lemma_skip_push(log2, log3, origin);
            lemma_placed_stable(sig, data, args@.len(), run2, run3);
            if sig.hidden {
                lemma_acquired_stable(
                    placed(sig, data, args@.len(), run2),
                    sig.result.size() as u32,
                    run2,
                    run3,
                );
            }
            assert(run3[at_reserved.at as int] == log3.last());
            assert(extends(log3, old(session).log()));
        }
        if answer.is_err() {
            return Err(BridgeError::GuestTrap);
        }
        self.state = self.state.step(true);
        let ghost at_called = called(sig, data, at_reserved, run3);
        let value = match &signature.return_type {
            TypeDescriptor::Primitive { kind, size, align } => finish_direct(*kind, answer)?,
            TypeDescriptor::Struct { .. } => {
                let layout = self.layouts.layout_of(&signature.return_type)?;
                let address = match result_buffer {
                    Some(address) => address,
                    None => {
                        return Err(BridgeError::GuestTrap);
                    },
                };
                let read = session.read(address, layout.size);
                let ghost log4 = session.log();
                let ghost run4 = log4.skip(origin as int);
                proof {
                    assert(log4.drop_last() =~= log3);
                    lemma_skip_push(log3, log4, origin);
                    lemma_placed_stable(sig, data, args@.len(), run2, run4);
                    lemma_acquired_stable(
                        placed(sig, data, args@.len(), run2),
                        sig.result.size() as u32,
                        run2,
                        run4,
                    );
                    assert(run4[at_reserved.at as int] == run3[at_reserved.at as int]);
                    assert(called(sig, data, at_reserved, run4) == at_called);
                    assert(run4[at_called.at as int] == log4.last());
                    assert(layout.size == sig.result.size() as u32);
                    assert(extends(log4, old(session).log()));
                    if read is Ok {
                        lemma_decoded_conforms(signature.return_type@, read->Ok_0@, 0);
                    }
                }
                finish_hidden(&signature.return_type, &layout, read)?
            },
        };
        self.state = self.state.step(true);
        Ok(value)
    }

    /// Gives back every region in `held`, the one acquired last first. A
    /// guest that faults on one does not keep the others, and makes a call
    /// fail that had not failed before.
    fn release_all<G: GuestModule>(
        &mut self,
        session: &mut Session<G>,
        held: Vec<GuestAllocation>,
        outcome: Result<Value, BridgeError>,
        Ghost(before): Ghost<Multiset<GuestAllocation>>,
        Ghost(origin): Ghost<nat>,
        Ghost(p): Ghost<Progress>,
    ) -> (r: Result<Value, BridgeError>)
        requires
            old(self).memory@ == before.add(held@.to_multiset()),
            origin <= old(session).log().len(),
            p.valid,
            p.at == old(session).log().skip(origin as int).len(),
            p.held == held@,
            p.failure == failure_of(outcome),
        ensures
            final(self).memory@ == before,
            final(self).layouts == old(self).layouts,
            final(self).state == old(self).state,
            extends(final(session).log(), old(session).log()),
            r matches Ok(value) ==> outcome == Ok::<Value, BridgeError>(value),
            r matches Err(e) ==> e == BridgeError::GuestTrap || outcome == Err::<
                Value,
                BridgeError,
            >(e),
            ({
                let run = final(session).log().skip(origin as int);
                let f = freed(p, p.held.len(), run);
                &&& f.valid
                &&& f.at == run.len()
                &&& f.failure == failure_of(r)
            }),
    {
        let ghost given = outcome;
        let mut held = held;
        let mut outcome = outcome;
        let mut done: usize = 0;
        let total: usize = held.len();
        while held.len() > 0
            invariant
                self.memory@ == before.add(held@.to_multiset()),
                self.layouts == old(self).layouts,
                self.state == old(self).state,
                origin <= session.log().len(),
                extends(session.log(), old(session).log()),
                total == p.held.len(),
                done + held@.len() == total,
                held@ == p.held.take(held@.len() as int),
                outcome matches Ok(value) ==> given == Ok::<Value, BridgeError>(value),
                outcome matches Err(e) ==> e == BridgeError::GuestTrap || given == Err::<
                    Value,
                    BridgeError,
                >(e),
                ({
                    let run = session.log().skip(origin as int);
                    let f = freed(p, done as nat, run);
                    &&& f.valid
                    &&& f.at == run.len()
                    &&& f.failure == failure_of(outcome)
                }),
            decreases held@.len(),
        {
            let ghost full = held@;
            let ghost log0 = session.log();
            let ghost run0 = log0.skip(origin as int);
            if let Some(allocation) = held.pop() {
                proof {
                    assert(full =~= held@.push(allocation));
                    to_multiset_build(held@, allocation);
                    assert(before.add(held@.to_multiset().insert(allocation)).remove(allocation)
                        =~= before.add(held@.to_multiset()));
                    assert(allocation == p.held[p.held.len() - (done + 1)]);
                    assert(held@ =~= p.held.take(held@.len() as int));
                }
                let given_back = self.memory.release(session, allocation);
                proof {
                    let log1 = session.log();
                    let run1 = log1.skip(origin as int);
                    lemma_skip_push(log0, log1, origin);
                    lemma_freed_stable(p, done as nat, run0, run1);
                    assert(run1[run0.len() as int] == log1.last());
                }
                if given_back.is_err() && outcome.is_ok() {
                    outcome = Err(BridgeError::GuestTrap);
                }
                done += 1;
            }
        }
        proof {
            held@.to_multiset_ensures();
            vstd::multiset::lemma_multiset_empty_len(held@.to_multiset());
            assert(before.add(held@.to_multiset()) =~= before);
        }
        outcome
    }

    /// Calls one export of the guest with host values and hands back its result.
    ///
    /// The arguments are checked against the signature first: on a type error
    /// the call fails as unsupported and nothing is said to the guest.
    /// Otherwise the requests made to the guest are those of the protocol,
    /// from the first to the last: each struct argument is copied to a region
    /// acquired for it, the result buffer is acquired where the result comes
    /// back through the hidden pointer, the export is called with the
    /// lowered arguments, the result is taken, and every region acquired is
    /// given back, whether the call has failed or not. What the guest
    /// answers on the way decides what the call comes to, as `outcome` says.
    ///
    /// However the call ends, the ledger is as it was before.
    pub fn invoke<G: GuestModule>(
        &mut self,
        session: &mut Session<G>,
        signature: &CallSignature,
        args: &Vec<Value>,
    ) -> (r: Result<Value, BridgeError>)
        requires
            old(self).layouts.well_formed(),
        ensures
            final(self).layouts.well_formed(),
            keeps(final(self).layouts@, old(self).layouts@),
            final(self).memory@ == old(self).memory@,
            final(self).state == if r is Ok {
                CallState::Released
            } else {
                CallState::Failed
            },
            !well_typed(signature@, data_of(args@)) ==> r == Err::<Value, BridgeError>(
                BridgeError::UnsupportedType,
            ) && *final(session) == *old(session) && final(self).layouts == old(self).layouts,
            well_typed(signature@, data_of(args@)) ==> {
                let run = final(session).log().skip(old(session).log().len() as int);
                &&& extends(final(session).log(), old(session).log())
                &&& follows_protocol(signature@, data_of(args@), run)
                &&& match outcome(signature@, data_of(args@), run) {
                    Ok(value) => r is Ok && r->Ok_0@ == value,
                    Err(e) => r == Err::<Value, BridgeError>(e),
                }
            },
            r matches Ok(value) ==> value@.conforms(signature@.result),
            r matches Err(e) ==> e == BridgeError::UnsupportedType || e
                == BridgeError::AllocationFailure || e == BridgeError::GuestTrap,
            r matches Err(e) ==> (e == BridgeError::UnsupportedType <==> !well_typed(
                signature@,
                data_of(args@),
            )),
    {
        self.state = CallState::Idle;
        if check_call(signature, args).is_err() {
            self.state = CallState::Failed;
            return Err(BridgeError::UnsupportedType);
        }
        let ghost before = self.memory@;
        let ghost origin = session.log().len();
        let ghost sig = signature@;
        let ghost data = data_of(args@);
        proof {
            lemma_data_of(args@);
        }
        let mut held: Vec<GuestAllocation> = Vec::new();
        let answer = self.perform(session, signature, args, &mut held, Ghost(origin));
        let ghost log1 = session.log();
        let ghost run1 = log1.skip(origin as int);
        let ghost p = answered(sig, data, run1);
        let ghost shape = answer is Ok ==> answer->Ok_0@.conforms(sig.result);
        let r = self.release_all(session, held, answer, Ghost(before), Ghost(origin), Ghost(p));
        proof {
            let run2 = session.log().skip(origin as int);
            lemma_skip_extends(session.log(), log1, origin);
            lemma_answered_stable(sig, data, run1, run2);
            assert(shape);
        }
        match r {
            Ok(value) => {
                self.state = self.state.step(true);
                Ok(value)
            },
            Err(e) => {
                self.state = CallState::Failed;
                Err(e)
            },
        }
    }
}

} // verus!
