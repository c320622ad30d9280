//! The protocol of a dispatched call, told over the log of a session: which
//! requests the dispatcher makes, in which order, and what each answer of
//! the guest leads to.

use crate::codec::{decoded, encoded, zeros};
use crate::dispatch::{guest_arguments, SignatureModel};
use crate::error::BridgeError;
use crate::guest::Interaction;
use crate::memory::{allocation_of, GuestAllocation};
use crate::types::Schema;
use crate::value::Datum;
use vstd::prelude::*;

verus! {

/// `longer` begins with the interactions of `run`.
pub open spec fn extends(longer: Seq<Interaction>, run: Seq<Interaction>) -> bool {
    run.len() <= longer.len() && forall|i: int| 0 <= i < run.len() ==> longer[i] == run[i]
}

/// How far a call has come along a run of interactions.
pub struct Progress {
    /// How many interactions of the run the call has made.
    pub at: nat,
    /// The regions acquired for the call, in the order of their acquisition.
    pub held: Seq<GuestAllocation>,
    /// The addresses of the copies of the struct arguments, in the order of the arguments.
    pub pointers: Seq<u32>,
    /// The first error that the call ran into.
    pub failure: Option<BridgeError>,
    /// The interactions made are those of the protocol.
    pub valid: bool,
}

/// A call that has not said anything to the guest yet.
pub open spec fn begun() -> Progress {
    Progress { at: 0, held: Seq::empty(), pointers: Seq::empty(), failure: None, valid: true }
}

/// The bytes that a struct argument is copied to the guest as: the value
/// encoded into zeros, as many as its type takes.
pub open spec fn staged(value: Datum, schema: Schema) -> Seq<u8> {
    encoded(value, schema, zeros(schema.size()), 0)
}

/// The next interaction acquires `size` bytes: a call of `allocate` with the
/// size. A region that comes back is held from then on; anything else makes
/// the call fail. A call that has failed acquires nothing more.
pub open spec fn acquired(p: Progress, size: u32, run: Seq<Interaction>) -> Progress {
    if !p.valid || p.failure is Some {
        p
    } else if p.at >= run.len() || !run[p.at as int].is_call("allocate"@, seq![size as u64]) {
        Progress { valid: false, ..p }
    } else {
        match allocation_of(run[p.at as int]->Call_answer, size) {
            Ok(allocation) => Progress { at: p.at + 1, held: p.held.push(allocation), ..p },
            Err(e) => Progress { at: p.at + 1, failure: Some(e), ..p },
        }
    }
}

/// The next interaction writes `bytes` to the region acquired last, whose
/// address then stands for the argument. A guest that faults makes the call fail.
pub open spec fn written(p: Progress, bytes: Seq<u8>, run: Seq<Interaction>) -> Progress {
    if !p.valid || p.failure is Some {
        p
    } else if p.at >= run.len() || p.held.len() == 0 || !run[p.at as int].is_write(
        p.held.last().pointer,
        bytes,
    ) {
        Progress { valid: false, ..p }
    } else if run[p.at as int]->Write_answer is Err {
        Progress { at: p.at + 1, failure: Some(BridgeError::GuestTrap), ..p }
    } else {
        Progress { at: p.at + 1, pointers: p.pointers.push(p.held.last().pointer), ..p }
    }
}

/// The first `n` arguments are placed: for each struct among them, in order,
/// a region of the size of its type is acquired and the staged value written
/// to it. A primitive needs no interaction.
pub open spec fn placed(
    signature: SignatureModel,
    args: Seq<Datum>,
    n: nat,
    run: Seq<Interaction>,
) -> Progress
    decreases n,
{
    if n == 0 {
        begun()
    } else {
        let before = placed(signature, args, (n - 1) as nat, run);
        if args[n - 1] is Struct {
            written(
                acquired(before, signature.params[n - 1].size() as u32, run),
                staged(args[n - 1], signature.params[n - 1]),
                run,
            )
        } else {
            before
        }
    }
}

/// Where the result comes back through the hidden pointer, a buffer of the
/// size of its type is acquired next.
pub open spec fn reserved(signature: SignatureModel, p: Progress, run: Seq<Interaction>) -> Progress {
    if signature.hidden {
        acquired(p, signature.result.size() as u32, run)
    } else {
        p
    }
}

/// The address of the result buffer: that of the region acquired last, where there is a buffer.
pub open spec fn result_buffer(signature: SignatureModel, p: Progress) -> Option<u32> {
    if signature.hidden && p.held.len() > 0 {
        Some(p.held.last().pointer)
    } else {
        None
    }
}

/// The next interaction is the call of the export, with the lowered
/// arguments. A guest that faults makes the call fail.
pub open spec fn called(
    signature: SignatureModel,
    args: Seq<Datum>,
    p: Progress,
    run: Seq<Interaction>,
) -> Progress {
    if !p.valid || p.failure is Some {
        p
    } else if p.at >= run.len() || !run[p.at as int].is_call(
        signature.export_name,
        guest_arguments(args, p.pointers, result_buffer(signature, p), signature.hidden_first),
    ) {
        Progress { valid: false, ..p }
    } else if run[p.at as int]->Call_answer is Err {
        Progress { at: p.at + 1, failure: Some(BridgeError::GuestTrap), ..p }
    } else {
        Progress { at: p.at + 1, ..p }
    }
}

/// The result is taken: a direct result from the answer of the call, which
/// must hold a number; a hidden one by reading the result buffer, which must
/// hand back as many bytes as the type takes. Anything else makes the call fail.
pub open spec fn concluded(signature: SignatureModel, p: Progress, run: Seq<Interaction>) -> Progress {
    if !p.valid || p.failure is Some {
        p
    } else if !signature.hidden {
        if p.at >= 1 && p.at <= run.len() && run[p.at - 1] is Call && run[p.at
            - 1]->Call_answer matches Ok(Some(_)) {
            p
        } else {
            Progress { failure: Some(BridgeError::GuestTrap), ..p }
        }
    } else if p.at >= run.len() || p.held.len() == 0 || !run[p.at as int].is_read(
        p.held.last().pointer,
        signature.result.size() as u32,
    ) {
        Progress { valid: false, ..p }
    } else if run[p.at as int]->Read_answer matches Ok(bytes) && bytes.len()
        == signature.result.size() {
        Progress { at: p.at + 1, ..p }
    } else {
        Progress { at: p.at + 1, failure: Some(BridgeError::GuestTrap), ..p }
    }
}

/// The value that a call that has come to its result without failing hands
/// back: the number of the answer read as the result's kind, or the bytes
/// of the result buffer decoded as the result's type.
pub open spec fn value_of(signature: SignatureModel, p: Progress, run: Seq<Interaction>) -> Datum {
    if signature.hidden {
        decoded(signature.result, run[p.at - 1]->Read_answer->Ok_0, 0)
    } else {
        Datum::from_raw(signature.result->kind, run[p.at - 1]->Call_answer->Ok_0->0)
    }
}

/// The last `n` regions held are given back, the one acquired last first,
/// each by a call of `deallocate` with its address and size. A call that has
/// failed gives its regions back all the same; a guest that faults here makes
/// a call fail that had not failed before.
pub open spec fn freed(p: Progress, n: nat, run: Seq<Interaction>) -> Progress
    decreases n,
{
    if n == 0 || n > p.held.len() {
        p
    } else {
        let q = freed(p, (n - 1) as nat, run);
        let region = p.held[p.held.len() - n];
        if !q.valid {
            q
        } else if q.at >= run.len() || !run[q.at as int].is_call(
            "deallocate"@,
            seq![region.pointer as u64, region.size as u64],
        ) {
            Progress { valid: false, ..q }
        } else if q.failure is None && run[q.at as int]->Call_answer is Err {
            Progress { at: q.at + 1, failure: Some(BridgeError::GuestTrap), ..q }
        } else {
            Progress { at: q.at + 1, ..q }
        }
    }
}

/// The call up to its result, before anything is given back.
pub open spec fn answered(signature: SignatureModel, args: Seq<Datum>, run: Seq<Interaction>) -> Progress {
    concluded(
        signature,
        called(
            signature,
            args,
            reserved(signature, placed(signature, args, args.len(), run), run),
            run,
        ),
        run,
    )
}

/// The whole call: the arguments placed, the result buffer reserved, the
/// export called, the result taken and every region given back.
pub open spec fn replayed(signature: SignatureModel, args: Seq<Datum>, run: Seq<Interaction>) -> Progress {
    let p = answered(signature, args, run);
    freed(p, p.held.len(), run)
}

/// `run` is, from its first interaction to its last, what the protocol asks
/// of the guest for this call, given what the guest answered.
pub open spec fn follows_protocol(
    signature: SignatureModel,
    args: Seq<Datum>,
    run: Seq<Interaction>,
) -> bool {
    replayed(signature, args, run).valid && replayed(signature, args, run).at == run.len()
}

/// What the call comes to: the first error it ran into, or the value of its result.
pub open spec fn outcome(signature: SignatureModel, args: Seq<Datum>, run: Seq<Interaction>) -> Result<
    Datum,
    BridgeError,
> {
    match replayed(signature, args, run).failure {
        Some(e) => Err(e),
        None => Ok(value_of(signature, answered(signature, args, run), run)),
    }
}

/// A longer log, cut at the same place, gives a longer run.
pub proof fn lemma_skip_extends(longer: Seq<Interaction>, log: Seq<Interaction>, origin: nat)
    requires
        extends(longer, log),
        origin <= log.len(),
    ensures
        extends(longer.skip(origin as int), log.skip(origin as int)),
{
    let a = longer.skip(origin as int);
    let b = log.skip(origin as int);
    assert forall|i: int| 0 <= i < b.len() implies a[i] == b[i] by {
        assert(a[i] == longer[i + origin]);
        assert(b[i] == log[i + origin]);
    }
}

/// A log with one more entry gives a run with one more entry.
pub proof fn lemma_skip_push(log: Seq<Interaction>, next: Seq<Interaction>, origin: nat)
    requires
        origin <= log.len(),
        next.len() == log.len() + 1,
        next.drop_last() == log,
    ensures
        next.skip(origin as int) == log.skip(origin as int).push(next.last()),
        extends(next, log),
        extends(next.skip(origin as int), log.skip(origin as int)),
{
    assert(next =~= log.push(next.last())) by {
        assert forall|i: int| 0 <= i < log.len() implies next[i] == log[i] by {
            assert(next.drop_last()[i] == next[i]);
        }
    }
    assert(next.skip(origin as int) =~= log.skip(origin as int).push(next.last()));
}

/// A step that stays valid within a run has read nothing beyond it: in a
/// longer run it comes out the same.
pub proof fn lemma_acquired_stable(
    p: Progress,
    size: u32,
    run: Seq<Interaction>,
    longer: Seq<Interaction>,
)
    requires
        extends(longer, run),
        acquired(p, size, run).valid,
        acquired(p, size, run).at <= run.len(),
    ensures
        acquired(p, size, longer) == acquired(p, size, run),
        p.valid,
        p.at <= acquired(p, size, run).at,
{
}

/// As `lemma_acquired_stable`, for a write.
pub proof fn lemma_written_stable(
    p: Progress,
    bytes: Seq<u8>,
    run: Seq<Interaction>,
    longer: Seq<Interaction>,
)
    requires
        extends(longer, run),
        written(p, bytes, run).valid,
        written(p, bytes, run).at <= run.len(),
    ensures
        written(p, bytes, longer) == written(p, bytes, run),
        p.valid,
        p.at <= written(p, bytes, run).at,
{
}

/// As `lemma_acquired_stable`, for the placing of the first `n` arguments.
pub proof fn lemma_placed_stable(
    signature: SignatureModel,
    args: Seq<Datum>,
    n: nat,
    run: Seq<Interaction>,
    longer: Seq<Interaction>,
)
    requires
        extends(longer, run),
        placed(signature, args, n, run).valid,
        placed(signature, args, n, run).at <= run.len(),
    ensures
        placed(signature, args, n, longer) == placed(signature, args, n, run),
    decreases n,
{
    if n > 0 {
        let before = placed(signature, args, (n - 1) as nat, run);
        if args[n - 1] is Struct {
            let size = signature.params[n - 1].size() as u32;
            let bytes = staged(args[n - 1], signature.params[n - 1]);
            lemma_written_stable(acquired(before, size, run), bytes, run, longer);
            lemma_acquired_stable(before, size, run, longer);
            lemma_placed_stable(signature, args, (n - 1) as nat, run, longer);
        } else {
            lemma_placed_stable(signature, args, (n - 1) as nat, run, longer);
        }
    }
}

/// A call that has failed while placing an argument places no further one.
pub proof fn lemma_placed_failed(
    signature: SignatureModel,
    args: Seq<Datum>,
    m: nat,
    n: nat,
    run: Seq<Interaction>,
)
    requires
        m <= n,
        placed(signature, args, m, run).valid,
        placed(signature, args, m, run).failure is Some,
    ensures
        placed(signature, args, n, run) == placed(signature, args, m, run),
    decreases n,
{
    if m < n {
        lemma_placed_failed(signature, args, m, (n - 1) as nat, run);
    }
}

/// As `lemma_acquired_stable`, for the call up to its result and for the value of the result.
pub proof fn lemma_answered_stable(
    signature: SignatureModel,
    args: Seq<Datum>,
    run: Seq<Interaction>,
    longer: Seq<Interaction>,
)
    requires
        extends(longer, run),
        answered(signature, args, run).valid,
        answered(signature, args, run).at <= run.len(),
    ensures
        answered(signature, args, longer) == answered(signature, args, run),
        answered(signature, args, run).failure is None ==> value_of(
            signature,
            answered(signature, args, longer),
            longer,
        ) == value_of(signature, answered(signature, args, run), run),
{
    let after_placing = placed(signature, args, args.len(), run);
    let after_reserving = reserved(signature, after_placing, run);
    let after_calling = called(signature, args, after_reserving, run);
    let after_concluding = concluded(signature, after_calling, run);
    assert(after_calling.valid && after_calling.at <= after_concluding.at);
    assert(after_reserving.valid && after_reserving.at <= after_calling.at);
    if signature.hidden {
        lemma_acquired_stable(after_placing, signature.result.size() as u32, run, longer);
    }
    assert(after_placing.valid && after_placing.at <= after_reserving.at);
    lemma_placed_stable(signature, args, args.len(), run, longer);
}

/// As `lemma_acquired_stable`, for the giving back of regions.
pub proof fn lemma_freed_stable(p: Progress, n: nat, run: Seq<Interaction>, longer: Seq<Interaction>)
    requires
        extends(longer, run),
        freed(p, n, run).valid,
        freed(p, n, run).at <= run.len(),
    ensures
        freed(p, n, longer) == freed(p, n, run),
    decreases n,
{
    if n > 0 && n <= p.held.len() {
        lemma_freed_stable(p, (n - 1) as nat, run, longer);
    }
}

/// Giving back `n` regions takes `n` interactions, each a call of
/// `deallocate` for one of the regions held, the one acquired last first.
pub proof fn lemma_freed_calls(p: Progress, n: nat, run: Seq<Interaction>)
    requires
        n <= p.held.len(),
        freed(p, n, run).valid,
    ensures
        p.valid,
        freed(p, n, run).at == p.at + n,
        freed(p, n, run).held == p.held,
        p.at + n <= run.len() || n == 0,
        forall|j: int|
            0 <= j < n ==> (#[trigger] run[p.at + j]).is_call(
                "deallocate"@,
                seq![
                    p.held[p.held.len() - 1 - j].pointer as u64,
                    p.held[p.held.len() - 1 - j].size as u64,
                ],
            ),
    decreases n,
{
    if n > 0 {
        lemma_freed_calls(p, (n - 1) as nat, run);
    }
}

/// A call that acquires regions gives each of them back, once: the run of a
/// call ends with as many calls of `deallocate` as regions were acquired for
/// it, one for each region, whether the call has failed or not.
pub proof fn lemma_every_region_is_given_back(
    signature: SignatureModel,
    args: Seq<Datum>,
    run: Seq<Interaction>,
)
    requires
        follows_protocol(signature, args, run),
    ensures
        ({
            let p = answered(signature, args, run);
            &&& p.valid
            &&& run.len() == p.at + p.held.len()
            &&& forall|j: int|
                0 <= j < p.held.len() ==> (#[trigger] run[p.at + j]).is_call(
                    "deallocate"@,
                    seq![
                        p.held[p.held.len() - 1 - j].pointer as u64,
                        p.held[p.held.len() - 1 - j].size as u64,
                    ],
                )
        }),
{
    let p = answered(signature, args, run);
    lemma_freed_calls(p, p.held.len(), run);
}

} // verus!
