//! What the bridge asks of a loaded guest instance, and the record of what
//! it asked.

use vstd::prelude::*;

verus! {

/// A fault of the guest: a call that did not return, an export that does not
/// exist, an address outside linear memory.
#[derive(Clone, Copy, Debug, PartialEq, Eq, Structural)]
pub struct Trap {}

/// What the bridge needs of a loaded guest instance.
///
/// Nothing is promised of a guest: whatever an implementation answers, the
/// bridge stays within its own contracts.
pub trait GuestModule {
    /// Calls the export named `export` with numeric arguments and hands back
    /// its numeric result, if it has one.
    fn call(&mut self, export: &str, args: &Vec<u64>) -> Result<Option<u64>, Trap>;

    /// Reads `len` bytes of linear memory from `address` on.
    fn read(&self, address: u32, len: u32) -> Result<Vec<u8>, Trap>;

    /// Writes `bytes` to linear memory from `address` on.
    fn write(&mut self, address: u32, bytes: &Vec<u8>) -> Result<(), Trap>;
}

/// One request to a guest, with the guest's answer.
pub enum Interaction {
    Call { export: Seq<char>, args: Seq<u64>, answer: Result<Option<u64>, Trap> },
    Read { address: u32, len: u32, answer: Result<Seq<u8>, Trap> },
    Write { address: u32, bytes: Seq<u8>, answer: Result<(), Trap> },
}

impl Interaction {
    /// The interaction is a call of `export` with the arguments `args`.
    pub open spec fn is_call(self, export: Seq<char>, args: Seq<u64>) -> bool {
        self is Call && self->Call_export == export && self->Call_args == args
    }

    /// The interaction is a read of `len` bytes at `address`.
    pub open spec fn is_read(self, address: u32, len: u32) -> bool {
        self is Read && self->Read_address == address && self->Read_len == len
    }

    /// The interaction is a write of `bytes` at `address`.
    pub open spec fn is_write(self, address: u32, bytes: Seq<u8>) -> bool {
        self is Write && self->Write_address == address && self->Write_bytes == bytes
    }
}

/// What a read handed back, as the log keeps it.
pub open spec fn read_answer(answer: Result<Vec<u8>, Trap>) -> Result<Seq<u8>, Trap> {
    match answer {
        Ok(bytes) => Ok(bytes@),
        Err(trap) => Err(trap),
    }
}

/// A guest instance together with the log of every request made to it.
///
/// The guest can be reached through the session alone, so a function that
/// says how the log grew says which requests it made, and in which order.
pub struct Session<G: GuestModule> {
    guest: G,
    log: Ghost<Seq<Interaction>>,
}

impl<G: GuestModule> Session<G> {
    /// The requests made so far, the oldest first.
    pub closed spec fn log(&self) -> Seq<Interaction> {
        self.log@
    }

    /// The guest as it is now.
    pub closed spec fn instance(&self) -> G {
        self.guest
    }

    /// A session with a guest to which nothing has been said yet.
    pub fn new(guest: G) -> (session: Session<G>)
        ensures
            session.log() == Seq::<Interaction>::empty(),
            session.instance() == guest,
    {
        Session { guest, log: Ghost(Seq::empty()) }
    }

    /// The guest, to look at.
    pub fn guest(&self) -> (guest: &G)
        ensures
            *guest == self.instance(),
    {
        &self.guest
    }

    /// Ends the session and hands the guest back.
    pub fn into_guest(self) -> (guest: G)
        ensures
            guest == self.instance(),
    {
        self.guest
    }

    /// Calls an export of the guest and enters the call in the log.
    pub fn call(&mut self, export: &str, args: &Vec<u64>) -> (answer: Result<Option<u64>, Trap>)
        ensures
            final(self).log() == old(self).log().push(
                Interaction::Call { export: export@, args: args@, answer },
            ),
    {
        let answer = self.guest.call(export, args);
        proof {
            self.log@ = self.log@.push(Interaction::Call { export: export@, args: args@, answer });
        }
        answer
    }

    /// Reads from the guest's memory and enters the read in the log.
    pub fn read(&mut self, address: u32, len: u32) -> (answer: Result<Vec<u8>, Trap>)
        ensures
            final(self).log() == old(self).log().push(
                Interaction::Read { address, len, answer: read_answer(answer) },
            ),
            final(self).instance() == old(self).instance(),
    {
        let answer = self.guest.read(address, len);
        proof {
            self.log@ = self.log@.push(
                Interaction::Read { address, len, answer: read_answer(answer) },
            );
        }
        answer
    }

    /// Writes to the guest's memory and enters the write in the log.
    pub fn write(&mut self, address: u32, bytes: &Vec<u8>) -> (answer: Result<(), Trap>)
        ensures
            final(self).log() == old(self).log().push(
                Interaction::Write { address, bytes: bytes@, answer },
            ),
    {
        let answer = self.guest.write(address, bytes);
        proof {
            self.log@ = self.log@.push(Interaction::Write { address, bytes: bytes@, answer });
        }
        answer
    }
}

} // verus!
