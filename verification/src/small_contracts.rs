//! The small contracts: a greeting, a reentrancy-guarded cross-contract
//! call, and a storage-lifetime extender.

use vstd::prelude::*;

verus! {

/// A contract that answers with a greeting.
pub struct HelloContract;

impl HelloContract {
    /// `["Hello", to]`.
    pub fn hello(to: String) -> (r: Vec<String>)
        ensures
            r@.len() == 2,
            r@[0]@ == "Hello"@,
            r@[1]@ == to@,
    {
        let mut v: Vec<String> = Vec::new();
        v.push("Hello".to_string());
        v.push(to);
        v
    }
}

#[derive(Copy, Clone, Debug, PartialEq, Eq, Structural)]
pub enum Error {
    /// A call to B was made while another was in progress.
    Reentrancy,
}

impl Error {
    /// The contract error code.
    pub fn code(&self) -> (r: u32)
        ensures
            r == 1,
    {
        1
    }
}

/// A contract that calls contract B's `ping` behind a reentrancy lock.
pub struct ContractA {
    /// A call to B is in progress.
    pub locked: bool,
}

impl ContractA {
    pub fn new() -> (r: ContractA)
        ensures
            !r.locked,
    {
        ContractA { locked: false }
    }

    /// Takes the lock; refused while it is held.
    pub fn lock(&mut self) -> (r: Result<(), Error>)
        ensures
            r == (if old(self).locked { Err(Error::Reentrancy) } else { Ok(()) }),
            final(self).locked,
    {
        if self.locked {
            return Err(Error::Reentrancy);
        }
        self.locked = true;
        Ok(())
    }

    /// Releases the lock.
    pub fn unlock(&mut self)
        ensures
            !final(self).locked,
    {
        self.locked = false;
    }

    /// The whole call to B, whose `ping` answered `reply`: refused while
    /// another call is in progress, else the reply, with the lock released.
    pub fn call_b(&mut self, reply: u32) -> (r: Result<u32, Error>)
        ensures
            r == (if old(self).locked { Err(Error::Reentrancy) } else { Ok(reply) }),
            final(self).locked == old(self).locked,
    {
        match self.lock() {
            Ok(()) => {},
            Err(e) => return Err(e),
        }
        self.unlock();
        Ok(reply)
    }
}

/// A contract that keeps its instance storage and its one persistent entry
/// alive.
pub struct TtlExtension {
    /// The persistent entry.
    pub value: Option<u32>,
}

impl TtlExtension {
    pub fn new() -> (r: TtlExtension)
        ensures
            r.value is None,
    {
        TtlExtension { value: None }
    }

    pub fn write(&mut self, value: u32)
        ensures
            final(self).value == Some(value),
    {
        self.value = Some(value);
    }

    /// Which of (instance storage, the persistent entry), with the given
    /// remaining lifetimes in ledgers, to extend: those below `threshold`.
    pub fn extend_ttl(instance_ttl: u32, persistent_ttl: u32, threshold: u32) -> (r: (bool, bool))
        ensures
            r == (instance_ttl < threshold, persistent_ttl < threshold),
    {
        (instance_ttl < threshold, persistent_ttl < threshold)
    }
}

} // verus!
