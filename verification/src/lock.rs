//! The lock that keeps two runs of the tool from changing the system at
//! once. The lock is a file that holds the identifier of the process
//! that took it; here it is the state that the file stands for.

use vstd::prelude::*;
use vstd::string::StringExecFns;
use crate::text::{push_decimal, spec_decimal};

verus! {

#[derive(Debug, PartialEq, Eq, Structural, Clone, Copy)]
pub enum LockError {
    /// Another process holds the lock.
    LockHeld,
}

/// The lock: free, or held by the process with the given identifier.
#[derive(Debug)]
pub struct Lock {
    pub holder: Option<String>,
}

impl View for Lock {
    type V = Option<Seq<char>>;

    open spec fn view(&self) -> Option<Seq<char>> {
        match self.holder {
            Some(id) => Some(id@),
            None => None,
        }
    }
}

impl Lock {
    /// A free lock.
    pub fn new() -> (lock: Lock)
        ensures
            lock@.is_none(),
    {
        Lock { holder: None }
    }

    /// Whether any process holds the lock.
    pub fn is_lock_on(&self) -> (held: bool)
        ensures
            held == self@.is_some(),
    {
        self.holder.is_some()
    }

    /// Takes the lock for the process. Fails, and changes nothing, where
    /// another process holds it; a process that holds it already keeps it.
    pub fn lock_on(&mut self, proc_id: &str) -> (taken: Result<(), LockError>)
        ensures
            match taken {
                Ok(_) => (old(self)@.is_none() || old(self)@ == Some(proc_id@)) && final(self)@
                    == Some(proc_id@),
                Err(e) => e == LockError::LockHeld && old(self)@.is_some() && old(self)@ != Some(
                    proc_id@,
                ) && final(self)@ == old(self)@,
            },
    {
        let free = match &self.holder {
            Some(id) => {
                if id.as_str().eq(proc_id) {
                    return Ok(());
                }
                false
            },
            None => true,
        };
        if free {
            self.holder = Some(proc_id.to_owned());
            Ok(())
        } else {
            Err(LockError::LockHeld)
        }
    }

    /// Gives the lock back. A free lock stays free, without an error. Fails,
    /// and changes nothing, where another process holds the lock.
    pub fn lock_off(&mut self, proc_id: &str) -> (given: Result<(), LockError>)
        ensures
            match given {
                Ok(_) => (old(self)@.is_none() || old(self)@ == Some(proc_id@)) && final(self)@.is_none(),
                Err(e) => e == LockError::LockHeld && old(self)@.is_some() && old(self)@ != Some(
                    proc_id@,
                ) && final(self)@ == old(self)@,
            },
    {
        let ours = match &self.holder {
            Some(id) => id.as_str().eq(proc_id),
            None => true,
        };
        if ours {
            self.holder = None;
            Ok(())
        } else {
            Err(LockError::LockHeld)
        }
    }

    /// Frees the lock, whoever holds it.
    pub fn lock_off_force(&mut self)
        ensures
            final(self)@.is_none(),
    {
        self.holder = None;
    }
}

/// The identifier of a process: `rebos_`, the number of the process, `_`
/// and the second in which it started.
pub open spec fn spec_proc_id(pid: nat, started: nat) -> Seq<char> {
    seq!['r', 'e', 'b', 'o', 's', '_'] + spec_decimal(pid) + seq!['_'] + spec_decimal(started)
}

/// The identifier of a process, made of its number and the second in
/// which it started.
pub fn proc_id(pid: u32, started: u64) -> (id: String)
    ensures
        id@ == spec_proc_id(pid as nat, started as nat),
{
    proof {
        reveal_strlit("rebos_");
        assert("rebos_"@ =~= seq!['r', 'e', 'b', 'o', 's', '_']);
    }
    let mut id = String::new();
    id.append("rebos_");
    push_decimal(&mut id, pid as u64);
    id.push('_');
    push_decimal(&mut id, started);
    assert(id@ =~= spec_proc_id(pid as nat, started as nat));
    id
}

} // verus!
