//! The named lock of a key: a semaphore that every process on the host can
//! open by its name.
//!
//! A lock is opened when its key is first waited for, and is never closed.
//! What is kept here is which keys this process has opened; to wait and to
//! release is the operating system's.

use crate::utils::text::{decimal, push_decimal};
use std::collections::HashSet;
use vstd::prelude::*;
use vstd::string::StringExecFns;

verus! {

broadcast use vstd::std_specs::hash::group_hash_axioms;

/// The count that a named lock is created with: one holder at a time.
pub const INITIAL_COUNT: u32 = 1;

/// The name under which the lock of `key` is shared.
pub fn semaphore_name(key: i32) -> (name: String)
    ensures
        name@ == "/dk-rinha-2024-sem-"@ + decimal(key as int),
{
    let mut name = String::from_str("/dk-rinha-2024-sem-");
    push_decimal(&mut name, key);
    name
}

/// The keys whose lock this process has opened.
pub struct Semaphore {
    sems: HashSet<i32>,
}

impl Semaphore {
    /// The keys whose lock this process has opened.
    pub closed spec fn opened(&self) -> Set<i32> {
        self.sems@
    }

    /// No lock is opened yet.
    pub fn new() -> (semaphore: Semaphore)
        ensures
            semaphore.opened() == Set::<i32>::empty(),
    {
        Semaphore { sems: HashSet::new() }
    }

    /// Before the caller waits for the lock of `key`: the name under which
    /// the lock is to be opened where this is the key's first wait, and
    /// nothing where the lock is open already. The key counts as opened
    /// from here on.
    pub fn wait(&mut self, key: i32) -> (open: Option<String>)
        ensures
            final(self).opened() == old(self).opened().insert(key),
            match open {
                Some(name) => !old(self).opened().contains(key) && name@
                    == "/dk-rinha-2024-sem-"@ + decimal(key as int),
                None => old(self).opened().contains(key),
            },
    {
        if self.sems.contains(&key) {
            proof {
                assert(self.sems@ =~= self.sems@.insert(key));
            }
            None
        } else {
            self.sems.insert(key);
            Some(semaphore_name(key))
        }
    }

    /// Before the caller releases the lock of `key`: whether this process
    /// has opened that lock. A lock that was never waited for is not
    /// released.
    pub fn release(&self, key: i32) -> (held: bool)
        ensures
            held == self.opened().contains(key),
    {
        self.sems.contains(&key)
    }
}

} // verus!
