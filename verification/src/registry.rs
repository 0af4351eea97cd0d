//! The process registry: every running process, and the names registered for
//! some of them.

use vstd::prelude::*;

use crate::process::Process;

verus! {

/// All running processes, indexed by a stable slot, with the registered
/// names pointing into them.
pub struct Registry {
    /// The processes.
    pub processes: Vec<Process>,
    /// Registered names: a name and the slot of the process holding it.
    pub names: Vec<(String, usize)>,
}

impl Registry {
    /// Every registered name points at a process.
    pub open spec fn wf(self) -> bool {
        forall|j: int|
            0 <= j < self.names@.len() ==> (#[trigger] self.names@[j]).1 < self.processes@.len()
    }

    /// A registry holding the given processes and no registered names.
    pub fn new(processes: Vec<Process>) -> (r: Registry)
        ensures
            r.wf(),
            r.processes == processes,
            r.names@.len() == 0,
    {
        Registry { processes, names: Vec::new() }
    }

    /// The slot of the first process with the given pid, if any.
    pub fn pid_to_process(&self, number: u64, serial: u64) -> (r: Option<usize>)
        ensures
            match r {
                Some(i) => 0 <= i < self.processes@.len() && self.processes@[i as int].pid_number
                    == number && self.processes@[i as int].pid_serial == serial,
                None => forall|i: int|
                    0 <= i < self.processes@.len() ==> !((#[trigger] self.processes@[i]).pid_number
                        == number && self.processes@[i].pid_serial == serial),
            },
    {
        let n = self.processes.len();
        let mut i: usize = 0;
        while i < n
            invariant
                0 <= i <= n,
                n == self.processes@.len(),
                forall|j: int|
                    0 <= j < i ==> !((#[trigger] self.processes@[j]).pid_number == number
                        && self.processes@[j].pid_serial == serial),
            decreases n - i,
        {
            if self.processes[i].pid_number == number && self.processes[i].pid_serial == serial {
                return Some(i);
            }
            i = i + 1;
        }
        None
    }

    /// The slot of the process registered under the given name, if any.
    pub fn atom_to_process(&self, name: &String) -> (r: Option<usize>)
        requires
            self.wf(),
        ensures
            match r {
                Some(i) => 0 <= i < self.processes@.len() && exists|j: int|
                    0 <= j < self.names@.len() && (#[trigger] self.names@[j]).0@ == name@
                        && self.names@[j].1 == i,
                None => forall|j: int|
                    0 <= j < self.names@.len() ==> (#[trigger] self.names@[j]).0@ != name@,
            },
    {
        let n = self.names.len();
        let mut i: usize = 0;
        while i < n
            invariant
                0 <= i <= n,
                n == self.names@.len(),
                self.wf(),
                forall|j: int| 0 <= j < i ==> (#[trigger] self.names@[j]).0@ != name@,
            decreases n - i,
        {
            let hit = self.names[i].0.eq(name);
            if hit {
                let slot = self.names[i].1;
                proof {
                    assert(self.names@[i as int].0@ == name@);
                }
                return Some(slot);
            }
            proof {
                assert(self.names@[i as int].0@ != name@);
            }
            i = i + 1;
        }
        None
    }

    /// Registers a name for a process.
    pub fn register_name(&mut self, name: String, slot: usize)
        requires
            old(self).wf(),
            slot < old(self).processes@.len(),
        ensures
            final(self).wf(),
            final(self).processes == old(self).processes,
            final(self).names@ == old(self).names@.push((name, slot)),
    {
        self.names.push((name, slot));
    }
}

} // verus!
