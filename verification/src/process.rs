//! The per-process context that the term constructors and built-in functions
//! operate in: the table of atoms the process knows and the source of fresh
//! local references.

use vstd::prelude::*;

use crate::code::{Frame, Placement};
use crate::term::Term;

verus! {

/// One monitor record held by a monitored process: who watches it, and
/// under which name it was found.
pub enum Monitor {
    /// Monitored through its pid.
    Pid { monitoring_number: u64, monitoring_serial: u64 },
    /// Monitored through a registered name.
    Name { monitoring_number: u64, monitoring_serial: u64, monitored_name: String },
}

/// The process context. Atoms are interned here: an atom exists for the
/// process once some conversion has created it. The stack, frames and
/// mailbox carry the scheduler-facing state that the placed built-in
/// functions operate on.
pub struct Process {
    /// The names of the atoms this process knows, in order of creation.
    pub atoms: Vec<String>,
    /// The id that the next fresh local reference will carry.
    pub next_reference_id: u64,
    /// The number of this process's pid.
    pub pid_number: u64,
    /// The serial of this process's pid.
    pub pid_serial: u64,
    /// The argument stack.
    pub stack: Vec<Term>,
    /// The frame stack; the last element is the top frame.
    pub frames: Vec<Frame>,
    /// Messages received, oldest first.
    pub mailbox: Vec<Term>,
    /// References under which this process monitors others: the reference id
    /// and the monitored pid.
    pub monitors: Vec<(u64, (u64, u64))>,
    /// References under which this process is monitored.
    pub monitored_by: Vec<(u64, Monitor)>,
}

impl Process {
    /// True when the process knows an atom with the given name.
    pub open spec fn has_atom(self, name: Seq<char>) -> bool {
        exists|i: int| 0 <= i < self.atoms@.len() && self.atoms@[i]@ == name
    }

    /// Creates a process that knows no atoms, with an empty stack and
    /// mailbox and the pid `0.0`.
    pub fn new() -> (p: Process)
        ensures
            p.atoms@.len() == 0,
            p.next_reference_id == 0,
            p.stack@.len() == 0,
            p.frames@.len() == 0,
            p.mailbox@.len() == 0,
            p.monitors@.len() == 0,
            p.monitored_by@.len() == 0,
            p.pid_number == 0,
            p.pid_serial == 0,
    {
        Process {
            atoms: Vec::new(),
            next_reference_id: 0,
            pid_number: 0,
            pid_serial: 0,
            stack: Vec::new(),
            frames: Vec::new(),
            mailbox: Vec::new(),
            monitors: Vec::new(),
            monitored_by: Vec::new(),
        }
    }

    /// Pushes a term onto the argument stack.
    pub fn stack_push(&mut self, term: Term)
        ensures
            final(self).stack@ == old(self).stack@.push(term),
            final(self).atoms == old(self).atoms,
            final(self).frames == old(self).frames,
            final(self).mailbox == old(self).mailbox,
            final(self).monitors == old(self).monitors,
            final(self).monitored_by == old(self).monitored_by,
            final(self).next_reference_id == old(self).next_reference_id,
            final(self).pid_number == old(self).pid_number,
            final(self).pid_serial == old(self).pid_serial,
    {
        self.stack.push(term);
    }

    /// Pops the top of the argument stack.
    pub fn stack_pop(&mut self) -> (t: Option<Term>)
        ensures
            old(self).stack@.len() == 0 ==> t is None && final(self).stack@ == old(self).stack@,
            old(self).stack@.len() > 0 ==> (t matches Some(x) && x == old(self).stack@.last()
                && final(self).stack@ == old(self).stack@.drop_last()),
            final(self).atoms == old(self).atoms,
            final(self).frames == old(self).frames,
            final(self).mailbox == old(self).mailbox,
            final(self).monitors == old(self).monitors,
            final(self).monitored_by == old(self).monitored_by,
            final(self).next_reference_id == old(self).next_reference_id,
            final(self).pid_number == old(self).pid_number,
            final(self).pid_serial == old(self).pid_serial,
    {
        self.stack.pop()
    }

    /// Places a frame: pushed on top, or replacing the top frame.
    pub fn place_frame(&mut self, frame: Frame, placement: Placement)
        ensures
            placement == Placement::Push ==> final(self).frames@ == old(self).frames@.push(frame),
            placement == Placement::Replace ==> final(self).frames@ == (if old(
                self,
            ).frames@.len() == 0 {
                old(self).frames@.push(frame)
            } else {
                old(self).frames@.drop_last().push(frame)
            }),
            final(self).atoms == old(self).atoms,
            final(self).stack == old(self).stack,
            final(self).mailbox == old(self).mailbox,
            final(self).monitors == old(self).monitors,
            final(self).monitored_by == old(self).monitored_by,
            final(self).next_reference_id == old(self).next_reference_id,
            final(self).pid_number == old(self).pid_number,
            final(self).pid_serial == old(self).pid_serial,
    {
        match placement {
            Placement::Push => self.frames.push(frame),
            Placement::Replace => {
                let _ = self.frames.pop();
                self.frames.push(frame);
            },
        }
    }

    /// Delivers a message to this process's own mailbox.
    pub fn send_from_self(&mut self, message: Term)
        ensures
            final(self).mailbox@ == old(self).mailbox@.push(message),
            final(self).atoms == old(self).atoms,
            final(self).stack == old(self).stack,
            final(self).frames == old(self).frames,
            final(self).monitors == old(self).monitors,
            final(self).monitored_by == old(self).monitored_by,
            final(self).next_reference_id == old(self).next_reference_id,
            final(self).pid_number == old(self).pid_number,
            final(self).pid_serial == old(self).pid_serial,
    {
        self.mailbox.push(message);
    }

    /// True when the process knows an atom with the given name.
    pub fn knows_atom(&self, name: &String) -> (r: bool)
        ensures
            r == self.has_atom(name@),
    {
        let mut i: usize = 0;
        while i < self.atoms.len()
            invariant
                0 <= i <= self.atoms@.len(),
                forall|j: int| 0 <= j < i ==> self.atoms@[j]@ != name@,
            decreases self.atoms@.len() - i,
        {
            let hit = self.atoms[i].eq(name);
            if hit {
                proof {
                    assert(self.atoms@[i as int]@ == name@);
                }
                return true;
            }
            proof {
                assert(self.atoms@[i as int]@ != name@);
            }
            i = i + 1;
        }
        false
    }

    /// Records an atom name, if the process does not know it yet.
    pub fn intern_atom(&mut self, name: &String)
        ensures
            final(self).has_atom(name@),
            final(self).next_reference_id == old(self).next_reference_id,
            final(self).stack == old(self).stack,
            final(self).frames == old(self).frames,
            final(self).mailbox == old(self).mailbox,
            final(self).monitors == old(self).monitors,
            final(self).monitored_by == old(self).monitored_by,
            final(self).pid_number == old(self).pid_number,
            final(self).pid_serial == old(self).pid_serial,

            forall|n: Seq<char>| old(self).has_atom(n) ==> final(self).has_atom(n),
            forall|n: Seq<char>|
                final(self).has_atom(n) ==> old(self).has_atom(n) || n == name@,
    {
        if !self.knows_atom(name) {
            let ghost before = self.atoms@;
            self.atoms.push(name.clone());
            proof {
                assert(self.atoms@[before.len() as int]@ == name@);
                assert forall|n: Seq<char>| old(self).has_atom(n) implies self.has_atom(
                    n,
                ) by {
                    let i = choose|i: int|
                        0 <= i < before.len() && before[i]@ == n;
                    assert(self.atoms@[i]@ == n);
                }
            }
        }
    }

    /// Hands out a fresh local reference id. Wraps at the end of the id
    /// space, which the model treats as never reached in one process
    /// lifetime.
    pub fn fresh_reference_id(&mut self) -> (id: u64)
        ensures
            id == old(self).next_reference_id,
            final(self).next_reference_id == old(self).next_reference_id as nat + 1
                || final(self).next_reference_id == 0,
            final(self).atoms == old(self).atoms,
            final(self).stack == old(self).stack,
            final(self).frames == old(self).frames,
            final(self).mailbox == old(self).mailbox,
            final(self).monitors == old(self).monitors,
            final(self).monitored_by == old(self).monitored_by,
            final(self).pid_number == old(self).pid_number,
            final(self).pid_serial == old(self).pid_serial,

    {
        let id = self.next_reference_id;
        self.next_reference_id = self.next_reference_id.wrapping_add(1);
        id
    }
}

impl Default for Process {
    /// A process that knows no atoms.
    fn default() -> (p: Process)
        ensures
            p.atoms@.len() == 0,
            p.next_reference_id == 0,
    {
        Process::new()
    }
}

/// Conversion of a plain value into a term, in the context of a process.
pub trait IntoProcess {
    /// Converts `self` into the term that denotes it.
    fn into_process(self, process: &mut Process) -> Term;
}

} // verus!
