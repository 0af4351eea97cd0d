//! The `erlang:monitor/2` built-in for process monitors: looks the monitored
//! process up by pid, registered name, or `{Name, Node}` tuple, records the
//! monitor on both sides under a fresh reference, and delivers an immediate
//! `DOWN` message with reason `noproc` when no such process runs.

use vstd::prelude::*;

use crate::code::{badarg, Alloc, CodeId, Exception, Frame, ModuleFunctionArity, Placement};
use crate::process::{Monitor, Process};
use crate::registry::Registry;
use crate::term::{Term, TermSpec};

verus! {

/// The name of the local node.
pub fn node_0() -> (t: Term)
    ensures
        t@ == TermSpec::Atom("nonode@nohost"@),
{
    Term::Atom("nonode@nohost".to_owned())
}

/// The atom naming this function.
pub fn function() -> (name: String)
    ensures
        name@ == "monitor"@,
{
    "monitor".to_owned()
}

/// The callable this module implements: `erlang:monitor/2`.
pub fn module_function_arity() -> (mfa: ModuleFunctionArity)
    ensures
        mfa.module@ == "erlang"@,
        mfa.function@ == "monitor"@,
        mfa.arity == 2,
{
    ModuleFunctionArity { module: "erlang".to_owned(), function: function(), arity: 2 }
}

/// True of the frame this module places.
pub open spec fn monitor_frame(f: Frame) -> bool {
    &&& f.code == CodeId::ErlangMonitorTwo
    &&& f.module_function_arity.module@ == "erlang"@
    &&& f.module_function_arity.function@ == "monitor"@
    &&& f.module_function_arity.arity == 2
}

/// The frame that runs this function.
pub fn frame() -> (f: Frame)
    ensures
        monitor_frame(f),
{
    Frame::new(module_function_arity(), CodeId::ErlangMonitorTwo)
}

/// Pushes the arguments and places the frame, so that the next scheduled
/// step runs `erlang:monitor/2`.
pub fn place_frame_with_arguments(
    process: &mut Process,
    placement: Placement,
    monitor_type: Term,
    item: Term,
) -> (r: Result<(), Alloc>)
    ensures
        r is Ok,
        final(process).stack@ == old(process).stack@.push(item).push(monitor_type),
        placement == Placement::Push ==> final(process).frames@.len() == old(process).frames@.len() + 1,
        placement == Placement::Replace ==> final(process).frames@.len() == (if old(
            process,
        ).frames@.len() == 0 {
            1int
        } else {
            old(process).frames@.len() as int
        }),
        forall|j: int|
            0 <= j < final(process).frames@.len() - 1 ==> #[trigger] final(process).frames@[j]
                == old(process).frames@[j],
        final(process).frames@.len() > 0 && monitor_frame(final(process).frames@.last()),
        final(process).mailbox == old(process).mailbox,
{
    process.stack_push(item);
    process.stack_push(monitor_type);
    process.place_frame(frame(), placement);
    Ok(())
}

/// The model of the `{DOWN, Reference, process, Identifier, Info}` message.
pub open spec fn down_message_view(
    reference: TermSpec,
    identifier: TermSpec,
    info: TermSpec,
) -> TermSpec {
    TermSpec::Tuple(
        seq![
            TermSpec::Atom("DOWN"@),
            reference,
            TermSpec::Atom("process"@),
            identifier,
            info,
        ],
    )
}

/// Some process runs under the given pid.
pub open spec fn pid_running(r: Registry, number: int, serial: int) -> bool {
    exists|m: int|
        0 <= m < r.processes@.len() && (#[trigger] r.processes@[m]).pid_number == number
            && r.processes@[m].pid_serial == serial
}

/// Some process is registered under the given name.
pub open spec fn name_registered(r: Registry, name: Seq<char>) -> bool {
    exists|j: int| 0 <= j < r.names@.len() && (#[trigger] r.names@[j]).0@ == name
}

/// Both sides recorded a monitor under the caller's fresh reference: the
/// caller remembers the monitored pid, and process `m` gained one
/// `monitored_by` entry under the same reference. The caller's mailbox is
/// untouched.
pub open spec fn monitor_recorded(before: Registry, after: Registry, caller: int, m: int) -> bool {
    let ref_id = before.processes@[caller].next_reference_id;
    &&& 0 <= caller < before.processes@.len()
    &&& 0 <= m < before.processes@.len()
    &&& after.processes@[caller].monitors@ == before.processes@[caller].monitors@.push(
        (ref_id, (before.processes@[m].pid_number, before.processes@[m].pid_serial)),
    )
    &&& after.processes@[m].monitored_by@.len() == before.processes@[m].monitored_by@.len() + 1
    &&& after.processes@[m].monitored_by@.drop_last() == before.processes@[m].monitored_by@
    &&& after.processes@[m].monitored_by@.last().0 == ref_id
    &&& after.processes@[caller].mailbox == before.processes@[caller].mailbox
}

/// The monitor entry process `m` gained.
pub open spec fn recorded_entry(after: Registry, m: int) -> Monitor {
    after.processes@[m].monitored_by@.last().1
}

/// True of a recorded pid monitor naming the caller.
pub open spec fn pid_monitor_by(before: Registry, after: Registry, caller: int, m: int) -> bool {
    recorded_entry(after, m) matches Monitor::Pid { monitoring_number, monitoring_serial }
        && monitoring_number == before.processes@[caller].pid_number && monitoring_serial
        == before.processes@[caller].pid_serial
}

/// True of a recorded name monitor naming the caller and the name.
pub open spec fn name_monitor_by(
    before: Registry,
    after: Registry,
    caller: int,
    m: int,
    name: Seq<char>,
) -> bool {
    recorded_entry(after, m) matches Monitor::Name {
        monitoring_number,
        monitoring_serial,
        monitored_name,
    } && monitoring_number == before.processes@[caller].pid_number && monitoring_serial
        == before.processes@[caller].pid_serial && monitored_name@ == name
}

/// The caller received the `{DOWN, Reference, process, Identifier, noproc}`
/// message for its fresh reference, and no monitor was recorded anywhere.
pub open spec fn noproc_delivered(
    before: Registry,
    after: Registry,
    caller: int,
    identifier: TermSpec,
) -> bool {
    &&& after.processes@[caller].mailbox@.len() == before.processes@[caller].mailbox@.len() + 1
    &&& after.processes@[caller].mailbox@.last()@ == down_message_view(
        TermSpec::Reference(before.processes@[caller].next_reference_id as int),
        identifier,
        TermSpec::Atom("noproc"@),
    )
    &&& forall|i: int|
        0 <= i < before.processes@.len() ==> (#[trigger] after.processes@[i]).monitors
            == before.processes@[i].monitors && after.processes@[i].monitored_by
            == before.processes@[i].monitored_by
}

/// Every process keeps its argument stack and frames.
pub open spec fn stacks_preserved(before: Registry, after: Registry) -> bool {
    forall|i: int|
        0 <= i < before.processes@.len() ==> (#[trigger] after.processes@[i]).stack
            == before.processes@[i].stack && after.processes@[i].frames
            == before.processes@[i].frames
}

/// The `{DOWN, Reference, process, Identifier, Info}` message delivered when
/// a monitored process goes down or never ran.
pub fn down_message(_process: &Process, reference: Term, identifier: Term, info: Term) -> (r:
    Result<Term, Alloc>)
    ensures
        r matches Ok(t) && t@ == down_message_view(reference@, identifier@, info@),
{
    let ghost reference_view = reference@;
    let ghost identifier_view = identifier@;
    let ghost info_view = info@;
    let mut elements: Vec<Term> = Vec::new();
    elements.push(Term::Atom("DOWN".to_owned()));
    elements.push(reference);
    elements.push(Term::Atom("process".to_owned()));
    elements.push(identifier);
    elements.push(info);
    proof {
        crate::term::lemma_terms_view(elements@);
        assert(crate::term::terms_view(elements@)[0] == crate::term::term_view(elements@[0]));
        assert(crate::term::terms_view(elements@)[1] == crate::term::term_view(elements@[1]));
        assert(crate::term::terms_view(elements@)[2] == crate::term::term_view(elements@[2]));
        assert(crate::term::terms_view(elements@)[3] == crate::term::term_view(elements@[3]));
        assert(crate::term::terms_view(elements@)[4] == crate::term::term_view(elements@[4]));
        assert(crate::term::terms_view(elements@) =~= seq![
            TermSpec::Atom("DOWN"@),
            reference_view,
            TermSpec::Atom("process"@),
            identifier_view,
            info_view,
        ]);
    }
    Ok(Term::Tuple(elements))
}

/// The `DOWN` message with reason `noproc`, for a monitored process that
/// does not run.
pub fn noproc_message(process: &Process, reference: Term, identifier: Term) -> (r: Result<
    Term,
    Alloc,
>)
    ensures
        r matches Ok(t) && t@ == down_message_view(
            reference@,
            identifier@,
            TermSpec::Atom("noproc"@),
        ),
{
    let noproc = Term::Atom("noproc".to_owned());
    down_message(process, reference, identifier, noproc)
}

/// A fresh reference id from the caller process.
fn fresh_reference(registry: &mut Registry, caller: usize) -> (id: u64)
    requires
        old(registry).wf(),
        caller < old(registry).processes@.len(),
    ensures
        final(registry).wf(),
        id == old(registry).processes@[caller as int].next_reference_id,
        final(registry).processes@.len() == old(registry).processes@.len(),
        final(registry).names == old(registry).names,
        forall|i: int|
            0 <= i < old(registry).processes@.len() && i != caller ==> #[trigger] final(registry).processes@[i] == old(registry).processes@[i],
        ({
            let before = old(registry).processes@[caller as int];
            let after = final(registry).processes@[caller as int];
            after.atoms == before.atoms && after.stack == before.stack && after.frames
                == before.frames && after.mailbox == before.mailbox && after.monitors
                == before.monitors && after.monitored_by == before.monitored_by
                && after.pid_number == before.pid_number && after.pid_serial == before.pid_serial
        }),
{
    let ghost prev = registry.processes@;
    let mut p = Process::new();
    registry.processes.set_and_swap(caller, &mut p);
    let id = p.fresh_reference_id();
    registry.processes.set_and_swap(caller, &mut p);
    proof {
        assert(registry.processes@ =~= prev.update(
            caller as int,
            registry.processes@[caller as int],
        ));
    }
    id
}

/// Appends a message to the caller's own mailbox.
fn deliver_to_self(registry: &mut Registry, caller: usize, message: Term)
    requires
        old(registry).wf(),
        caller < old(registry).processes@.len(),
    ensures
        final(registry).wf(),
        final(registry).processes@.len() == old(registry).processes@.len(),
        final(registry).names == old(registry).names,
        forall|i: int|
            0 <= i < old(registry).processes@.len() && i != caller ==> #[trigger] final(registry).processes@[i] == old(registry).processes@[i],
        ({
            let before = old(registry).processes@[caller as int];
            let after = final(registry).processes@[caller as int];
            after.mailbox@ == before.mailbox@.push(message) && after.atoms == before.atoms
                && after.stack == before.stack && after.frames == before.frames && after.monitors
                == before.monitors && after.monitored_by == before.monitored_by
                && after.next_reference_id == before.next_reference_id && after.pid_number
                == before.pid_number && after.pid_serial == before.pid_serial
        }),
{
    let ghost prev = registry.processes@;
    let mut p = Process::new();
    registry.processes.set_and_swap(caller, &mut p);
    p.send_from_self(message);
    registry.processes.set_and_swap(caller, &mut p);
    proof {
        assert(registry.processes@ =~= prev.update(
            caller as int,
            registry.processes@[caller as int],
        ));
    }
}

/// Records a monitor under `reference_id`: the caller remembers whom it
/// monitors, and the monitored process remembers the monitor.
fn record_monitor(
    registry: &mut Registry,
    caller: usize,
    monitored: usize,
    reference_id: u64,
    monitor: Monitor,
)
    requires
        old(registry).wf(),
        caller < old(registry).processes@.len(),
        monitored < old(registry).processes@.len(),
    ensures
        final(registry).wf(),
        final(registry).processes@.len() == old(registry).processes@.len(),
        final(registry).names == old(registry).names,
        forall|i: int|
            0 <= i < old(registry).processes@.len() && i != caller && i != monitored
                ==> #[trigger] final(registry).processes@[i] == old(registry).processes@[i],
        final(registry).processes@[caller as int].monitors@ == old(registry).processes@[caller as int].monitors@.push(
            (
                reference_id,
                (
                    old(registry).processes@[monitored as int].pid_number,
                    old(registry).processes@[monitored as int].pid_serial,
                ),
            ),
        ),
        final(registry).processes@[monitored as int].monitored_by@ == old(registry).processes@[monitored as int].monitored_by@.push((reference_id, monitor)),
        final(registry).processes@[caller as int].mailbox == old(registry).processes@[caller as int].mailbox,
        ({
            let before_c = old(registry).processes@[caller as int];
            let after_c = final(registry).processes@[caller as int];
            let before_m = old(registry).processes@[monitored as int];
            let after_m = final(registry).processes@[monitored as int];
            &&& after_c.stack == before_c.stack && after_c.frames == before_c.frames
                && after_c.atoms == before_c.atoms && after_c.next_reference_id
                == before_c.next_reference_id && after_c.pid_number == before_c.pid_number
                && after_c.pid_serial == before_c.pid_serial
            &&& after_m.stack == before_m.stack && after_m.frames == before_m.frames
                && after_m.atoms == before_m.atoms && after_m.next_reference_id
                == before_m.next_reference_id && after_m.pid_number == before_m.pid_number
                && after_m.pid_serial == before_m.pid_serial && after_m.mailbox
                == before_m.mailbox
            &&& caller != monitored ==> after_c.monitored_by == before_c.monitored_by
                && after_m.monitors == before_m.monitors
        }),
{
    let monitored_number = registry.processes[monitored].pid_number;
    let monitored_serial = registry.processes[monitored].pid_serial;
    if caller == monitored {
        let ghost prev = registry.processes@;
        let mut p = Process::new();
        registry.processes.set_and_swap(caller, &mut p);
        p.monitors.push((reference_id, (monitored_number, monitored_serial)));
        p.monitored_by.push((reference_id, monitor));
        registry.processes.set_and_swap(caller, &mut p);
        proof {
            assert(registry.processes@ =~= prev.update(
                caller as int,
                registry.processes@[caller as int],
            ));
        }
    } else {
        let ghost prev = registry.processes@;
        let mut p = Process::new();
        registry.processes.set_and_swap(caller, &mut p);
        p.monitors.push((reference_id, (monitored_number, monitored_serial)));
        registry.processes.set_and_swap(caller, &mut p);
        let mut q = Process::new();
        registry.processes.set_and_swap(monitored, &mut q);
        q.monitored_by.push((reference_id, monitor));
        registry.processes.set_and_swap(monitored, &mut q);
        proof {
            assert(registry.processes@ =~= prev.update(
                caller as int,
                registry.processes@[caller as int],
            ).update(monitored as int, registry.processes@[monitored as int]));
        }
    }
}

/// Monitors a process that turned out not to run: a fresh reference is
/// returned and a `noproc` `DOWN` message for it is delivered at once.
fn monitor_process_identifier_noproc(
    registry: &mut Registry,
    caller: usize,
    identifier: Term,
) -> (r: Result<Term, Exception>)
    requires
        old(registry).wf(),
        caller < old(registry).processes@.len(),
    ensures
        final(registry).wf(),
        final(registry).processes@.len() == old(registry).processes@.len(),
        r matches Ok(t) && t@ == TermSpec::Reference(
            old(registry).processes@[caller as int].next_reference_id as int,
        ),
        noproc_delivered(*old(registry), *final(registry), caller as int, identifier@),
        stacks_preserved(*old(registry), *final(registry)),
        final(registry).names == old(registry).names,
{
    let ghost at_entry = *registry;
    let id = fresh_reference(registry, caller);
    let reference = Term::LocalReference(id);
    let message = match noproc_message(&registry.processes[caller], reference.clone(), identifier) {
        Ok(m) => m,
        Err(_) => {
            return Err(badarg());
        },
    };
    let ghost before_deliver = *registry;
    deliver_to_self(registry, caller, message);
    proof {
        assert forall|i: int|
            0 <= i < at_entry.processes@.len() implies (#[trigger] registry.processes@[i]).monitors
            == at_entry.processes@[i].monitors && registry.processes@[i].monitored_by
            == at_entry.processes@[i].monitored_by && registry.processes@[i].stack
            == at_entry.processes@[i].stack && registry.processes@[i].frames
            == at_entry.processes@[i].frames by {
            if i != caller {
                assert(before_deliver.processes@[i] == at_entry.processes@[i]);
                assert(registry.processes@[i] == before_deliver.processes@[i]);
            }
        }
    }
    Ok(reference)
}

/// Monitors the process with the given (local) pid; a pid nobody runs under
/// gets the immediate `noproc` message.
fn monitor_process_pid(
    registry: &mut Registry,
    caller: usize,
    process_identifier: Term,
    number: u64,
    serial: u64,
) -> (r: Result<Term, Exception>)
    requires
        old(registry).wf(),
        caller < old(registry).processes@.len(),
    ensures
        final(registry).wf(),
        final(registry).processes@.len() == old(registry).processes@.len(),
        r matches Ok(t) && t@ == TermSpec::Reference(
            old(registry).processes@[caller as int].next_reference_id as int,
        ),
        pid_running(*old(registry), number as int, serial as int) ==> exists|m: int|
            0 <= m < old(registry).processes@.len() && (#[trigger] old(registry).processes@[m]).pid_number == number
                && old(registry).processes@[m].pid_serial == serial && monitor_recorded(
                *old(registry),
                *final(registry),
                caller as int,
                m,
            ) && pid_monitor_by(*old(registry), *final(registry), caller as int, m),
        !pid_running(*old(registry), number as int, serial as int) ==> noproc_delivered(
            *old(registry),
            *final(registry),
            caller as int,
            process_identifier@,
        ),
        stacks_preserved(*old(registry), *final(registry)),
        final(registry).names == old(registry).names,
{
    let found = registry.pid_to_process(number, serial);
    match found {
        Some(monitored) => {
            let ghost at_entry = *registry;
            let id = fresh_reference(registry, caller);
            let monitoring_number = registry.processes[caller].pid_number;
            let monitoring_serial = registry.processes[caller].pid_serial;
            let ghost mid_state = *registry;
            let monitor = Monitor::Pid { monitoring_number, monitoring_serial };
            record_monitor(registry, caller, monitored, id, monitor);
            proof {
                assert(id == at_entry.processes@[caller as int].next_reference_id);
                assert(mid_state.processes@[caller as int].monitors == at_entry.processes@[caller as int].monitors);
                assert(mid_state.processes@[monitored as int].pid_number == at_entry.processes@[monitored as int].pid_number);
                assert(mid_state.processes@[monitored as int].pid_serial == at_entry.processes@[monitored as int].pid_serial);
                assert(mid_state.processes@[monitored as int].monitored_by == at_entry.processes@[monitored as int].monitored_by);
                assert(registry.processes@[caller as int].monitors@ == at_entry.processes@[caller as int].monitors@.push(
                    (id, (at_entry.processes@[monitored as int].pid_number, at_entry.processes@[monitored as int].pid_serial)),
                ));
                assert(registry.processes@[monitored as int].monitored_by@ == mid_state.processes@[monitored as int].monitored_by@.push((id, monitor)));
                assert(registry.processes@[monitored as int].monitored_by@.drop_last()
                    =~= at_entry.processes@[monitored as int].monitored_by@);
                assert(registry.processes@[caller as int].mailbox == at_entry.processes@[caller as int].mailbox);
                assert(monitor_recorded(at_entry, *registry, caller as int, monitored as int));
                assert(pid_monitor_by(at_entry, *registry, caller as int, monitored as int));
                assert forall|i: int|
                    0 <= i < at_entry.processes@.len() implies (#[trigger] registry.processes@[i]).stack
                    == at_entry.processes@[i].stack && registry.processes@[i].frames
                    == at_entry.processes@[i].frames by {
                    if i != caller && i != monitored {
                        assert(mid_state.processes@[i] == at_entry.processes@[i]);
                        assert(registry.processes@[i] == mid_state.processes@[i]);
                    }
                }
            }
            Ok(Term::LocalReference(id))
        },
        None => monitor_process_identifier_noproc(registry, caller, process_identifier),
    }
}

/// Monitors the process registered under a name; an unregistered name gets
/// the immediate `noproc` message with a `{Name, Node}` identifier.
fn monitor_process_registered_name(
    registry: &mut Registry,
    caller: usize,
    process_identifier: Term,
    name: String,
) -> (r: Result<Term, Exception>)
    requires
        old(registry).wf(),
        caller < old(registry).processes@.len(),
    ensures
        final(registry).wf(),
        final(registry).processes@.len() == old(registry).processes@.len(),
        r matches Ok(t) && t@ == TermSpec::Reference(
            old(registry).processes@[caller as int].next_reference_id as int,
        ),
        name_registered(*old(registry), name@) ==> exists|m: int|
            0 <= m < old(registry).processes@.len() && monitor_recorded(
                *old(registry),
                *final(registry),
                caller as int,
                m,
            ) && name_monitor_by(*old(registry), *final(registry), caller as int, m, name@) && (
            exists|j: int|
                0 <= j < old(registry).names@.len() && (#[trigger] old(registry).names@[j]).0@
                    == name@ && old(registry).names@[j].1 == m),
        !name_registered(*old(registry), name@) ==> noproc_delivered(
            *old(registry),
            *final(registry),
            caller as int,
            TermSpec::Tuple(seq![process_identifier@, TermSpec::Atom("nonode@nohost"@)]),
        ),
        stacks_preserved(*old(registry), *final(registry)),
        final(registry).names == old(registry).names,
{
    let found = registry.atom_to_process(&name);
    match found {
        Some(monitored) => {
            let ghost at_entry = *registry;
            let id = fresh_reference(registry, caller);
            let monitoring_number = registry.processes[caller].pid_number;
            let monitoring_serial = registry.processes[caller].pid_serial;
            let ghost mid_state = *registry;
            let monitor = Monitor::Name {
                monitoring_number,
                monitoring_serial,
                monitored_name: name,
            };
            record_monitor(registry, caller, monitored, id, monitor);
            proof {
                assert(registry.processes@[monitored as int].monitored_by@.drop_last()
                    =~= at_entry.processes@[monitored as int].monitored_by@);
                assert(monitor_recorded(at_entry, *registry, caller as int, monitored as int));
                assert(name_monitor_by(at_entry, *registry, caller as int, monitored as int, name@));
                assert forall|i: int|
                    0 <= i < at_entry.processes@.len() implies (#[trigger] registry.processes@[i]).stack
                    == at_entry.processes@[i].stack && registry.processes@[i].frames
                    == at_entry.processes@[i].frames by {
                    if i != caller && i != monitored {
                        assert(mid_state.processes@[i] == at_entry.processes@[i]);
                        assert(registry.processes@[i] == mid_state.processes@[i]);
                    }
                }
            }
            Ok(Term::LocalReference(id))
        },
        None => {
            let mut elements: Vec<Term> = Vec::new();
            let ghost identifier_view = process_identifier@;
            elements.push(process_identifier);
            elements.push(node_0());
            proof {
                crate::term::lemma_terms_view(elements@);
                assert(crate::term::terms_view(elements@)[0] == crate::term::term_view(
                    elements@[0],
                ));
                assert(crate::term::terms_view(elements@)[1] == crate::term::term_view(
                    elements@[1],
                ));
                assert(crate::term::terms_view(elements@) =~= seq![
                    identifier_view,
                    TermSpec::Atom("nonode@nohost"@),
                ]);
            }
            let identifier = Term::Tuple(elements);
            monitor_process_identifier_noproc(registry, caller, identifier)
        },
    }
}

/// Monitors through a `{RegisteredName, Node}` tuple on the local node.
fn monitor_process_tuple(
    registry: &mut Registry,
    caller: usize,
    tuple: Vec<Term>,
) -> (r: Result<Term, Exception>)
    requires
        old(registry).wf(),
        caller < old(registry).processes@.len(),
        // A remote node is out of this model's scope: the node element, when
        // the tuple has the right shape, names the local node or is no atom.
        crate::term::terms_view(tuple@).len() == 2 ==> (crate::term::terms_view(tuple@)[1]
            matches TermSpec::Atom(node) ==> node == "nonode@nohost"@),
    ensures
        final(registry).wf(),
        final(registry).processes@.len() == old(registry).processes@.len(),
        ({
            let elems = crate::term::terms_view(tuple@);
            if elems.len() == 2 && elems[0] is Atom && elems[1] == TermSpec::Atom(
                "nonode@nohost"@,
            ) {
                &&& (r matches Ok(t) && t@ == TermSpec::Reference(
                    old(registry).processes@[caller as int].next_reference_id as int,
                ))
                &&& name_registered(*old(registry), elems[0]->Atom_0) ==> exists|m: int|
                    0 <= m < old(registry).processes@.len() && monitor_recorded(
                        *old(registry),
                        *final(registry),
                        caller as int,
                        m,
                    ) && name_monitor_by(
                        *old(registry),
                        *final(registry),
                        caller as int,
                        m,
                        elems[0]->Atom_0,
                    )
                &&& !name_registered(*old(registry), elems[0]->Atom_0) ==> noproc_delivered(
                    *old(registry),
                    *final(registry),
                    caller as int,
                    TermSpec::Tuple(seq![elems[0], TermSpec::Atom("nonode@nohost"@)]),
                )
            } else {
                r matches Err(e) && e.reason@ == TermSpec::Atom("badarg"@)
            }
        }),
        stacks_preserved(*old(registry), *final(registry)),
        final(registry).names == old(registry).names,
{
    proof {
        crate::term::lemma_terms_view(tuple@);
    }
    if tuple.len() != 2 {
        return Err(badarg());
    }
    let registered_name = tuple[0].clone();
    let name = match &registered_name {
        Term::Atom(s) => s.clone(),
        _ => {
            return Err(badarg());
        },
    };
    let node = tuple[1].clone();
    let local = node.eq(&node_0());
    if local {
        proof {
            assert(crate::term::terms_view(tuple@)[0] == crate::term::term_view(tuple@[0]));
            assert(registered_name@ == crate::term::terms_view(tuple@)[0]);
        }
        monitor_process_registered_name(registry, caller, registered_name, name)
    } else {
        match &node {
            Term::Atom(_) => {
                proof {
                    assert(false);
                }
                Err(badarg())
            },
            _ => Err(badarg()),
        }
    }
}

/// `erlang:monitor/2` for process monitors: the type must be the atom
/// `process`, and the item a local pid, a registered name, or a
/// `{Name, Node}` tuple for the local node. The fresh monitor reference is
/// returned; monitoring something that does not run delivers the `noproc`
/// `DOWN` message at once.
pub fn native(registry: &mut Registry, caller: usize, monitor_type: Term, item: Term) -> (r:
    Result<Term, Exception>)
    requires
        old(registry).wf(),
        caller < old(registry).processes@.len(),
        // Port and time-offset monitors, remote pids, and remote nodes are
        // out of this model's scope.
        monitor_type@ matches TermSpec::Atom(n) ==> n != "port"@ && n != "time_offset"@,
        !(item@ matches TermSpec::Pid { node, .. } && node != 0),
        item@ matches TermSpec::Tuple(elems) ==> (elems.len() == 2 ==> (elems[1]
            matches TermSpec::Atom(node) ==> node == "nonode@nohost"@)),
    ensures
        final(registry).wf(),
        final(registry).processes@.len() == old(registry).processes@.len(),
        r matches Ok(t) ==> t@ == TermSpec::Reference(
            old(registry).processes@[caller as int].next_reference_id as int,
        ),
        stacks_preserved(*old(registry), *final(registry)),
        final(registry).names == old(registry).names,
        ({
            let next_ref = TermSpec::Reference(
                old(registry).processes@[caller as int].next_reference_id as int,
            );
            match monitor_type@ {
                TermSpec::Atom(n) => if n == "process"@ {
                    match item@ {
                        TermSpec::Atom(name) => {
                            &&& (r matches Ok(t) && t@ == next_ref)
                            &&& name_registered(*old(registry), name) ==> exists|m: int|
                                0 <= m < old(registry).processes@.len() && monitor_recorded(
                                    *old(registry),
                                    *final(registry),
                                    caller as int,
                                    m,
                                ) && name_monitor_by(
                                    *old(registry),
                                    *final(registry),
                                    caller as int,
                                    m,
                                    name,
                                )
                            &&& !name_registered(*old(registry), name) ==> noproc_delivered(
                                *old(registry),
                                *final(registry),
                                caller as int,
                                TermSpec::Tuple(seq![item@, TermSpec::Atom("nonode@nohost"@)]),
                            )
                        },
                        TermSpec::Pid { node, number, serial } => {
                            &&& (r matches Ok(t) && t@ == next_ref)
                            &&& pid_running(*old(registry), number, serial) ==> exists|m: int|
                                0 <= m < old(registry).processes@.len() && (#[trigger] old(registry).processes@[m]).pid_number == number
                                    && old(registry).processes@[m].pid_serial == serial
                                    && monitor_recorded(
                                    *old(registry),
                                    *final(registry),
                                    caller as int,
                                    m,
                                ) && pid_monitor_by(
                                    *old(registry),
                                    *final(registry),
                                    caller as int,
                                    m,
                                )
                            &&& !pid_running(*old(registry), number, serial) ==> noproc_delivered(
                                *old(registry),
                                *final(registry),
                                caller as int,
                                item@,
                            )
                        },
                        TermSpec::Tuple(elems) => if elems.len() == 2 && elems[0] is Atom
                            && elems[1] == TermSpec::Atom("nonode@nohost"@) {
                            &&& (r matches Ok(t) && t@ == next_ref)
                            &&& name_registered(*old(registry), elems[0]->Atom_0) ==> exists|
                                m: int,
                            |
                                0 <= m < old(registry).processes@.len() && monitor_recorded(
                                    *old(registry),
                                    *final(registry),
                                    caller as int,
                                    m,
                                ) && name_monitor_by(
                                    *old(registry),
                                    *final(registry),
                                    caller as int,
                                    m,
                                    elems[0]->Atom_0,
                                )
                            &&& !name_registered(*old(registry), elems[0]->Atom_0)
                                ==> noproc_delivered(
                                *old(registry),
                                *final(registry),
                                caller as int,
                                TermSpec::Tuple(seq![elems[0], TermSpec::Atom("nonode@nohost"@)]),
                            )
                        } else {
                            r matches Err(e) && e.reason@ == TermSpec::Atom("badarg"@)
                        },
                        _ => r matches Err(e) && e.reason@ == TermSpec::Atom("badarg"@),
                    }
                } else {
                    r matches Err(e) && e.reason@ == TermSpec::Atom("badarg"@)
                },
                _ => (r matches Err(e) && e.reason@ == TermSpec::Atom("badarg"@)),
            }
        }),
{
    let monitor_kind = match &monitor_type {
        Term::Atom(s) => s.clone(),
        _ => {
            return Err(badarg());
        },
    };
    let is_process = monitor_kind.eq(&"process".to_owned());
    if !is_process {
        return Err(badarg());
    }
    match item {
        Term::Atom(name) => {
            let identifier = Term::Atom(name.clone());
            monitor_process_registered_name(registry, caller, identifier, name)
        },
        Term::LocalPid { number, serial } => {
            let identifier = Term::LocalPid { number, serial };
            monitor_process_pid(registry, caller, identifier, number, serial)
        },
        Term::ExternalPid { node, number, serial } => {
            // The precondition keeps remote pids out, so this pid names the
            // local node.
            let identifier = Term::ExternalPid { node, number, serial };
            monitor_process_pid(registry, caller, identifier, number, serial)
        },
        Term::Tuple(elements) => monitor_process_tuple(registry, caller, elements),
        _ => Err(badarg()),
    }
}

/// One scheduled step of `erlang:monitor/2`: pops the type and item this
/// module placed and leaves the monitor reference on the stack; a bad
/// argument raises instead.
pub fn code(registry: &mut Registry, caller: usize) -> (r: Result<(), Exception>)
    requires
        old(registry).wf(),
        caller < old(registry).processes@.len(),
        old(registry).processes@[caller as int].stack@.len() >= 2,
        ({
            let stack = old(registry).processes@[caller as int].stack@;
            let monitor_type = stack.last();
            let item = stack[stack.len() - 2];
            &&& (monitor_type@ matches TermSpec::Atom(n) ==> n != "port"@ && n
                != "time_offset"@)
            &&& !(item@ matches TermSpec::Pid { node, .. } && node != 0)
            &&& (item@ matches TermSpec::Tuple(elems) ==> (elems.len() == 2 ==> (elems[1]
                matches TermSpec::Atom(node) ==> node == "nonode@nohost"@)))
        }),
    ensures
        final(registry).wf(),
        final(registry).processes@.len() == old(registry).processes@.len(),
        r is Ok ==> final(registry).processes@[caller as int].stack@.len() == old(registry).processes@[caller as int].stack@.len() - 1,
        r is Ok ==> final(registry).processes@[caller as int].stack@.last()@
            == TermSpec::Reference(
            old(registry).processes@[caller as int].next_reference_id as int,
        ),
{
    let (monitor_type, item) = {
        let ghost prev = registry.processes@;
        let mut p = Process::new();
        registry.processes.set_and_swap(caller, &mut p);
        let monitor_type = match p.stack_pop() {
            Some(t) => t,
            None => {
                registry.processes.set_and_swap(caller, &mut p);
                return Err(badarg());
            },
        };
        let item = match p.stack_pop() {
            Some(t) => t,
            None => {
                registry.processes.set_and_swap(caller, &mut p);
                return Err(badarg());
            },
        };
        registry.processes.set_and_swap(caller, &mut p);
        proof {
            assert(registry.processes@ =~= prev.update(
                caller as int,
                registry.processes@[caller as int],
            ));
            assert(registry.processes@[caller as int].stack@ == old(registry).processes@[caller as int].stack@.drop_last().drop_last());
            assert(registry.processes@[caller as int].next_reference_id == old(registry).processes@[caller as int].next_reference_id);
        }
        (monitor_type, item)
    };
    let ghost popped = *registry;
    let result = native(registry, caller, monitor_type, item)?;
    proof {
        assert(registry.processes@[caller as int].stack == popped.processes@[caller as int].stack);
    }
    let ghost prev2 = registry.processes@;
    let mut p = Process::new();
    registry.processes.set_and_swap(caller, &mut p);
    p.stack_push(result);
    registry.processes.set_and_swap(caller, &mut p);
    proof {
        assert(registry.processes@ =~= prev2.update(
            caller as int,
            registry.processes@[caller as int],
        ));
    }
    Ok(())
}

} // verus!
