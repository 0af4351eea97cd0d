//! The table of native implementations that the `erlang` module exposes to
//! an interpreted program: each entry names a function, its arity, and
//! whether its implementation yields to the scheduler.

use vstd::prelude::*;

verus! {

/// One exported native function: its name, arity, and whether it yields.
pub struct NativeEntry {
    /// The function atom's name.
    pub function: String,
    /// The number of arguments.
    pub arity: u8,
    /// True when the implementation yields back to the scheduler.
    pub yielding: bool,
}

/// True when an entry exports `name/arity` with the given yielding mode.
pub open spec fn entry_is(e: NativeEntry, name: Seq<char>, arity: int, yielding: bool) -> bool {
    e.function@ == name && e.arity == arity && e.yielding == yielding
}

/// A module of native implementations, keyed by function name and arity.
pub struct NativeModule {
    /// The module atom's name.
    pub name: String,
    /// The exported entries, in registration order.
    pub entries: Vec<NativeEntry>,
}

impl NativeModule {
    /// An empty module of the given name.
    pub fn new(name: String) -> (m: NativeModule)
        ensures
            m.name == name,
            m.entries@.len() == 0,
    {
        NativeModule { name, entries: Vec::new() }
    }

    /// Registers a simple (non-yielding) native function.
    pub fn add_simple(&mut self, function: &str, arity: u8)
        ensures
            final(self).name == old(self).name,
            final(self).entries@.len() == old(self).entries@.len() + 1,
            forall|j: int|
                0 <= j < old(self).entries@.len() ==> #[trigger] final(self).entries@[j] == old(
                    self,
                ).entries@[j],
            entry_is(final(self).entries@.last(), function@, arity as int, false),
    {
        self.entries.push(NativeEntry { function: function.to_owned(), arity, yielding: false });
    }

    /// Registers a native function whose implementation yields.
    pub fn add_yielding(&mut self, function: &str, arity: u8)
        ensures
            final(self).name == old(self).name,
            final(self).entries@.len() == old(self).entries@.len() + 1,
            forall|j: int|
                0 <= j < old(self).entries@.len() ==> #[trigger] final(self).entries@[j] == old(
                    self,
                ).entries@[j],
            entry_is(final(self).entries@.last(), function@, arity as int, true),
    {
        self.entries.push(NativeEntry { function: function.to_owned(), arity, yielding: true });
    }
}

/// The native `erlang` module: every operator, guard, process and time
/// function an interpreted program may call, with its arity, in order.
pub fn make_erlang() -> (native: NativeModule)
    ensures
        native.name@ == "erlang"@,
        native.entries@.len() == 43,
        entry_is(native.entries@[0], "*"@, 2, false),
        entry_is(native.entries@[1], "/"@, 2, false),
        entry_is(native.entries@[2], "<"@, 2, false),
        entry_is(native.entries@[3], ">"@, 2, false),
        entry_is(native.entries@[4], "=<"@, 2, false),
        entry_is(native.entries@[5], ">="@, 2, false),
        entry_is(native.entries@[6], "=="@, 2, false),
        entry_is(native.entries@[7], "=:="@, 2, false),
        entry_is(native.entries@[8], "spawn_opt"@, 4, false),
        entry_is(native.entries@[9], "spawn"@, 3, false),
        entry_is(native.entries@[10], "spawn_link"@, 3, false),
        entry_is(native.entries@[11], "exit"@, 1, false),
        entry_is(native.entries@[12], "monitor"@, 2, false),
        entry_is(native.entries@[13], "demonitor"@, 2, false),
        entry_is(native.entries@[14], "register"@, 2, false),
        entry_is(native.entries@[15], "process_flag"@, 2, false),
        entry_is(native.entries@[16], "send"@, 2, false),
        entry_is(native.entries@[17], "send"@, 3, false),
        entry_is(native.entries@[18], "!"@, 2, false),
        entry_is(native.entries@[19], "-"@, 2, false),
        entry_is(native.entries@[20], "+"@, 2, false),
        entry_is(native.entries@[21], "self"@, 0, false),
        entry_is(native.entries@[22], "is_integer"@, 1, false),
        entry_is(native.entries@[23], "is_list"@, 1, false),
        entry_is(native.entries@[24], "is_binary"@, 1, false),
        entry_is(native.entries@[25], "is_atom"@, 1, false),
        entry_is(native.entries@[26], "is_pid"@, 1, false),
        entry_is(native.entries@[27], "is_function"@, 1, false),
        entry_is(native.entries@[28], "is_function"@, 2, false),
        entry_is(native.entries@[29], "is_tuple"@, 1, false),
        entry_is(native.entries@[30], "is_map"@, 1, false),
        entry_is(native.entries@[31], "is_bitstring"@, 1, false),
        entry_is(native.entries@[32], "is_float"@, 1, false),
        entry_is(native.entries@[33], "monotonic_time"@, 0, false),
        entry_is(native.entries@[34], "apply"@, 3, true),
        entry_is(native.entries@[35], "node"@, 0, false),
        entry_is(native.entries@[36], "node"@, 1, false),
        entry_is(native.entries@[37], "whereis"@, 1, false),
        entry_is(native.entries@[38], "process_info"@, 2, false),
        entry_is(native.entries@[39], "get"@, 1, false),
        entry_is(native.entries@[40], "put"@, 2, false),
        entry_is(native.entries@[41], "convert_time_unit"@, 3, false),
        entry_is(native.entries@[42], "element"@, 2, false),
{
    let mut native = NativeModule::new("erlang".to_owned());
    native.add_simple("*", 2);
    native.add_simple("/", 2);
    native.add_simple("<", 2);
    native.add_simple(">", 2);
    native.add_simple("=<", 2);
    native.add_simple(">=", 2);
    native.add_simple("==", 2);
    native.add_simple("=:=", 2);
    native.add_simple("spawn_opt", 4);
    native.add_simple("spawn", 3);
    native.add_simple("spawn_link", 3);
    native.add_simple("exit", 1);
    native.add_simple("monitor", 2);
    native.add_simple("demonitor", 2);
    native.add_simple("register", 2);
    native.add_simple("process_flag", 2);
    native.add_simple("send", 2);
    native.add_simple("send", 3);
    native.add_simple("!", 2);
    native.add_simple("-", 2);
    native.add_simple("+", 2);
    native.add_simple("self", 0);
    native.add_simple("is_integer", 1);
    native.add_simple("is_list", 1);
    native.add_simple("is_binary", 1);
    native.add_simple("is_atom", 1);
    native.add_simple("is_pid", 1);
    native.add_simple("is_function", 1);
    native.add_simple("is_function", 2);
    native.add_simple("is_tuple", 1);
    native.add_simple("is_map", 1);
    native.add_simple("is_bitstring", 1);
    native.add_simple("is_float", 1);
    native.add_simple("monotonic_time", 0);
    native.add_yielding("apply", 3);
    native.add_simple("node", 0);
    native.add_simple("node", 1);
    native.add_simple("whereis", 1);
    native.add_simple("process_info", 2);
    native.add_simple("get", 1);
    native.add_simple("put", 2);
    native.add_simple("convert_time_unit", 3);
    native.add_simple("element", 2);
    native
}

} // verus!
