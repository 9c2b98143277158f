//! The system call table and the choice of handler for a system call number.
use vstd::prelude::*;

verus! {

/// Number of system calls.
pub const NUM_SYSCALLS: usize = 1;

/// Number of the 'Hello World' test system call.
pub const SYS_HELLO_WORLD: usize = 0;

/// The addresses of the syscall handler functions, by system call number.
pub struct SyscallFunctionTable {
    table: Vec<u64>,
}

impl SyscallFunctionTable {
    /// The handler addresses.
    pub closed spec fn handlers(&self) -> Seq<u64> {
        self.table@
    }

    /// Create the table from the address of the 'Hello World' handler.
    pub fn new(sys_hello_world: u64) -> (r: SyscallFunctionTable)
        ensures
            r.handlers() == seq![sys_hello_world],
    {
        let mut table: Vec<u64> = Vec::new();
        table.push(sys_hello_world);
        SyscallFunctionTable { table }
    }

    /// The handler to call for system call number `number`, or `None` for an
    /// invalid number, for which the system aborts.
    pub fn dispatch(&self, number: u64) -> (r: Option<u64>)
        requires
            self.handlers().len() == NUM_SYSCALLS,
        ensures
            match r {
                Some(h) => number < NUM_SYSCALLS && h == self.handlers()[number as int],
                None => number >= NUM_SYSCALLS,
            },
    {
        if number >= NUM_SYSCALLS as u64 {
            None
        } else {
            Some(self.table[number as usize])
        }
    }
}

} // verus!
