//! The state of the interactive shell: a command history, a machine, an
//! assembler and a scheduler. The line-reading loop around it is host I/O
//! and lives outside the library; it hands each trimmed line to the
//! library and prints what comes back.

use vstd::prelude::*;
use crate::assembler::Assembler;
use crate::scheduler::Scheduler;
use crate::vm::VM;

verus! {

/// The interactive shell's state.
pub struct REPL {
    pub command_buffer: Vec<String>,
    pub vm: VM,
    pub assembler: Assembler,
    pub scheduler: Scheduler,
}

impl REPL {
    /// A fresh shell: empty history, fresh machine and assembler.
    pub fn new() -> (r: REPL)
        ensures
            r.command_buffer@.len() == 0,
            r.vm@.program.len() == 0,
            r.vm@.pc == 0,
    {
        REPL {
            vm: VM::new(),
            command_buffer: Vec::new(),
            assembler: Assembler::new(),
            scheduler: Scheduler::new(),
        }
    }

    /// Remember an entered command in the history.
    pub fn record_command(&mut self, line: String)
        ensures
            final(self).command_buffer@.len() == old(self).command_buffer@.len() + 1,
            final(self).command_buffer@.last()@ == line@,
            final(self).vm == old(self).vm,
            final(self).assembler == old(self).assembler,
    {
        self.command_buffer.push(line);
    }
}

} // verus!
