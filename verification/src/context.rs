use vstd::prelude::*;

verus! {

/// The interrupt-enable flag together with the bit of the flags register
/// that always reads as one.
pub const INITIAL_CPU_FLAGS: u64 = 0x202;

/// The general registers of a user program, as the interrupt entry saves
/// them.
#[derive(Clone, Copy, Debug, PartialEq, Eq, Structural)]
pub struct RegistersValue {
    pub r15: u64,
    pub r14: u64,
    pub r13: u64,
    pub r12: u64,
    pub r11: u64,
    pub r10: u64,
    pub r9: u64,
    pub r8: u64,
    pub rdi: u64,
    pub rsi: u64,
    pub rdx: u64,
    pub rcx: u64,
    pub rbx: u64,
    pub rax: u64,
    pub rbp: u64,
}

/// What the processor pushes when it takes an interrupt.
#[derive(Clone, Copy, Debug, PartialEq, Eq, Structural)]
pub struct StackFrame {
    pub instruction_pointer: u64,
    pub code_segment: u64,
    pub cpu_flags: u64,
    pub stack_pointer: u64,
    pub stack_segment: u64,
}

/// The user-mode segment selectors that a fresh process starts with.
#[derive(Clone, Copy, Debug, PartialEq, Eq, Structural)]
pub struct Selectors {
    pub code: u64,
    pub data: u64,
}

/// Everything of a user program that the processor can see: registers,
/// instruction and stack pointer, flags and segment selectors.
#[derive(Clone, Copy, Debug, PartialEq, Eq, Structural)]
pub struct ProcessContext {
    pub regs: RegistersValue,
    pub stack_frame: StackFrame,
}

impl ProcessContext {
    /// The context with every register and every field of the frame zero.
    pub open spec fn zero() -> ProcessContext {
        ProcessContext {
            regs: RegistersValue {
                r15: 0,
                r14: 0,
                r13: 0,
                r12: 0,
                r11: 0,
                r10: 0,
                r9: 0,
                r8: 0,
                rdi: 0,
                rsi: 0,
                rdx: 0,
                rcx: 0,
                rbx: 0,
                rax: 0,
                rbp: 0,
            },
            stack_frame: StackFrame {
                instruction_pointer: 0,
                code_segment: 0,
                cpu_flags: 0,
                stack_pointer: 0,
                stack_segment: 0,
            },
        }
    }

    /// This context with `value` in the register that carries a system
    /// call's number in and its result out.
    pub open spec fn with_rax(self, value: u64) -> ProcessContext {
        ProcessContext { regs: RegistersValue { rax: value, ..self.regs }, ..self }
    }

    /// The context in which a fresh program starts: registers zero, the
    /// instruction pointer at `entry`, the stack pointer at `stack_top`,
    /// interrupts enabled, user-mode selectors.
    pub open spec fn initial(entry: u64, stack_top: u64, selectors: Selectors) -> ProcessContext {
        ProcessContext {
            regs: Self::zero().regs,
            stack_frame: StackFrame {
                instruction_pointer: entry,
                code_segment: selectors.code,
                cpu_flags: INITIAL_CPU_FLAGS,
                stack_pointer: stack_top,
                stack_segment: selectors.data,
            },
        }
    }

    /// The all-zero context.
    pub fn new() -> (c: Self)
        ensures
            c == Self::zero(),
    {
        ProcessContext {
            regs: RegistersValue {
                r15: 0,
                r14: 0,
                r13: 0,
                r12: 0,
                r11: 0,
                r10: 0,
                r9: 0,
                r8: 0,
                rdi: 0,
                rsi: 0,
                rdx: 0,
                rcx: 0,
                rbx: 0,
                rax: 0,
                rbp: 0,
            },
            stack_frame: StackFrame {
                instruction_pointer: 0,
                code_segment: 0,
                cpu_flags: 0,
                stack_pointer: 0,
                stack_segment: 0,
            },
        }
    }

    /// Writes `value` where the program will find a system call's result.
    pub fn set_rax(&mut self, value: u64)
        ensures
            *final(self) == old(self).with_rax(value),
    {
        self.regs.rax = value;
    }

    /// Copies the live context into this slot.
    pub fn save(&mut self, live: &ProcessContext)
        ensures
            *final(self) == *live,
    {
        *self = *live;
    }

    /// Copies this slot over the live context.
    pub fn restore(&self, live: &mut ProcessContext)
        ensures
            *final(live) == *self,
    {
        *live = *self;
    }

    /// Prepares the context for the first run of a program.
    pub fn init_stack_frame(&mut self, entry: u64, stack_top: u64, selectors: Selectors)
        ensures
            *final(self) == Self::initial(entry, stack_top, selectors),
    {
        *self = ProcessContext::new();
        self.stack_frame.instruction_pointer = entry;
        self.stack_frame.stack_pointer = stack_top;
        self.stack_frame.cpu_flags = INITIAL_CPU_FLAGS;
        self.stack_frame.code_segment = selectors.code;
        self.stack_frame.stack_segment = selectors.data;
    }
}

} // verus!
