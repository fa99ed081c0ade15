//! A single-step Subleq interpreter with an undo record for every step.
use vstd::prelude::*;

verus! {

/// Jumping here halts the program.
pub const IO_ADDR: u16 = 0xFFFF;

/// Jumping here triggers a breakpoint.
pub const DEBUG_ADDR: u16 = 0xFFFE;

/// Jumping here is reserved for a performance probe that is not implemented.
pub const PERF_ADDR: u16 = 0xFFFD;

/// What executing one instruction asks of the outside world.
#[derive(Debug, PartialEq, Eq, Structural, Clone, Copy)]
pub enum IOOperation {
    Char(char),
    Debug(u16),
    Halt,
    BreakPoint,
    Perf,
    Nothing,
}

/// Enough information to undo one executed instruction.
#[derive(Debug, PartialEq, Eq, Structural, Clone, Copy)]
pub struct InstructionHistoryItem {
    pub pc: usize,
    pub original_value_at_b: u16,
    pub io_operation: IOOperation,
}

#[derive(Debug, PartialEq, Eq, Structural, Clone, Copy)]
pub enum RuntimeError {
    InstructionOutOfRange(usize),
    AOutOfRange(usize),
    BOutOfRange(usize),
}

/// A word read as a signed 16 bit number is at most zero.
pub open spec fn leq_zero(x: u16) -> bool {
    x == 0 || x >= 0x8000
}

/// The character that an output instruction prints for a word: its low byte.
pub open spec fn word_char(x: u16) -> char {
    ((x % 256) as u8) as char
}

/// `mem[b] - mem[a]` on 16 bit words.
pub open spec fn word_sub(x: u16, y: u16) -> u16 {
    if x >= y {
        (x - y) as u16
    } else {
        (x - y + 0x10000) as u16
    }
}

/// Reading a word as a signed number.
pub proof fn lemma_signed_leq_zero(x: u16)
    ensures
        ((x as i16) <= 0) == leq_zero(x),
{
    assert(((x as i16) <= 0) == (x == 0 || x >= 0x8000)) by (bit_vector);
}

/// The low byte of a word.
pub proof fn lemma_low_byte(x: u16)
    ensures
        (x as u8) == ((x % 256) as u8),
{
    assert((x as u8) == ((x % 256) as u8)) by (bit_vector);
}

/// The instruction at `pc` does not fit in memory.
pub open spec fn instruction_out_of_range(mem: Seq<u16>, pc: int) -> bool {
    pc + 2 >= mem.len()
}

/// Writes a character (`b` is -1) or a number (`b` is -2).
pub open spec fn is_output(mem: Seq<u16>, pc: int) -> bool {
    mem[pc + 1] == 0xFFFF || mem[pc + 1] == 0xFFFE
}

/// Reads input (`a` is -1); this interpreter ignores the input.
pub open spec fn is_input(mem: Seq<u16>, pc: int) -> bool {
    !is_output(mem, pc) && mem[pc] == 0xFFFF
}

/// The value the instruction at `pc` computes, when it fits.
pub open spec fn step_result(mem: Seq<u16>, pc: int) -> u16 {
    let a = mem[pc] as int;
    let b = mem[pc + 1] as int;
    if is_output(mem, pc) {
        mem[a]
    } else if is_input(mem, pc) {
        0
    } else {
        word_sub(mem[b], mem[a])
    }
}

/// The input/output operation of the instruction at `pc` before jumps.
pub open spec fn step_io(mem: Seq<u16>, pc: int) -> IOOperation {
    let a = mem[pc] as int;
    if mem[pc + 1] == 0xFFFF {
        IOOperation::Char(word_char(mem[a]))
    } else if mem[pc + 1] == 0xFFFE {
        IOOperation::Debug(mem[a])
    } else {
        IOOperation::Nothing
    }
}

/// Executing the instruction at `pc` would crash: an output instruction
/// whose `a` lies outside memory, or a jump to the unimplemented
/// performance probe.
pub open spec fn step_crashes(mem: Seq<u16>, pc: int) -> bool {
    !instruction_out_of_range(mem, pc) && {
        let a = mem[pc] as int;
        let b = mem[pc + 1] as int;
        let completes = if is_output(mem, pc) {
            a < mem.len()
        } else {
            is_input(mem, pc) || (a < mem.len() && b < mem.len())
        };
        ||| is_output(mem, pc) && a >= mem.len()
        ||| completes && leq_zero(step_result(mem, pc)) && mem[pc + 2] == PERF_ADDR
    }
}

/// One Subleq step on memory `mem` at `pc`: `mem[b] -= mem[a]`, then jump to
/// `c` if the result is at most zero, otherwise go to the next instruction.
/// `b` of -1 or -2 writes `mem[a]` out instead; `a` of -1 reads input; a
/// jump to -1 halts and a jump to -2 is a breakpoint. Gives the memory after
/// the step and either the error or the next pc, the operation and the old
/// value at `b`.
pub open spec fn subleq_step(mem: Seq<u16>, pc: int) -> (Seq<u16>, Result<
    (int, IOOperation, u16),
    RuntimeError,
>) {
    if instruction_out_of_range(mem, pc) {
        (mem, Err(RuntimeError::InstructionOutOfRange(pc as usize)))
    } else {
        let a = mem[pc] as int;
        let b = mem[pc + 1] as int;
        let c = mem[pc + 2];
        if !is_output(mem, pc) && !is_input(mem, pc) && a >= mem.len() {
            (mem, Err(RuntimeError::AOutOfRange(pc as usize)))
        } else if !is_output(mem, pc) && !is_input(mem, pc) && b >= mem.len() {
            (mem, Err(RuntimeError::BOutOfRange(pc as usize)))
        } else {
            let result = step_result(mem, pc);
            let writes = !is_output(mem, pc) && !is_input(mem, pc);
            let new_mem = if writes {
                mem.update(b, result)
            } else {
                mem
            };
            let orig = if writes {
                mem[b]
            } else {
                0u16
            };
            let io = step_io(mem, pc);
            if leq_zero(result) {
                if c == IO_ADDR {
                    (new_mem, Ok((pc, IOOperation::Halt, orig)))
                } else if c == DEBUG_ADDR {
                    (new_mem, Ok((pc + 3, IOOperation::BreakPoint, orig)))
                } else {
                    (new_mem, Ok((c as int, io, orig)))
                }
            } else {
                (new_mem, Ok((pc + 3, io, orig)))
            }
        }
    }
}

/// Executes the instruction at `pc` and returns the next pc, the operation
/// that the caller has to perform, and a record to undo the step.
pub fn interpret_single(mem: &mut [u16], pc: usize) -> (res: Result<
    (usize, IOOperation, InstructionHistoryItem),
    RuntimeError,
>)
    requires
        !step_crashes(old(mem)@, pc as int),
    ensures
        final(mem)@ == subleq_step(old(mem)@, pc as int).0,
        match (res, subleq_step(old(mem)@, pc as int).1) {
            (Ok((npc, io, item)), Ok((snpc, sio, orig))) => npc == snpc && io == sio && item
                == (InstructionHistoryItem { pc, original_value_at_b: orig, io_operation: io }),
            (Err(e), Err(se)) => e == se,
            _ => false,
        },
{
    let a = if pc < mem.len() {
        mem[pc] as usize
    } else {
        return Err(RuntimeError::InstructionOutOfRange(pc));
    };
    let b = if pc + 1 < mem.len() {
        mem[pc + 1] as usize
    } else {
        return Err(RuntimeError::InstructionOutOfRange(pc));
    };
    let c = if pc + 2 < mem.len() {
        mem[pc + 2] as usize
    } else {
        return Err(RuntimeError::InstructionOutOfRange(pc));
    };

    let mut original_value_at_b: u16 = 0;
    let mut result: u16 = 0;
    let mut io: IOOperation = IOOperation::Nothing;
    if b == 0xFFFF {
        result = mem[a];
        proof {
            lemma_low_byte(result);
        }
        io = IOOperation::Char(#[verifier::truncate] (result as u8) as char);
    } else if b == 0xFFFE {
        result = mem[a];
        io = IOOperation::Debug(result);
    } else if a == 0xFFFF {
    } else {
        if a >= mem.len() {
            return Err(RuntimeError::AOutOfRange(pc));
        }
        if b >= mem.len() {
            return Err(RuntimeError::BOutOfRange(pc));
        }
        original_value_at_b = mem[b];
        result = mem[b].wrapping_sub(mem[a]);
        mem[b] = result;
    }

    proof {
        lemma_signed_leq_zero(result);
    }
    if (#[verifier::truncate] (result as i16)) <= 0 {
        if c == 0xFFFF {
            return Ok(
                (
                    pc,
                    IOOperation::Halt,
                    InstructionHistoryItem {
                        pc,
                        original_value_at_b,
                        io_operation: IOOperation::Halt,
                    },
                ),
            );
        } else if c == 0xFFFE {
            return Ok(
                (
                    pc + 3,
                    IOOperation::BreakPoint,
                    InstructionHistoryItem {
                        pc,
                        original_value_at_b,
                        io_operation: IOOperation::BreakPoint,
                    },
                ),
            );
        } else {
            return Ok(
                (c, io, InstructionHistoryItem { pc, original_value_at_b, io_operation: io }),
            );
        }
    }
    Ok((pc + 3, io, InstructionHistoryItem { pc, original_value_at_b, io_operation: io }))
}

/// Executing the instruction at `pc` with `interpret_fast` would crash: an
/// output instruction whose `a` lies outside memory.
pub open spec fn fast_step_crashes(mem: Seq<u16>, pc: int) -> bool {
    !instruction_out_of_range(mem, pc) && is_output(mem, pc) && mem[pc] >= mem.len()
}

/// Runs at most `fuel` instructions from `pc` the way `interpret_fast` does:
/// a jump to -1 halts (`Ok(true)`), any other jump target is taken as it is.
/// `Ok(false)` means that the fuel ran out.
pub open spec fn fast_run(mem: Seq<u16>, pc: int, fuel: nat) -> (Seq<u16>, Result<bool, RuntimeError>)
    decreases fuel,
{
    if fuel == 0 {
        (mem, Ok(false))
    } else {
        let (m2, r) = subleq_step(mem, pc);
        match r {
            Err(e) => (m2, Err(e)),
            Ok(_) => {
                let result = step_result(mem, pc);
                let c = mem[pc + 2];
                if leq_zero(result) && c == IO_ADDR {
                    (m2, Ok(true))
                } else {
                    let npc = if leq_zero(result) {
                        c as int
                    } else {
                        pc + 3
                    };
                    fast_run(m2, npc, (fuel - 1) as nat)
                }
            },
        }
    }
}

/// Some step of `fast_run` would crash.
pub open spec fn fast_run_crashes(mem: Seq<u16>, pc: int, fuel: nat) -> bool
    decreases fuel,
{
    if fuel == 0 {
        false
    } else if fast_step_crashes(mem, pc) {
        true
    } else {
        let (m2, r) = subleq_step(mem, pc);
        match r {
            Err(e) => false,
            Ok(_) => {
                let result = step_result(mem, pc);
                let c = mem[pc + 2];
                if leq_zero(result) && c == IO_ADDR {
                    false
                } else {
                    let npc = if leq_zero(result) {
                        c as int
                    } else {
                        pc + 3
                    };
                    fast_run_crashes(m2, npc, (fuel - 1) as nat)
                }
            },
        }
    }
}

/// Runs the program in `mem` from address 0 without performing any
/// input or output, for at most `max_steps` instructions. Returns `Ok(true)`
/// when the program halts, `Ok(false)` when the step budget runs out.
pub fn interpret_fast(mem: &mut [u16], max_steps: u64) -> (res: Result<bool, RuntimeError>)
    requires
        !fast_run_crashes(old(mem)@, 0, max_steps as nat),
    ensures
        (final(mem)@, res) == fast_run(old(mem)@, 0, max_steps as nat),
{
    let mut pc: usize = 0;
    let mut fuel: u64 = max_steps;
    while fuel > 0
        invariant
            fast_run(old(mem)@, 0, max_steps as nat) == fast_run(mem@, pc as int, fuel as nat),
            !fast_run_crashes(mem@, pc as int, fuel as nat),
        decreases fuel,
    {
        let ghost m0 = mem@;
        let a = if pc < mem.len() {
            mem[pc] as usize
        } else {
            return Err(RuntimeError::InstructionOutOfRange(pc));
        };
        let b = if pc + 1 < mem.len() {
            mem[pc + 1] as usize
        } else {
            return Err(RuntimeError::InstructionOutOfRange(pc));
        };
        let c = if pc + 2 < mem.len() {
            mem[pc + 2] as usize
        } else {
            return Err(RuntimeError::InstructionOutOfRange(pc));
        };
        let mut result: u16 = 0;
        if b == 0xFFFF {
            result = mem[a];
        } else if b == 0xFFFE {
            result = mem[a];
        } else if a == 0xFFFF {
        } else {
            if a >= mem.len() {
                return Err(RuntimeError::AOutOfRange(pc));
            }
            if b >= mem.len() {
                return Err(RuntimeError::BOutOfRange(pc));
            }
            result = mem[b].wrapping_sub(mem[a]);
            mem[b] = result;
        }
        proof {
            lemma_signed_leq_zero(result);
            assert(result == step_result(m0, pc as int));
            assert(mem@ == subleq_step(m0, pc as int).0);
        }
        fuel = fuel - 1;
        if (#[verifier::truncate] (result as i16)) <= 0 {
            if c == 0xFFFF {
                return Ok(true);
            }
            pc = c;
        } else {
            pc = pc + 3;
        }
    }
    Ok(false)
}

/// Memory after undoing an instruction with its history item: the word at
/// the instruction's `b` gets its old value back, if `b` lies in memory.
pub open spec fn revert_spec(mem: Seq<u16>, inst: InstructionHistoryItem) -> Seq<u16> {
    let b = mem[inst.pc + 1] as int;
    if b < mem.len() {
        mem.update(b, inst.original_value_at_b)
    } else {
        mem
    }
}

/// Undoes an executed instruction: restores the value at `b`, and removes
/// the character that the instruction printed from the output buffer.
/// Returns the pc of the undone instruction.
pub fn revert_historic_instruction(
    mem: &mut Vec<u16>,
    inst: &InstructionHistoryItem,
    io_buffer: &mut String,
) -> (res: usize)
    requires
        inst.pc + 1 < old(mem).len(),
    ensures
        res == inst.pc,
        final(mem)@ == revert_spec(old(mem)@, *inst),
        final(io_buffer)@ == if inst.io_operation is Char && old(io_buffer)@.len() > 0 {
            old(io_buffer)@.drop_last()
        } else {
            old(io_buffer)@
        },
{
    let b = mem[inst.pc + 1] as usize;
    if b < mem.len() {
        mem.set(b, inst.original_value_at_b);
    }
    if let IOOperation::Char(..) = inst.io_operation {
        crate::text::pop_char(io_buffer);
    }
    inst.pc
}

/// Undoing a step restores memory. This holds for every instruction that
/// completes, except an input instruction (it writes nothing, but its record
/// makes the undo write zero at `b`), an output instruction whose `b`
/// (-1 or -2) lies inside memory, and an instruction whose `b` is its own
/// `b` operand (the step changes which word the undo restores).
pub proof fn lemma_revert_undoes_step(mem: Seq<u16>, pc: usize)
    requires
        !instruction_out_of_range(mem, pc as int),
        subleq_step(mem, pc as int).1 is Ok,
        !is_input(mem, pc as int),
        is_output(mem, pc as int) ==> mem[pc + 1] >= mem.len(),
        mem[pc + 1] != pc + 1,
    ensures
        revert_spec(
            subleq_step(mem, pc as int).0,
            InstructionHistoryItem {
                pc: pc,
                original_value_at_b: subleq_step(mem, pc as int).1->Ok_0.2,
                io_operation: subleq_step(mem, pc as int).1->Ok_0.1,
            },
        ) == mem,
{
    let m2 = subleq_step(mem, pc as int).0;
    assert(m2[pc + 1] == mem[pc + 1]);
    if !is_output(mem, pc as int) {
        assert(revert_spec(
            m2,
            InstructionHistoryItem {
                pc: pc,
                original_value_at_b: subleq_step(mem, pc as int).1->Ok_0.2,
                io_operation: subleq_step(mem, pc as int).1->Ok_0.1,
            },
        ) =~= mem);
    }
}

/// Runs at most `fuel` instructions from `pc` one `interpret_single` step
/// at a time, following the pc each step returns: `Ok(true)` once a step
/// halts, `Ok(false)` when the fuel runs out.
pub open spec fn single_steps(mem: Seq<u16>, pc: int, fuel: nat) -> (Seq<u16>, Result<bool, RuntimeError>)
    decreases fuel,
{
    if fuel == 0 {
        (mem, Ok(false))
    } else {
        let (m2, r) = subleq_step(mem, pc);
        match r {
            Err(e) => (m2, Err(e)),
            Ok((npc, io, _)) => if io == IOOperation::Halt {
                (m2, Ok(true))
            } else {
                single_steps(m2, npc, (fuel - 1) as nat)
            },
        }
    }
}

/// None of the first `fuel` steps from `pc` (up to a halt or an error)
/// crashes or stops at a breakpoint.
pub open spec fn steps_plain(mem: Seq<u16>, pc: int, fuel: nat) -> bool
    decreases fuel,
{
    if fuel == 0 {
        true
    } else if step_crashes(mem, pc) {
        false
    } else {
        let (m2, r) = subleq_step(mem, pc);
        match r {
            Err(_) => true,
            Ok((npc, io, _)) => io != IOOperation::BreakPoint && (io == IOOperation::Halt
                || steps_plain(m2, npc, (fuel - 1) as nat)),
        }
    }
}

/// Running fast is stepping with `interpret_single`: where no step crashes
/// or stops at a breakpoint, `interpret_fast` can run and ends with the
/// memory and the result that stepping one instruction at a time gives.
pub proof fn lemma_fast_run_is_single_steps(mem: Seq<u16>, pc: int, fuel: nat)
    requires
        steps_plain(mem, pc, fuel),
    ensures
        !fast_run_crashes(mem, pc, fuel),
        fast_run(mem, pc, fuel) == single_steps(mem, pc, fuel),
    decreases fuel,
{
    if fuel > 0 {
        let (m2, r) = subleq_step(mem, pc);
        match r {
            Err(_) => {},
            Ok((npc, io, _)) => {
                let result = step_result(mem, pc);
                let c = mem[pc + 2];
                if !(leq_zero(result) && c == IO_ADDR) {
                    lemma_fast_run_is_single_steps(m2, npc, (fuel - 1) as nat);
                }
            },
        }
    }
}

/// A plain instruction (`b` no output address, `a` not -1, both inside
/// memory) subtracts the word at `a` from the word at `b`, modulo 2^16,
/// and writes nothing else; the undo record keeps the old word at `b`.
/// It jumps to `c` when the new word read as a signed number is at most
/// zero (-1 halts, -2 is a breakpoint that goes on three words further),
/// otherwise it goes on three words further.
pub proof fn lemma_single_step_subtracts_a_from_b(mem: Seq<u16>, pc: int)
    requires
        0 <= pc,
        pc + 2 < mem.len(),
        mem[pc + 1] != 0xFFFF,
        mem[pc + 1] != 0xFFFE,
        mem[pc] != 0xFFFF,
        mem[pc] < mem.len(),
        mem[pc + 1] < mem.len(),
    ensures
        ({
            let a = mem[pc] as int;
            let b = mem[pc + 1] as int;
            let c = mem[pc + 2] as int;
            let r = (mem[b] - mem[a] + 0x10000) % 0x10000;
            let (m2, res) = subleq_step(mem, pc);
            &&& m2.len() == mem.len()
            &&& m2[b] as int == r
            &&& forall|i: int| 0 <= i < mem.len() && i != b ==> m2[i] == mem[i]
            &&& res is Ok
            &&& res->Ok_0.2 == mem[b]
            &&& res->Ok_0.1 == if (r == 0 || r >= 0x8000) && c == 0xFFFF {
                IOOperation::Halt
            } else if (r == 0 || r >= 0x8000) && c == 0xFFFE {
                IOOperation::BreakPoint
            } else {
                IOOperation::Nothing
            }
            &&& res->Ok_0.0 == if (r == 0 || r >= 0x8000) && c != 0xFFFE {
                if c == 0xFFFF { pc } else { c }
            } else {
                pc + 3
            }
        }),
{
}

} // verus!
