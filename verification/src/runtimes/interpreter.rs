//! One instruction at a time, with its input and output handed to the
//! caller.
use vstd::prelude::*;
use crate::interpreter::{leq_zero, word_char, word_sub};
use crate::runtimes::RuntimeError;
use crate::text::{push_char, push_dec, dec_chars};

verus! {

/// What an instruction writes out.
#[derive(Debug, PartialEq, Eq, Structural, Clone, Copy)]
pub enum Output {
    Nothing,
    /// `b` is -1: the low byte of `mem[a]` as a character.
    Char(char),
    /// `b` is -2: `mem[a]` as a signed number, on a line of its own.
    Number(i16),
}

/// Where execution goes after an instruction.
#[derive(Debug, PartialEq, Eq, Structural, Clone, Copy)]
pub enum Next {
    Continue(usize),
    Halt,
    Fail(RuntimeError),
}

/// The outcome of one instruction.
#[derive(Debug, PartialEq, Eq, Structural, Clone, Copy)]
pub struct StepResult {
    pub output: Output,
    pub next: Next,
}

/// The word that an input instruction stores for a key.
pub open spec fn input_word(c: char) -> u16 {
    ((c as u32) % 0x10000) as u16
}

/// The instruction at `pc` reads input: `a` is -1 and `b` is no output
/// address.
pub open spec fn reads_input(mem: Seq<u16>, pc: int) -> bool {
    pc + 2 < mem.len() && mem[pc + 1] != 0xFFFF && mem[pc + 1] != 0xFFFE && mem[pc] == 0xFFFF
}

/// Executing the instruction at `pc` indexes outside memory: an output
/// instruction whose `a`, or an input instruction whose `b`, lies outside.
pub open spec fn step_panics(mem: Seq<u16>, pc: int) -> bool {
    pc + 2 < mem.len() && {
        let a = mem[pc];
        let b = mem[pc + 1];
        ||| (b == 0xFFFF || b == 0xFFFE) && a >= mem.len()
        ||| reads_input(mem, pc) && b >= mem.len()
    }
}

/// The jump after an instruction that computed `r`: to `c` when `r` read
/// as a signed number is at most zero (-1 halts, -2 is a breakpoint),
/// otherwise to the next instruction.
pub open spec fn jump(pc: int, c: u16, r: u16) -> Next {
    if leq_zero(r) {
        if c == 0xFFFF {
            Next::Halt
        } else if c == 0xFFFE {
            Next::Fail(RuntimeError::Breakpoint(pc as usize))
        } else {
            Next::Continue(c as usize)
        }
    } else {
        Next::Continue((pc + 3) as usize)
    }
}

/// One instruction of the interpreter: the memory after it and its
/// outcome. `prev_pc` is the instruction run before (reported when `pc`
/// leaves memory); `input` is the key read for an input instruction.
pub open spec fn run_step(mem: Seq<u16>, pc: int, prev_pc: usize, input: char) -> (Seq<u16>, StepResult) {
    if pc + 2 >= mem.len() {
        (mem, StepResult { output: Output::Nothing, next: Next::Fail(RuntimeError::COutOfRange(prev_pc)) })
    } else {
        let a = mem[pc] as int;
        let b = mem[pc + 1] as int;
        let c = mem[pc + 2];
        if b == 0xFFFF {
            (mem, StepResult { output: Output::Char(word_char(mem[a])), next: jump(pc, c, mem[a]) })
        } else if b == 0xFFFE {
            (mem, StepResult { output: Output::Number(mem[a] as i16), next: jump(pc, c, mem[a]) })
        } else if a == 0xFFFF {
            (mem.update(b, input_word(input)), StepResult { output: Output::Nothing, next: jump(pc, c, 0) })
        } else if a >= mem.len() {
            (mem, StepResult { output: Output::Nothing, next: Next::Fail(RuntimeError::AOutOfRange(pc as usize)) })
        } else if b >= mem.len() {
            (mem, StepResult { output: Output::Nothing, next: Next::Fail(RuntimeError::BOutOfRange(pc as usize)) })
        } else {
            let r = word_sub(mem[b], mem[a]);
            (mem.update(b, r), StepResult { output: Output::Nothing, next: jump(pc, c, r) })
        }
    }
}

/// Whether the instruction at `pc` reads a key.
pub fn needs_input(mem: &[u16], pc: usize) -> (res: bool)
    ensures
        res == reads_input(mem@, pc as int),
{
    pc < mem.len() && mem.len() - pc > 2 && mem[pc + 1] != 0xFFFF && mem[pc + 1] != 0xFFFE
        && mem[pc] == 0xFFFF
}

/// Whether running the instruction at `pc` would index outside memory.
pub fn step_would_panic(mem: &[u16], pc: usize) -> (res: bool)
    ensures
        res == step_panics(mem@, pc as int),
{
    if !(pc < mem.len() && mem.len() - pc > 2) {
        return false;
    }
    let a = mem[pc] as usize;
    let b = mem[pc + 1] as usize;
    ((b == 0xFFFF || b == 0xFFFE) && a >= mem.len()) || (needs_input(mem, pc) && b >= mem.len())
}

fn jump_to(pc: usize, c: u16, r: u16) -> (res: Next)
    requires
        pc + 3 <= usize::MAX,
    ensures
        res == jump(pc as int, c, r),
{
    proof {
        crate::interpreter::lemma_signed_leq_zero(r);
    }
    if (r as i16) <= 0 {
        if c == 0xFFFF {
            Next::Halt
        } else if c == 0xFFFE {
            Next::Fail(RuntimeError::Breakpoint(pc))
        } else {
            Next::Continue(c as usize)
        }
    } else {
        Next::Continue(pc + 3)
    }
}

/// Runs the instruction at `pc`; the caller prints its output and reads
/// the key for an input instruction (`input`).
pub fn interpret_step(mem: &mut [u16], pc: usize, prev_pc: usize, input: char) -> (res: StepResult)
    requires
        !step_panics(old(mem)@, pc as int),
    ensures
        (final(mem)@, res) == run_step(old(mem)@, pc as int, prev_pc, input),
{
    if !(pc < mem.len() && mem.len() - pc > 2) {
        return StepResult { output: Output::Nothing, next: Next::Fail(RuntimeError::COutOfRange(prev_pc)) };
    }
    let a = mem[pc] as usize;
    let b = mem[pc + 1] as usize;
    let c = mem[pc + 2];
    if b == 0xFFFF {
        let r = mem[a];
        proof {
            crate::interpreter::lemma_low_byte(r);
        }
        let ch = (r as u8) as char;
        StepResult { output: Output::Char(ch), next: jump_to(pc, c, r) }
    } else if b == 0xFFFE {
        let r = mem[a];
        StepResult { output: Output::Number(r as i16), next: jump_to(pc, c, r) }
    } else if a == 0xFFFF {
        let code: u32 = input as u32;
        let w: u16 = #[verifier::truncate] (code as u16);
        assert(w == (code % 0x10000) as u16) by (bit_vector)
            requires
                w == (code as u16),
        ;
        mem[b] = w;
        StepResult { output: Output::Nothing, next: jump_to(pc, c, 0) }
    } else if a >= mem.len() {
        StepResult { output: Output::Nothing, next: Next::Fail(RuntimeError::AOutOfRange(pc)) }
    } else if b >= mem.len() {
        StepResult { output: Output::Nothing, next: Next::Fail(RuntimeError::BOutOfRange(pc)) }
    } else {
        let r = mem[b].wrapping_sub(mem[a]);
        assert(r == word_sub(mem@[b as int], mem@[a as int]));
        mem[b] = r;
        StepResult { output: Output::Nothing, next: jump_to(pc, c, r) }
    }
}

/// The text of a signed number.
pub open spec fn signed_dec(n: i16) -> Seq<char> {
    if n < 0 {
        seq!['-'] + dec_chars((-n) as nat)
    } else {
        dec_chars(n as nat)
    }
}

/// What an output adds to the program's output text.
pub open spec fn output_text(o: Output) -> Seq<char> {
    match o {
        Output::Nothing => Seq::empty(),
        Output::Char(c) => seq![c],
        Output::Number(n) => signed_dec(n),
    }
}

/// Appends an instruction's output to the program's output text.
pub fn append_output(buffer: &mut String, o: Output)
    ensures
        final(buffer)@ == old(buffer)@ + output_text(o),
{
    match o {
        Output::Nothing => {
            assert(old(buffer)@ + Seq::<char>::empty() =~= old(buffer)@);
        },
        Output::Char(c) => {
            push_char(buffer, c);
        },
        Output::Number(n) => {
            if n < 0 {
                push_char(buffer, '-');
                let m: u64 = (0 - (n as i64)) as u64;
                push_dec(buffer, m);
                assert(final(buffer)@ =~= old(buffer)@ + signed_dec(n));
            } else {
                push_dec(buffer, n as u64);
            }
        },
    }
}

/// A plain instruction (`b` no output address, `a` not -1, both inside
/// memory) subtracts the word at `a` from the word at `b`, modulo 2^16,
/// writes nothing else and prints nothing; it jumps to `c` when the new
/// word read as a signed number is at most zero (-1 halts, -2 is a
/// breakpoint), otherwise it goes on three words further.
pub proof fn lemma_step_subtracts_a_from_b(mem: Seq<u16>, pc: int, prev_pc: usize, input: char)
    requires
        0 <= pc,
        pc + 2 < mem.len(),
        mem[pc + 1] != 0xFFFF,
        mem[pc + 1] != 0xFFFE,
        mem[pc] != 0xFFFF,
        mem[pc] < mem.len(),
        mem[pc + 1] < mem.len(),
    ensures
        ({
            let a = mem[pc] as int;
            let b = mem[pc + 1] as int;
            let c = mem[pc + 2] as int;
            let r = (mem[b] - mem[a] + 0x10000) % 0x10000;
            let (m2, res) = run_step(mem, pc, prev_pc, input);
            &&& m2.len() == mem.len()
            &&& m2[b] as int == r
            &&& forall|i: int| 0 <= i < mem.len() && i != b ==> m2[i] == mem[i]
            &&& res.output == Output::Nothing
            &&& res.next == if r == 0 || r >= 0x8000 {
                if c == 0xFFFF {
                    Next::Halt
                } else if c == 0xFFFE {
                    Next::Fail(RuntimeError::Breakpoint(pc as usize))
                } else {
                    Next::Continue(c as usize)
                }
            } else {
                Next::Continue((pc + 3) as usize)
            }
        }),
{
}

/// Input and output instructions: with `b` of -1 the low byte of the word
/// at `a` is printed as a character, with `b` of -2 the word at `a` is
/// printed as a signed number, and memory is left as it is; with `a` of
/// -1 (and `b` no output address) the key's code, modulo 2^16, is written
/// to `b` and nothing else changes.
pub proof fn lemma_step_input_output(mem: Seq<u16>, pc: int, prev_pc: usize, input: char)
    requires
        0 <= pc,
        pc + 2 < mem.len(),
    ensures
        ({
            let a = mem[pc] as int;
            let b = mem[pc + 1] as int;
            let (m2, res) = run_step(mem, pc, prev_pc, input);
            &&& b == 0xFFFF && a < mem.len() ==> m2 == mem && res.output == Output::Char(
                ((mem[a] as int % 256) as u8) as char,
            )
            &&& b == 0xFFFE && a < mem.len() ==> m2 == mem && res.output == Output::Number(
                mem[a] as i16,
            )
            &&& b != 0xFFFF && b != 0xFFFE && a == 0xFFFF && b < mem.len() ==> {
                &&& m2.len() == mem.len()
                &&& m2[b] as int == (input as int) % 0x10000
                &&& forall|i: int| 0 <= i < mem.len() && i != b ==> m2[i] == mem[i]
                &&& res.output == Output::Nothing
            }
        }),
{
}

} // verus!
