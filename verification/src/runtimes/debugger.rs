//! The debugger's decisions: what an instruction would do, and what a key
//! does to the session. Showing the session and reading keys is left to
//! the caller.
use vstd::prelude::*;
use crate::interpreter::{
    leq_zero, revert_historic_instruction, revert_spec, word_char, word_sub, IOOperation,
    InstructionHistoryItem,
};
use crate::runtimes::interpreter::input_word;
use crate::runtimes::RuntimeError;
use crate::tokens::Token;

verus! {

/// A key pressed in the debugger.
#[derive(Debug, PartialEq, Eq, Structural, Clone, Copy)]
pub enum DebugKey {
    Char(char),
    Enter,
    Left,
    Right,
    Up,
    Down,
    Esc,
    Other,
}

/// What the instruction at the debugger's pc would do.
#[derive(Debug, PartialEq, Eq, Structural, Clone, Copy)]
pub struct Evaluation {
    pub b: usize,
    pub result: u16,
    pub io: IOOperation,
    pub original_value_at_b: u16,
    pub new_pc: usize,
    pub error: Option<RuntimeError>,
}

/// Evaluating the instruction at `pc` would index outside memory: the
/// instruction itself does not fit, or it writes out a word outside.
pub open spec fn eval_panics(mem: Seq<u16>, pc: int) -> bool {
    ||| pc + 2 >= mem.len()
    ||| (mem[pc + 1] == 0xFFFF || mem[pc + 1] == 0xFFFE) && mem[pc] >= mem.len()
}

/// Whether evaluating the instruction at `pc` would index outside memory.
pub fn eval_would_panic(mem: &[u16], pc: usize) -> (res: bool)
    ensures
        res == eval_panics(mem@, pc as int),
{
    if !(pc < mem.len() && mem.len() - pc > 2) {
        return true;
    }
    (mem[pc + 1] == 0xFFFF || mem[pc + 1] == 0xFFFE) && (mem[pc] as usize) >= mem.len()
}

/// What the instruction at `pc` would do; `input` is the key read for an
/// input instruction. The jump of a result at most zero goes to `c`; a jump
/// to -1 halts and one to -2 is a breakpoint.
pub open spec fn evaluate_spec(mem: Seq<u16>, pc: int, input: char) -> Evaluation {
    let a = mem[pc] as int;
    let b = mem[pc + 1] as int;
    let c = mem[pc + 2];
    let (result, io, orig, err) = if b == 0xFFFF {
        (mem[a], IOOperation::Char(word_char(mem[a])), 0u16, None::<RuntimeError>)
    } else if b == 0xFFFE {
        (mem[a], IOOperation::Debug(mem[a]), 0u16, None::<RuntimeError>)
    } else if a == 0xFFFF {
        (input_word(input), IOOperation::Nothing, 0u16, None::<RuntimeError>)
    } else if a >= mem.len() {
        (0u16, IOOperation::Nothing, 0u16, Some(RuntimeError::AOutOfRange(pc as usize)))
    } else if b >= mem.len() {
        (0u16, IOOperation::Nothing, 0u16, Some(RuntimeError::BOutOfRange(pc as usize)))
    } else {
        (word_sub(mem[b], mem[a]), IOOperation::Nothing, mem[b], None::<RuntimeError>)
    };
    let ev = Evaluation {
        b: b as usize,
        result,
        io,
        original_value_at_b: orig,
        new_pc: (pc + 3) as usize,
        error: err,
    };
    if leq_zero(result) {
        if c == 0xFFFF {
            Evaluation { io: IOOperation::Halt, new_pc: c as usize, ..ev }
        } else if c == 0xFFFE {
            Evaluation { error: Some(RuntimeError::Breakpoint(pc as usize)), ..ev }
        } else {
            Evaluation { new_pc: c as usize, ..ev }
        }
    } else {
        ev
    }
}

/// A debugging session between two instructions.
pub struct Debugger {
    pub pc: usize,
    pub history: Vec<InstructionHistoryItem>,
    pub io_buffer: String,
    pub current_depth: usize,
    pub mem_mode: bool,
    pub in_debugging_mode: bool,
}

/// Mathematical view of a debugging session.
pub struct DebuggerV {
    pub pc: usize,
    pub history: Seq<InstructionHistoryItem>,
    pub io_buffer: Seq<char>,
    pub current_depth: usize,
    pub mem_mode: bool,
    pub in_debugging_mode: bool,
}

impl View for Debugger {
    type V = DebuggerV;

    open spec fn view(&self) -> DebuggerV {
        DebuggerV {
            pc: self.pc,
            history: self.history@,
            io_buffer: self.io_buffer@,
            current_depth: self.current_depth,
            mem_mode: self.mem_mode,
            in_debugging_mode: self.in_debugging_mode,
        }
    }
}

/// What a key did: look at the same instruction again, leave the session,
/// go on, or the program halted.
#[derive(Debug, PartialEq, Eq, Structural, Clone, Copy)]
pub enum Effect {
    Again,
    Quit,
    Proceed,
    Halted,
}

/// Every recorded instruction lies inside memory of length `len`.
pub open spec fn history_fits(h: Seq<InstructionHistoryItem>, len: int) -> bool {
    forall|i: int| 0 <= i < h.len() ==> #[trigger] h[i].pc + 2 < len
}

/// The session after the instruction is done: unless it halted, or failed
/// with an error other than a breakpoint, it is recorded, `mem[b]` gets
/// the result and the pc moves on.
pub open spec fn finish_spec(s: DebuggerV, mem: Seq<u16>, ev: Evaluation) -> (DebuggerV, Seq<u16>, Effect) {
    if ev.io == IOOperation::Halt {
        (s, mem, Effect::Halted)
    } else if ev.error is None || ev.error matches Some(RuntimeError::Breakpoint(_)) {
        (
            DebuggerV {
                history: s.history.push(
                    InstructionHistoryItem {
                        pc: s.pc,
                        original_value_at_b: ev.original_value_at_b,
                        io_operation: ev.io,
                    },
                ),
                pc: ev.new_pc,
                ..s
            },
            if ev.b < mem.len() {
                mem.update(ev.b as int, ev.result)
            } else {
                mem
            },
            Effect::Proceed,
        )
    } else {
        (s, mem, Effect::Proceed)
    }
}

/// What a key does while the session is shown. `origin_len` is the number
/// of macro calls that the instruction's token came through; the depth of
/// the shown call is kept below it. `m` switches to the memory view, `h`
/// leaves, Enter shows again, Left undoes the last instruction, Up and
/// Down change the shown depth, Esc runs on without showing, and any other
/// key executes the instruction.
pub open spec fn apply_spec(s: DebuggerV, mem: Seq<u16>, ev: Evaluation, origin_len: nat, key: DebugKey) -> (
    DebuggerV,
    Seq<u16>,
    Effect,
) {
    if s.in_debugging_mode {
        let d = if origin_len > 0 && s.current_depth > origin_len - 1 {
            (origin_len - 1) as usize
        } else {
            s.current_depth
        };
        let s2 = DebuggerV { current_depth: d, ..s };
        match key {
            DebugKey::Char(c) => if c == 'm' {
                (DebuggerV { mem_mode: !s2.mem_mode, ..s2 }, mem, Effect::Again)
            } else if c == 'h' {
                (s2, mem, Effect::Quit)
            } else {
                finish_spec(s2, mem, ev)
            },
            DebugKey::Enter => (s2, mem, Effect::Again),
            DebugKey::Left => if s2.history.len() > 0 {
                let x = s2.history.last();
                (
                    DebuggerV {
                        history: s2.history.drop_last(),
                        pc: x.pc,
                        io_buffer: if x.io_operation is Char && s2.io_buffer.len() > 0 {
                            s2.io_buffer.drop_last()
                        } else {
                            s2.io_buffer
                        },
                        ..s2
                    },
                    revert_spec(mem, x),
                    Effect::Again,
                )
            } else {
                (s2, mem, Effect::Again)
            },
            DebugKey::Down => (
                DebuggerV {
                    current_depth: if d < usize::MAX {
                        (d + 1) as usize
                    } else {
                        d
                    },
                    ..s2
                },
                mem,
                Effect::Again,
            ),
            DebugKey::Up => (
                DebuggerV {
                    current_depth: if d > 0 {
                        (d - 1) as usize
                    } else {
                        0
                    },
                    ..s2
                },
                mem,
                Effect::Again,
            ),
            DebugKey::Esc => finish_spec(DebuggerV { in_debugging_mode: false, ..s2 }, mem, ev),
            _ => finish_spec(s2, mem, ev),
        }
    } else {
        finish_spec(s, mem, ev)
    }
}

impl Debugger {
    /// A session at the start of the program, shown from the start.
    pub fn new() -> (res: Debugger)
        ensures
            res@.pc == 0,
            res@.history == Seq::<InstructionHistoryItem>::empty(),
            res@.io_buffer == Seq::<char>::empty(),
            res@.current_depth == 0,
            !res@.mem_mode,
            res@.in_debugging_mode,
    {
        Debugger {
            pc: 0,
            history: Vec::new(),
            io_buffer: String::new(),
            current_depth: 0,
            mem_mode: false,
            in_debugging_mode: true,
        }
    }

    /// Evaluates the instruction at the pc; an error makes the session be
    /// shown.
    pub fn evaluate(&mut self, mem: &[u16], input: char) -> (res: Evaluation)
        requires
            !eval_panics(mem@, old(self).pc as int),
        ensures
            res == evaluate_spec(mem@, old(self).pc as int, input),
            final(self)@ == (DebuggerV {
                in_debugging_mode: old(self).in_debugging_mode || res.error is Some,
                ..old(self)@
            }),
    {
        let pc = self.pc;
        let a = mem[pc] as usize;
        let b = mem[pc + 1] as usize;
        let c = mem[pc + 2];
        let mut result: u16 = 0;
        let mut io = IOOperation::Nothing;
        let mut orig: u16 = 0;
        let mut error: Option<RuntimeError> = None;
        if b == 0xFFFF {
            result = mem[a];
            proof {
                crate::interpreter::lemma_low_byte(result);
            }
            io = IOOperation::Char((result as u8) as char);
        } else if b == 0xFFFE {
            result = mem[a];
            io = IOOperation::Debug(result);
        } else if a == 0xFFFF {
            let code: u32 = input as u32;
            let w: u16 = #[verifier::truncate] (code as u16);
            assert(w == (code % 0x10000) as u16) by (bit_vector)
                requires
                    w == (code as u16),
            ;
            result = w;
        } else if a >= mem.len() {
            error = Some(RuntimeError::AOutOfRange(pc));
        } else if b >= mem.len() {
            error = Some(RuntimeError::BOutOfRange(pc));
        } else {
            orig = mem[b];
            result = mem[b].wrapping_sub(mem[a]);
            assert(result == word_sub(mem@[b as int], mem@[a as int]));
        }
        proof {
            crate::interpreter::lemma_signed_leq_zero(result);
        }
        let mut new_pc = pc + 3;
        if (result as i16) <= 0 {
            if c == 0xFFFF {
                io = IOOperation::Halt;
                new_pc = c as usize;
            } else if c == 0xFFFE {
                error = Some(RuntimeError::Breakpoint(pc));
            } else {
                new_pc = c as usize;
            }
        }
        if error.is_some() {
            self.in_debugging_mode = true;
        }
        Evaluation { b, result, io, original_value_at_b: orig, new_pc, error }
    }

    /// The depth of the macro call that is shown for a token that came
    /// through `origin_len` calls: the chosen depth, kept below that
    /// number.
    pub fn shown_depth(&self, origin_len: usize) -> (res: usize)
        ensures
            res == if origin_len > 0 && self.current_depth > origin_len - 1 {
                (origin_len - 1) as usize
            } else {
                self.current_depth
            },
    {
        if origin_len > 0 && self.current_depth > origin_len - 1 {
            origin_len - 1
        } else {
            self.current_depth
        }
    }

    fn finish(&mut self, mem: &mut Vec<u16>, ev: &Evaluation) -> (res: Effect)
        requires
            old(self).pc + 2 < old(mem).len(),
            history_fits(old(self)@.history, old(mem).len() as int),
        ensures
            (final(self)@, final(mem)@, res) == finish_spec(old(self)@, old(mem)@, *ev),
            final(mem).len() == old(mem).len(),
            history_fits(final(self)@.history, final(mem).len() as int),
    {
        if ev.io == IOOperation::Halt {
            return Effect::Halted;
        }
        let keep = match ev.error {
            None => true,
            Some(RuntimeError::Breakpoint(_)) => true,
            _ => false,
        };
        if keep {
            self.history.push(
                InstructionHistoryItem {
                    pc: self.pc,
                    original_value_at_b: ev.original_value_at_b,
                    io_operation: ev.io,
                },
            );
            self.pc = ev.new_pc;
            if ev.b < mem.len() {
                mem.set(ev.b, ev.result);
            }
        }
        Effect::Proceed
    }

    /// Applies a key to the session (the key only counts while the session
    /// is shown) and executes the evaluated instruction when the key lets
    /// it.
    pub fn apply(&mut self, mem: &mut Vec<u16>, ev: &Evaluation, origin_len: usize, key: DebugKey) -> (res:
        Effect)
        requires
            old(self).pc + 2 < old(mem).len(),
            history_fits(old(self)@.history, old(mem).len() as int),
        ensures
            (final(self)@, final(mem)@, res) == apply_spec(
                old(self)@,
                old(mem)@,
                *ev,
                origin_len as nat,
                key,
            ),
            final(mem).len() == old(mem).len(),
            history_fits(final(self)@.history, final(mem).len() as int),
    {
        if !self.in_debugging_mode {
            return self.finish(mem, ev);
        }
        if origin_len > 0 && self.current_depth > origin_len - 1 {
            self.current_depth = origin_len - 1;
        }
        match key {
            DebugKey::Char(c) => {
                if c == 'm' {
                    self.mem_mode = !self.mem_mode;
                    Effect::Again
                } else if c == 'h' {
                    Effect::Quit
                } else {
                    self.finish(mem, ev)
                }
            },
            DebugKey::Enter => Effect::Again,
            DebugKey::Left => {
                match self.history.pop() {
                    Some(x) => {
                        assert(x.pc + 2 < mem.len());
                        self.pc = revert_historic_instruction(mem, &x, &mut self.io_buffer);
                        Effect::Again
                    },
                    None => Effect::Again,
                }
            },
            DebugKey::Down => {
                if self.current_depth < usize::MAX {
                    self.current_depth = self.current_depth + 1;
                }
                Effect::Again
            },
            DebugKey::Up => {
                if self.current_depth > 0 {
                    self.current_depth = self.current_depth - 1;
                }
                Effect::Again
            },
            DebugKey::Esc => {
                self.in_debugging_mode = false;
                self.finish(mem, ev)
            },
            _ => self.finish(mem, ev),
        }
    }
}

/// How a scripted debugging session ended.
#[derive(Debug, PartialEq, Eq, Structural, Clone, Copy)]
pub enum SessionEnd {
    /// The `h` key.
    Quit,
    /// The program jumped to -1.
    Halted,
    /// A key or an input was needed and none was left.
    OutOfKeys,
    /// The step limit was reached.
    OutOfSteps,
    /// The pc, or an output instruction's `a`, lies outside memory, or the
    /// pc has no token to show: the session cannot go on.
    OutOfRange,
}

/// The number of macro calls each token came through.
pub open spec fn origin_lens(tokens: Seq<Token>) -> Seq<nat> {
    tokens.map_values(|t: Token| t.origin_info@.len())
}

/// A debugging session run with the debugger keys `keys` and the program
/// input `inputs`, for at most `fuel` rounds: each round evaluates the
/// instruction at the pc (an input instruction takes the next input),
/// takes the next key while the session is shown, and applies it.
pub open spec fn session(
    s: DebuggerV,
    mem: Seq<u16>,
    origin: Seq<nat>,
    keys: Seq<DebugKey>,
    inputs: Seq<char>,
    fuel: nat,
) -> (DebuggerV, Seq<u16>, SessionEnd)
    decreases fuel,
{
    if fuel == 0 {
        (s, mem, SessionEnd::OutOfSteps)
    } else if eval_panics(mem, s.pc as int) {
        (s, mem, SessionEnd::OutOfRange)
    } else {
        let needs = crate::runtimes::interpreter::reads_input(mem, s.pc as int);
        if needs && inputs.len() == 0 {
            (s, mem, SessionEnd::OutOfKeys)
        } else {
            let input = if needs {
                inputs[0]
            } else {
                '\0'
            };
            let inputs1 = if needs {
                inputs.skip(1)
            } else {
                inputs
            };
            let ev = evaluate_spec(mem, s.pc as int, input);
            let s1 = DebuggerV { in_debugging_mode: s.in_debugging_mode || ev.error is Some, ..s };
            if s1.in_debugging_mode && s.pc >= origin.len() {
                (s1, mem, SessionEnd::OutOfRange)
            } else if s1.in_debugging_mode && keys.len() == 0 {
                (s1, mem, SessionEnd::OutOfKeys)
            } else {
                let key = if s1.in_debugging_mode {
                    keys[0]
                } else {
                    DebugKey::Other
                };
                let keys1 = if s1.in_debugging_mode {
                    keys.skip(1)
                } else {
                    keys
                };
                let olen = if s1.in_debugging_mode {
                    origin[s.pc as int]
                } else {
                    0
                };
                let (s2, m2, eff) = apply_spec(s1, mem, ev, olen, key);
                if eff == Effect::Quit {
                    (s2, m2, SessionEnd::Quit)
                } else if eff == Effect::Halted {
                    (s2, m2, SessionEnd::Halted)
                } else {
                    session(s2, m2, origin, keys1, inputs1, (fuel - 1) as nat)
                }
            }
        }
    }
}

/// The session at the start of a program.
pub open spec fn session_start() -> DebuggerV {
    DebuggerV {
        pc: 0,
        history: Seq::empty(),
        io_buffer: Seq::empty(),
        current_depth: 0,
        mem_mode: false,
        in_debugging_mode: true,
    }
}

/// Runs a debugging session from the start of the program with the given
/// debugger keys and program input, for at most `max_steps` rounds,
/// without showing it.
pub fn run_with_debugger(
    mem: &mut Vec<u16>,
    tokens: &[Token],
    keys: &[DebugKey],
    inputs: &[char],
    max_steps: usize,
) -> (res: SessionEnd)
    ensures
        ({
            let (_, m, end) = session(
                session_start(),
                old(mem)@,
                origin_lens(tokens@),
                keys@,
                inputs@,
                max_steps as nat,
            );
            final(mem)@ == m && res == end
        }),
{
    let ghost origin = origin_lens(tokens@);
    let ghost goal = session(session_start(), mem@, origin, keys@, inputs@, max_steps as nat);
    let mut dbg = Debugger::new();
    assert(dbg@ == session_start());
    let mut ki: usize = 0;
    let mut ii: usize = 0;
    let mut fuel: usize = max_steps;
    assert(keys@.skip(0) =~= keys@);
    assert(inputs@.skip(0) =~= inputs@);
    loop
        invariant
            ki <= keys.len(),
            ii <= inputs.len(),
            origin == origin_lens(tokens@),
            goal == session(session_start(), old(mem)@, origin, keys@, inputs@, max_steps as nat),
            history_fits(dbg@.history, mem.len() as int),
            goal == session(dbg@, mem@, origin, keys@.skip(ki as int), inputs@.skip(ii as int), fuel as nat),
        decreases fuel,
    {
        let ghost ks = keys@.skip(ki as int);
        let ghost ins = inputs@.skip(ii as int);
        if fuel == 0 {
            return SessionEnd::OutOfSteps;
        }
        let pc = dbg.pc;
        if !(pc < mem.len() && mem.len() - pc > 2) {
            return SessionEnd::OutOfRange;
        }
        let b = mem[pc + 1];
        if (b == 0xFFFF || b == 0xFFFE) && (mem[pc] as usize) >= mem.len() {
            return SessionEnd::OutOfRange;
        }
        let needs = crate::runtimes::interpreter::needs_input(mem.as_slice(), pc);
        let mut input = '\0';
        if needs {
            if ii >= inputs.len() {
                return SessionEnd::OutOfKeys;
            }
            input = inputs[ii];
            ii += 1;
            assert(ins.skip(1) =~= inputs@.skip(ii as int));
        }
        let ev = dbg.evaluate(mem.as_slice(), input);
        let mut key = DebugKey::Other;
        let mut olen: usize = 0;
        if dbg.in_debugging_mode {
            if pc >= tokens.len() {
                return SessionEnd::OutOfRange;
            }
            if ki >= keys.len() {
                return SessionEnd::OutOfKeys;
            }
            key = keys[ki];
            olen = tokens[pc].origin_info.len();
            ki += 1;
            assert(ks.skip(1) =~= keys@.skip(ki as int));
        }
        let eff = dbg.apply(mem, &ev, olen, key);
        if eff == Effect::Quit {
            return SessionEnd::Quit;
        }
        if eff == Effect::Halted {
            return SessionEnd::Halted;
        }
        fuel -= 1;
    }
}

/// Stepping back undoes stepping forward: in a shown session, Right on an
/// instruction that subtracts (no input or output, both operands inside
/// memory, `b` not its own operand, no halt) and then Left give back the
/// memory, the pc and the history from before.
pub proof fn lemma_left_undoes_right(
    s: DebuggerV,
    mem: Seq<u16>,
    input: char,
    olen: nat,
    ev2: Evaluation,
    olen2: nat,
)
    requires
        s.in_debugging_mode,
        s.pc + 2 < mem.len(),
        mem[s.pc + 1] != 0xFFFF && mem[s.pc + 1] != 0xFFFE,
        mem[s.pc as int] != 0xFFFF,
        mem[s.pc as int] < mem.len(),
        mem[s.pc + 1] < mem.len(),
        mem[s.pc + 1] != s.pc + 1,
        evaluate_spec(mem, s.pc as int, input).io != IOOperation::Halt,
    ensures
        ({
            let ev = evaluate_spec(mem, s.pc as int, input);
            let (s1, m1, e1) = apply_spec(s, mem, ev, olen, DebugKey::Right);
            let (s2, m2, e2) = apply_spec(s1, m1, ev2, olen2, DebugKey::Left);
            &&& e1 == Effect::Proceed
            &&& e2 == Effect::Again
            &&& m2 == mem
            &&& s2.pc == s.pc
            &&& s2.history == s.history
        }),
{
    let ev = evaluate_spec(mem, s.pc as int, input);
    let (s1, m1, e1) = apply_spec(s, mem, ev, olen, DebugKey::Right);
    let b = mem[s.pc + 1] as int;
    assert(m1 == mem.update(b, ev.result));
    assert(s1.history.drop_last() =~= s.history);
    assert(m1[s.pc + 1] == mem[s.pc + 1]);
    assert(revert_spec(m1, s1.history.last()) =~= mem);
}

/// Over a whole session, a step forward and a step back leave memory as
/// it was: where the session is shown at an instruction that subtracts (no
/// input or output, both operands inside memory, `b` not its own operand,
/// no halt) and the instruction it goes to can be shown, the keys Right,
/// Left and `h` end the session with the same memory as `h` alone.
pub proof fn lemma_right_left_session(
    s: DebuggerV,
    mem: Seq<u16>,
    origin: Seq<nat>,
    rest: Seq<DebugKey>,
    inputs: Seq<char>,
    fuel: nat,
)
    requires
        s.in_debugging_mode,
        fuel >= 3,
        s.pc < origin.len(),
        s.pc + 2 < mem.len(),
        mem[s.pc + 1] != 0xFFFF && mem[s.pc + 1] != 0xFFFE,
        mem[s.pc as int] != 0xFFFF,
        mem[s.pc as int] < mem.len(),
        mem[s.pc + 1] < mem.len(),
        mem[s.pc + 1] != s.pc + 1,
        evaluate_spec(mem, s.pc as int, '\0').io != IOOperation::Halt,
        ({
            let ev = evaluate_spec(mem, s.pc as int, '\0');
            let m1 = mem.update(mem[s.pc + 1] as int, ev.result);
            &&& !eval_panics(m1, ev.new_pc as int)
            &&& ev.new_pc < origin.len()
            &&& crate::runtimes::interpreter::reads_input(m1, ev.new_pc as int) ==> inputs.len() > 0
        }),
    ensures
        session(s, mem, origin, seq![DebugKey::Right, DebugKey::Left, DebugKey::Char('h')] + rest, inputs, fuel)
            == (session(s, mem, origin, seq![DebugKey::Right, DebugKey::Left, DebugKey::Char('h')] + rest, inputs, fuel).0, mem, SessionEnd::Quit),
        session(s, mem, origin, seq![DebugKey::Char('h')] + rest, inputs, fuel)
            == (session(s, mem, origin, seq![DebugKey::Char('h')] + rest, inputs, fuel).0, mem, SessionEnd::Quit),
{
    let keys = seq![DebugKey::Right, DebugKey::Left, DebugKey::Char('h')] + rest;
    let ev = evaluate_spec(mem, s.pc as int, '\0');
    assert(!crate::runtimes::interpreter::reads_input(mem, s.pc as int));
    assert(!eval_panics(mem, s.pc as int));
    let s1 = DebuggerV { in_debugging_mode: s.in_debugging_mode || ev.error is Some, ..s };
    assert(s1 == s);
    let (sa, ma, ea) = apply_spec(s, mem, ev, origin[s.pc as int], DebugKey::Right);
    let b = mem[s.pc + 1] as int;
    assert(ma == mem.update(b, ev.result));
    assert(ea == Effect::Proceed);
    assert(keys[0] == DebugKey::Right);
    assert(keys.skip(1)[0] == DebugKey::Left);
    assert(keys.skip(1).skip(1) =~= seq![DebugKey::Char('h')] + rest);
    assert(session(s, mem, origin, keys, inputs, fuel) == session(sa, ma, origin, keys.skip(1), inputs, (fuel - 1) as nat));
    let needs = crate::runtimes::interpreter::reads_input(ma, sa.pc as int);
    let input = if needs { inputs[0] } else { '\0' };
    let inputs1 = if needs { inputs.skip(1) } else { inputs };
    let ev2 = evaluate_spec(ma, sa.pc as int, input);
    let sb1 = DebuggerV { in_debugging_mode: sa.in_debugging_mode || ev2.error is Some, ..sa };
    assert(sb1 == sa);
    lemma_left_undoes_right(s, mem, '\0', origin[s.pc as int], ev2, origin[sa.pc as int]);
    let (sb, mb, eb) = apply_spec(sa, ma, ev2, origin[sa.pc as int], DebugKey::Left);
    assert(mb == mem);
    assert(sb.pc == s.pc);
    assert(session(sa, ma, origin, keys.skip(1), inputs, (fuel - 1) as nat) == session(
        sb,
        mb,
        origin,
        keys.skip(1).skip(1),
        inputs1,
        (fuel - 2) as nat,
    ));
    let hk = seq![DebugKey::Char('h')] + rest;
    assert(hk[0] == DebugKey::Char('h'));
    assert(sb.in_debugging_mode);
}

/// Where a session stands when its keys run out: the session as shown at
/// the instruction that waits for the next key, the memory, the program
/// input not yet read and the rounds left. `None` when the session ends
/// for another reason before that.
pub open spec fn session_after(
    s: DebuggerV,
    mem: Seq<u16>,
    origin: Seq<nat>,
    keys: Seq<DebugKey>,
    inputs: Seq<char>,
    fuel: nat,
) -> Option<(DebuggerV, Seq<u16>, Seq<char>, nat)>
    decreases fuel,
{
    if fuel == 0 || eval_panics(mem, s.pc as int) {
        None
    } else {
        let needs = crate::runtimes::interpreter::reads_input(mem, s.pc as int);
        if needs && inputs.len() == 0 {
            None
        } else {
            let input = if needs {
                inputs[0]
            } else {
                '\0'
            };
            let inputs1 = if needs {
                inputs.skip(1)
            } else {
                inputs
            };
            let ev = evaluate_spec(mem, s.pc as int, input);
            let s1 = DebuggerV { in_debugging_mode: s.in_debugging_mode || ev.error is Some, ..s };
            if s1.in_debugging_mode && s.pc >= origin.len() {
                None
            } else if s1.in_debugging_mode && keys.len() == 0 {
                Some((s1, mem, inputs, fuel))
            } else {
                let key = if s1.in_debugging_mode {
                    keys[0]
                } else {
                    DebugKey::Other
                };
                let keys1 = if s1.in_debugging_mode {
                    keys.skip(1)
                } else {
                    keys
                };
                let olen = if s1.in_debugging_mode {
                    origin[s.pc as int]
                } else {
                    0
                };
                let (s2, m2, eff) = apply_spec(s1, mem, ev, olen, key);
                if eff == Effect::Quit || eff == Effect::Halted {
                    None
                } else {
                    session_after(s2, m2, origin, keys1, inputs1, (fuel - 1) as nat)
                }
            }
        }
    }
}

/// A session whose keys `ks` run out while it waits at an instruction goes
/// on with the keys after them as a session from the point where it
/// waited.
pub proof fn lemma_session_continues(
    s: DebuggerV,
    mem: Seq<u16>,
    origin: Seq<nat>,
    ks: Seq<DebugKey>,
    more: Seq<DebugKey>,
    inputs: Seq<char>,
    fuel: nat,
)
    requires
        session_after(s, mem, origin, ks, inputs, fuel) is Some,
    ensures
        ({
            let (w, m, ins, f) = session_after(s, mem, origin, ks, inputs, fuel)->0;
            session(s, mem, origin, ks + more, inputs, fuel) == session(w, m, origin, more, ins, f)
        }),
    decreases fuel,
{
    let needs = crate::runtimes::interpreter::reads_input(mem, s.pc as int);
    let input = if needs {
        inputs[0]
    } else {
        '\0'
    };
    let inputs1 = if needs {
        inputs.skip(1)
    } else {
        inputs
    };
    let ev = evaluate_spec(mem, s.pc as int, input);
    let s1 = DebuggerV { in_debugging_mode: s.in_debugging_mode || ev.error is Some, ..s };
    if s1.in_debugging_mode && ks.len() == 0 {
        assert(ks + more =~= more);
        let s1b = DebuggerV { in_debugging_mode: s1.in_debugging_mode || ev.error is Some, ..s1 };
        assert(s1b == s1);
    } else {
        if s1.in_debugging_mode {
            assert((ks + more)[0] == ks[0]);
            assert((ks + more).skip(1) =~= ks.skip(1) + more);
        }
        let key = if s1.in_debugging_mode {
            ks[0]
        } else {
            DebugKey::Other
        };
        let keys1 = if s1.in_debugging_mode {
            ks.skip(1)
        } else {
            ks
        };
        let olen = if s1.in_debugging_mode {
            origin[s.pc as int]
        } else {
            0
        };
        let (s2, m2, eff) = apply_spec(s1, mem, ev, olen, key);
        lemma_session_continues(s2, m2, origin, keys1, more, inputs1, (fuel - 1) as nat);
    }
}

/// A step forward and a step back in a session leave memory as it was:
/// where the keys `ks` of a session from the start of the program run out
/// while it waits at an instruction that subtracts (no input or output,
/// both operands inside memory, `b` not its own operand, no halt), and the
/// instruction it goes to can be shown (and, if it reads input, input is
/// left), the keys `ks`, Right, Left and `h` end the session with the
/// memory that `ks` and `h` end it with, the memory it waited with.
pub proof fn lemma_step_back_restores_memory(
    mem: Seq<u16>,
    origin: Seq<nat>,
    ks: Seq<DebugKey>,
    rest: Seq<DebugKey>,
    inputs: Seq<char>,
    fuel: nat,
)
    requires
        session_after(session_start(), mem, origin, ks, inputs, fuel) matches Some((w, m, ins, f)) && {
            let ev = evaluate_spec(m, w.pc as int, '\0');
            let m1 = m.update(m[w.pc + 1] as int, ev.result);
            &&& f >= 3
            &&& m[w.pc + 1] != 0xFFFF && m[w.pc + 1] != 0xFFFE
            &&& m[w.pc as int] != 0xFFFF
            &&& m[w.pc as int] < m.len()
            &&& m[w.pc + 1] < m.len()
            &&& m[w.pc + 1] != w.pc + 1
            &&& ev.io != IOOperation::Halt
            &&& !eval_panics(m1, ev.new_pc as int)
            &&& ev.new_pc < origin.len()
            &&& crate::runtimes::interpreter::reads_input(m1, ev.new_pc as int) ==> ins.len() > 0
        },
    ensures
        ({
            let m = (session_after(session_start(), mem, origin, ks, inputs, fuel)->0).1;
            let back = session(session_start(), mem, origin, ks + (seq![DebugKey::Right, DebugKey::Left, DebugKey::Char('h')] + rest), inputs, fuel);
            let quit = session(session_start(), mem, origin, ks + (seq![DebugKey::Char('h')] + rest), inputs, fuel);
            &&& back.1 == m && back.2 == SessionEnd::Quit
            &&& quit.1 == m && quit.2 == SessionEnd::Quit
        }),
{
    let (w, m, ins, f) = session_after(session_start(), mem, origin, ks, inputs, fuel)->0;
    lemma_session_after_waits(session_start(), mem, origin, ks, inputs, fuel);
    lemma_session_continues(session_start(), mem, origin, ks, seq![DebugKey::Right, DebugKey::Left, DebugKey::Char('h')] + rest, inputs, fuel);
    lemma_session_continues(session_start(), mem, origin, ks, seq![DebugKey::Char('h')] + rest, inputs, fuel);
    lemma_right_left_session(w, m, origin, rest, ins, f);
}

/// Where a session waits, it is shown, at an instruction that fits in
/// memory and has a token.
proof fn lemma_session_after_waits(
    s: DebuggerV,
    mem: Seq<u16>,
    origin: Seq<nat>,
    keys: Seq<DebugKey>,
    inputs: Seq<char>,
    fuel: nat,
)
    requires
        session_after(s, mem, origin, keys, inputs, fuel) is Some,
    ensures
        ({
            let (w, m, ins, f) = session_after(s, mem, origin, keys, inputs, fuel)->0;
            &&& w.in_debugging_mode
            &&& w.pc < origin.len()
            &&& w.pc + 2 < m.len()
            &&& f >= 1
        }),
    decreases fuel,
{
    let needs = crate::runtimes::interpreter::reads_input(mem, s.pc as int);
    let input = if needs {
        inputs[0]
    } else {
        '\0'
    };
    let inputs1 = if needs {
        inputs.skip(1)
    } else {
        inputs
    };
    let ev = evaluate_spec(mem, s.pc as int, input);
    let s1 = DebuggerV { in_debugging_mode: s.in_debugging_mode || ev.error is Some, ..s };
    if !(s1.in_debugging_mode && keys.len() == 0) {
        let key = if s1.in_debugging_mode {
            keys[0]
        } else {
            DebugKey::Other
        };
        let keys1 = if s1.in_debugging_mode {
            keys.skip(1)
        } else {
            keys
        };
        let olen = if s1.in_debugging_mode {
            origin[s.pc as int]
        } else {
            0
        };
        let (s2, m2, eff) = apply_spec(s1, mem, ev, olen, key);
        lemma_session_after_waits(s2, m2, origin, keys1, inputs1, (fuel - 1) as nat);
    }
}

/// How many source lines the debugger shows above the current one.
pub const UPPER_SIZE: i32 = 15;

/// How many source lines the debugger shows below the current one.
pub const LOWER_SIZE: i32 = 15;

/// The source lines the debugger shows around line `line_number` (counted
/// from 1) of a file of `n_lines` lines: from `start` up to but not
/// including `end`, counted from 0. The window is moved, not cut, where
/// it meets the start or the end of the file.
pub open spec fn window_spec(line_number: int, n_lines: int) -> (int, int) {
    let desired_start = line_number - 1 - UPPER_SIZE;
    let desired_end = line_number - 1 + LOWER_SIZE + 1;
    let actual_start = if desired_start > 0 { desired_start } else { 0 };
    let actual_end = if desired_end < n_lines - 1 { desired_end } else { n_lines - 1 };
    let start = actual_start - (desired_end - actual_end);
    let end = actual_end + (actual_start - desired_start);
    (if start > 0 { start } else { 0 }, if end < n_lines - 1 { end } else { n_lines - 1 })
}

/// The window of source lines that the debugger shows.
pub fn display_window(line_number: i32, n_lines: i32) -> (res: (i32, i32))
    requires
        i32::MIN + 17 <= line_number <= i32::MAX - 16,
        0 <= n_lines,
    ensures
        res.0 == window_spec(line_number as int, n_lines as int).0,
        res.1 == window_spec(line_number as int, n_lines as int).1,
{
    let desired_start_line = line_number - 1 - UPPER_SIZE;
    let desired_end_line = line_number - 1 + LOWER_SIZE + 1;
    let actual_start_line = if desired_start_line > 0 { desired_start_line } else { 0 };
    let actual_end_line = if desired_end_line < n_lines - 1 { desired_end_line } else { n_lines - 1 };
    let start = actual_start_line - (desired_end_line - actual_end_line);
    let end = actual_end_line + (actual_start_line - desired_start_line);
    (if start > 0 { start } else { 0 }, if end < n_lines - 1 { end } else { n_lines - 1 })
}

} // verus!
