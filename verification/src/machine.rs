//! The execution engine: machine state and the single-step operation.
//!
//! A machine holds a read-only instruction sequence, a program counter, a
//! fixed-length circular tape of eight-bit cells, and a data pointer. A step
//! executes exactly one instruction. The Output instruction hands its
//! character back to the caller, and the Input instruction takes its byte as
//! an argument, so the engine itself performs no I/O and every step is a pure
//! state transition, pinned exactly by [`step_model`].

use crate::decoder::CatInstruction;
use vstd::prelude::*;

verus! {

/// Why a step could not run to completion.
#[derive(Copy, Clone, PartialEq, Eq, Structural, Debug)]
pub enum CatError {
    /// The program counter had already reached the end of the program.
    ProgramDone,
    /// A JumpForward on a zero cell found no matching JumpBack ahead of it.
    UnmatchedJumpForward,
    /// A JumpBack on a nonzero cell found no matching JumpForward behind it.
    UnmatchedJumpBack,
    /// An Input instruction ran with no byte available.
    InputExhausted,
}

/// The mathematical machine: what a [`CatInterpreter`] is at the spec level.
#[verifier::ext_equal]
pub ghost struct Machine {
    /// Index of the current cell on the tape.
    pub pointer: int,
    /// Index of the next instruction to execute.
    pub pc: int,
    /// The tape's cells.
    pub tape: Seq<u8>,
    /// The program: a read-only instruction sequence.
    pub prog: Seq<CatInstruction>,
}

/// A well-formed machine: at least one cell, and the pointer on the tape.
pub open spec fn wf_machine(m: Machine) -> bool {
    &&& 1 <= m.tape.len()
    &&& 0 <= m.pointer < m.tape.len()
    &&& 0 <= m.pc
}

/// Eight-bit wrapping successor of a cell value.
pub open spec fn cell_inc(b: u8) -> u8 {
    ((b + 1) % 256) as u8
}

/// Eight-bit wrapping predecessor of a cell value.
pub open spec fn cell_dec(b: u8) -> u8 {
    ((b + 255) % 256) as u8
}

/// The character Output emits for a cell: the cell itself when it is a valid
/// single-byte ASCII value, the Unicode replacement character otherwise.
pub open spec fn output_char(b: u8) -> char {
    if b < 128 {
        b as char
    } else {
        '\u{FFFD}'
    }
}

/// The position of the JumpBack that closes a bracket scan begun at `j` with
/// `depth` still-open JumpForwards, or nothing when the program ends first.
pub open spec fn find_back(prog: Seq<CatInstruction>, j: int, depth: int) -> Option<int>
    decreases prog.len() - j,
{
    if j < 0 || j >= prog.len() {
        None
    } else if prog[j] == CatInstruction::JumpBack {
        if depth == 0 {
            Some(j)
        } else {
            find_back(prog, j + 1, depth - 1)
        }
    } else if prog[j] == CatInstruction::JumpForward {
        find_back(prog, j + 1, depth + 1)
    } else {
        find_back(prog, j + 1, depth)
    }
}

/// The position of the JumpForward that opens a bracket scan begun at `j` with
/// `depth` still-open JumpBacks, or nothing when the scan passes the start of
/// the program.
pub open spec fn find_forward(prog: Seq<CatInstruction>, j: int, depth: int) -> Option<int>
    decreases j + 1,
{
    if j < 0 || j >= prog.len() {
        None
    } else if prog[j] == CatInstruction::JumpForward {
        if depth == 0 {
            Some(j)
        } else {
            find_forward(prog, j - 1, depth - 1)
        }
    } else if prog[j] == CatInstruction::JumpBack {
        find_forward(prog, j - 1, depth + 1)
    } else {
        find_forward(prog, j - 1, depth)
    }
}

/// One step of the machine: the state after executing the instruction at the
/// program counter with `input` on offer, and what the step reports. A failed
/// step leaves the machine exactly as it was.
pub open spec fn step_model(m: Machine, input: Option<u8>) -> (Machine, Result<
    Option<char>,
    CatError,
>) {
    if m.pc < 0 || m.pc >= m.prog.len() {
        (m, Err(CatError::ProgramDone))
    } else {
        let cell = m.tape[m.pointer];
        match m.prog[m.pc] {
            CatInstruction::MoveRight => (
                Machine { pointer: (m.pointer + 1) % (m.tape.len() as int), pc: m.pc + 1, ..m },
                Ok(None),
            ),
            CatInstruction::MoveLeft => (
                Machine {
                    pointer: if m.pointer > 0 {
                        m.pointer - 1
                    } else {
                        m.tape.len() - 1
                    },
                    pc: m.pc + 1,
                    ..m
                },
                Ok(None),
            ),
            CatInstruction::Increment => (
                Machine { tape: m.tape.update(m.pointer, cell_inc(cell)), pc: m.pc + 1, ..m },
                Ok(None),
            ),
            CatInstruction::Decrement => (
                Machine { tape: m.tape.update(m.pointer, cell_dec(cell)), pc: m.pc + 1, ..m },
                Ok(None),
            ),
            CatInstruction::Output => (
                Machine { pc: m.pc + 1, ..m },
                Ok(Some(output_char(cell))),
            ),
            CatInstruction::Input => match input {
                Some(b) => (
                    Machine { tape: m.tape.update(m.pointer, b), pc: m.pc + 1, ..m },
                    Ok(None),
                ),
                None => (m, Err(CatError::InputExhausted)),
            },
            CatInstruction::JumpForward => if cell == 0 {
                match find_back(m.prog, m.pc + 1, 0) {
                    Some(j) => (Machine { pc: j + 1, ..m }, Ok(None)),
                    None => (m, Err(CatError::UnmatchedJumpForward)),
                }
            } else {
                (Machine { pc: m.pc + 1, ..m }, Ok(None))
            },
            CatInstruction::JumpBack => if cell != 0 {
                match find_forward(m.prog, m.pc - 1, 0) {
                    Some(j) => (Machine { pc: j + 1, ..m }, Ok(None)),
                    None => (m, Err(CatError::UnmatchedJumpBack)),
                }
            } else {
                (Machine { pc: m.pc + 1, ..m }, Ok(None))
            },
        }
    }
}

/// The machine state: program, program counter, circular tape, data pointer.
pub struct CatInterpreter {
    /// Index of the current cell on the tape.
    pub pointer: usize,
    /// Index of the next instruction to execute.
    pub pc: usize,
    /// The tape: fixed-length, eight-bit cells, all zero at construction.
    pub tape: Vec<u8>,
    /// The program, read-only for the lifetime of a run.
    pub instructions: Vec<CatInstruction>,
    /// Purely observational: lets a caller narrate executed instructions.
    pub debug: bool,
}

impl CatInterpreter {
    /// The mathematical machine this interpreter stands for.
    pub open spec fn model(self) -> Machine {
        Machine {
            pointer: self.pointer as int,
            pc: self.pc as int,
            tape: self.tape@,
            prog: self.instructions@,
        }
    }

    /// Well-formedness: at least one cell, and the pointer on the tape.
    pub open spec fn wf(self) -> bool {
        wf_machine(self.model())
    }

    /// A fresh machine over `instructions`, with a zeroed tape of `tape_size`
    /// cells and both the pointer and the program counter at zero.
    pub fn new(tape_size: usize, instructions: Vec<CatInstruction>) -> (r: Self)
        requires
            1 <= tape_size,
        ensures
            r.wf(),
            r.pointer == 0,
            r.pc == 0,
            r.tape@.len() == tape_size,
            forall|i: int| 0 <= i < tape_size ==> r.tape@[i] == 0u8,
            r.instructions@ == instructions@,
            r.debug == false,
    {
        let mut tape: Vec<u8> = Vec::new();
        let mut k: usize = 0;
        while k < tape_size
            invariant
                k <= tape_size,
                tape@.len() == k,
                forall|i: int| 0 <= i < k ==> tape@[i] == 0u8,
            decreases tape_size - k,
        {
            tape.push(0);
            k = k + 1;
        }
        CatInterpreter { pointer: 0, pc: 0, tape, instructions, debug: false }
    }

    /// True exactly when the program counter has reached the end of the
    /// program.
    pub fn is_done(&self) -> (r: bool)
        ensures
            r == (self.pc >= self.instructions@.len()),
    {
        self.pc >= self.instructions.len()
    }

    /// Executes exactly one instruction, as [`step_model`] says: Output hands
    /// its character back, Input stores the byte on offer, and a failed step
    /// reports why and changes nothing.
    pub fn step(&mut self, input: Option<u8>) -> (r: Result<Option<char>, CatError>)
        requires
            old(self).wf(),
        ensures
            final(self).wf(),
            final(self).instructions@ == old(self).instructions@,
            final(self).tape@.len() == old(self).tape@.len(),
            final(self).debug == old(self).debug,
            final(self).model() == step_model(old(self).model(), input).0,
            r == step_model(old(self).model(), input).1,
    {
        if self.pc >= self.instructions.len() {
            return Err(CatError::ProgramDone);
        }
        let ghost m0 = self.model();
        let instr = self.instructions[self.pc];
        match instr {
            CatInstruction::MoveRight => {
                let n = self.tape.len();
                self.pointer = (self.pointer + 1) % n;
                self.pc = self.pc + 1;
                proof {
                    assert(self.model() =~= step_model(m0, input).0);
                }
                Ok(None)
            },
            CatInstruction::MoveLeft => {
                if self.pointer > 0 {
                    self.pointer = self.pointer - 1;
                } else {
                    self.pointer = self.tape.len() - 1;
                }
                self.pc = self.pc + 1;
                proof {
                    assert(self.model() =~= step_model(m0, input).0);
                }
                Ok(None)
            },
            CatInstruction::Increment => {
                let cell = self.tape[self.pointer];
                let bumped = if cell == 255 {
                    0
                } else {
                    cell + 1
                };
                self.tape.set(self.pointer, bumped);
                self.pc = self.pc + 1;
                proof {
                    assert(self.model() =~= step_model(m0, input).0);
                }
                Ok(None)
            },
            CatInstruction::Decrement => {
                let cell = self.tape[self.pointer];
                let dropped = if cell == 0 {
                    255
                } else {
                    cell - 1
                };
                self.tape.set(self.pointer, dropped);
                self.pc = self.pc + 1;
                proof {
                    assert(self.model() =~= step_model(m0, input).0);
                }
                Ok(None)
            },
            CatInstruction::Output => {
                let cell = self.tape[self.pointer];
                let c = if cell < 128 {
                    cell as char
                } else {
                    '\u{FFFD}'
                };
                self.pc = self.pc + 1;
                proof {
                    assert(self.model() =~= step_model(m0, input).0);
                }
                Ok(Some(c))
            },
            CatInstruction::Input => {
                match input {
                    Some(b) => {
                        self.tape.set(self.pointer, b);
                        self.pc = self.pc + 1;
                        proof {
                            assert(self.model() =~= step_model(m0, input).0);
                        }
                        Ok(None)
                    },
                    None => Err(CatError::InputExhausted),
                }
            },
            CatInstruction::JumpForward => {
                if self.tape[self.pointer] == 0 {
                    match scan_forward(&self.instructions, self.pc) {
                        Some(j) => {
                            self.pc = j + 1;
                            proof {
                                assert(self.model() =~= step_model(m0, input).0);
                            }
                            Ok(None)
                        },
                        None => Err(CatError::UnmatchedJumpForward),
                    }
                } else {
                    self.pc = self.pc + 1;
                    proof {
                        assert(self.model() =~= step_model(m0, input).0);
                    }
                    Ok(None)
                }
            },
            CatInstruction::JumpBack => {
                if self.tape[self.pointer] != 0 {
                    match scan_backward(&self.instructions, self.pc) {
                        Some(j) => {
                            self.pc = j + 1;
                            proof {
                                assert(self.model() =~= step_model(m0, input).0);
                            }
                            Ok(None)
                        },
                        None => Err(CatError::UnmatchedJumpBack),
                    }
                } else {
                    self.pc = self.pc + 1;
                    proof {
                        assert(self.model() =~= step_model(m0, input).0);
                    }
                    Ok(None)
                }
            },
        }
    }
}

/// Walks forward from the instruction after `pc`, tracking the nesting depth,
/// to the JumpBack matching a JumpForward at `pc`.
fn scan_forward(prog: &Vec<CatInstruction>, pc: usize) -> (r: Option<usize>)
    requires
        pc < prog@.len(),
    ensures
        (match r {
            Some(j) => pc < j < prog@.len() && find_back(prog@, pc + 1, 0) == Some(j as int),
            None => find_back(prog@, pc + 1, 0) is None,
        }),
{
    let n = prog.len();
    let mut j = pc + 1;
    let mut depth: usize = 0;
    while j < n
        invariant
            pc + 1 <= j <= n,
            n == prog@.len(),
            depth <= j - pc - 1,
            find_back(prog@, pc + 1, 0) == find_back(prog@, j as int, depth as int),
        decreases n - j,
    {
        let here = prog[j];
        if here == CatInstruction::JumpBack {
            if depth == 0 {
                return Some(j);
            }
            depth = depth - 1;
        } else if here == CatInstruction::JumpForward {
            depth = depth + 1;
        }
        j = j + 1;
    }
    None
}

/// Walks backward from the instruction before `pc`, tracking the nesting
/// depth, to the JumpForward matching a JumpBack at `pc`.
fn scan_backward(prog: &Vec<CatInstruction>, pc: usize) -> (r: Option<usize>)
    requires
        pc < prog@.len(),
    ensures
        (match r {
            Some(j) => j < pc && find_forward(prog@, pc - 1, 0) == Some(j as int),
            None => find_forward(prog@, pc - 1, 0) is None,
        }),
{
    let mut j = pc;
    let mut depth: usize = 0;
    while j > 0
        invariant
            j <= pc,
            pc < prog@.len(),
            depth <= pc - j,
            find_forward(prog@, pc - 1, 0) == find_forward(prog@, j - 1, depth as int),
        decreases j,
    {
        j = j - 1;
        let here = prog[j];
        if here == CatInstruction::JumpForward {
            if depth == 0 {
                return Some(j);
            }
            depth = depth - 1;
        } else if here == CatInstruction::JumpBack {
            depth = depth + 1;
        }
    }
    None
}

} // verus!
