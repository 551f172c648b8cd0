//! Laws of the execution engine, proved over [`step_model`]: how the pointer
//! walks a circular tape, how cell arithmetic wraps, how a bracketed countdown
//! program runs dry, and what a failed step leaves behind.

use crate::decoder::CatInstruction;
use crate::machine::{
    cell_dec, cell_inc, find_back, find_forward, step_model, wf_machine, CatError, Machine,
};
use vstd::arithmetic::div_mod::{
    lemma_add_mod_noop, lemma_mod_bound, lemma_mod_multiples_vanish, lemma_small_mod,
};
use vstd::prelude::*;

verus! {

/// The machine after `k` successful steps that are offered no input.
pub open spec fn run_model(m: Machine, k: nat) -> Machine
    decreases k,
{
    if k == 0 {
        m
    } else {
        step_model(run_model(m, (k - 1) as nat), None).0
    }
}

/// Running `a + b` steps is running `a` steps and then `b` more.
pub proof fn lemma_run_model_add(m: Machine, a: nat, b: nat)
    ensures
        run_model(m, a + b) == run_model(run_model(m, a), b),
    decreases b,
{
    if b > 0 {
        lemma_run_model_add(m, a, (b - 1) as nat);
    }
}

/// A block of MoveRight instructions walks the pointer around the circular
/// tape: after `k` of them it sits at `(pointer + k) mod tape length`, and
/// nothing else has changed.
pub proof fn lemma_move_right_walk(m: Machine, k: nat)
    requires
        wf_machine(m),
        m.pc + k <= m.prog.len(),
        forall|i: int| m.pc <= i < m.pc + k ==> m.prog[i] == CatInstruction::MoveRight,
    ensures
        run_model(m, k).pc == m.pc + k,
        run_model(m, k).pointer == (m.pointer + k) % (m.tape.len() as int),
        run_model(m, k).tape == m.tape,
        run_model(m, k).prog == m.prog,
    decreases k,
{
    let n = m.tape.len() as int;
    if k == 0 {
        lemma_small_mod(m.pointer as nat, m.tape.len());
    } else {
        lemma_move_right_walk(m, (k - 1) as nat);
        let prev = run_model(m, (k - 1) as nat);
        assert(m.prog[prev.pc] == CatInstruction::MoveRight);
        let q = (m.pointer + (k - 1)) % n;
        lemma_mod_bound(m.pointer + (k - 1), n);
        if n == 1 {
            assert((q + 1) % n == (m.pointer + k) % n);
        } else {
            lemma_small_mod(1nat, m.tape.len());
            lemma_add_mod_noop(m.pointer + (k - 1), 1, n);
        }
    }
}

/// Full circle: from any start, exactly tape-length MoveRight steps return
/// the pointer to where it began, and no smaller positive count does.
pub proof fn lemma_move_right_full_circle(m: Machine)
    requires
        wf_machine(m),
        m.pc + m.tape.len() <= m.prog.len(),
        forall|i: int| m.pc <= i < m.pc + m.tape.len() ==> m.prog[i] == CatInstruction::MoveRight,
    ensures
        run_model(m, m.tape.len()).pointer == m.pointer,
        forall|k: nat|
            0 < k < m.tape.len() ==> #[trigger] run_model(m, k).pointer != m.pointer,
{
    let n = m.tape.len() as int;
    let p = m.pointer;
    lemma_move_right_walk(m, m.tape.len());
    lemma_mod_multiples_vanish(1, p, n);
    lemma_small_mod(p as nat, m.tape.len());
    assert forall|k: nat| 0 < k < m.tape.len() implies #[trigger] run_model(m, k).pointer
        != m.pointer by {
        lemma_move_right_walk(m, k);
        if p + k < n {
            lemma_small_mod((p + k) as nat, m.tape.len());
        } else {
            lemma_mod_multiples_vanish(1, p + k - n, n);
            lemma_small_mod((p + k - n) as nat, m.tape.len());
        }
    }
}

/// MoveLeft wraps: from cell zero the pointer lands on the last cell.
pub proof fn lemma_move_left_wraps(m: Machine, input: Option<u8>)
    requires
        wf_machine(m),
        m.pc < m.prog.len(),
        m.prog[m.pc] == CatInstruction::MoveLeft,
        m.pointer == 0,
    ensures
        step_model(m, input).0.pointer == m.tape.len() - 1,
        step_model(m, input).1 == Ok::<Option<char>, CatError>(None),
{
}

/// Taking one away undoes adding one to a cell, and the other way round.
pub proof fn lemma_cell_inc_dec_inverse(b: u8)
    ensures
        cell_dec(cell_inc(b)) == b,
        cell_inc(cell_dec(b)) == b,
{
}

/// A block of Increment instructions raises the current cell by its count,
/// modulo 256, and changes nothing else.
pub proof fn lemma_increment_walk(m: Machine, k: nat)
    requires
        wf_machine(m),
        m.pc + k <= m.prog.len(),
        forall|i: int| m.pc <= i < m.pc + k ==> m.prog[i] == CatInstruction::Increment,
    ensures
        run_model(m, k).pc == m.pc + k,
        run_model(m, k).pointer == m.pointer,
        run_model(m, k).prog == m.prog,
        run_model(m, k).tape == m.tape.update(
            m.pointer,
            ((m.tape[m.pointer] + k) % 256) as u8,
        ),
    decreases k,
{
    let c = m.tape[m.pointer] as int;
    if k == 0 {
        assert(m.tape.update(m.pointer, ((c + 0) % 256) as u8) =~= m.tape);
    } else {
        lemma_increment_walk(m, (k - 1) as nat);
        let prev = run_model(m, (k - 1) as nat);
        assert(m.prog[prev.pc] == CatInstruction::Increment);
        lemma_mod_bound(c + (k - 1), 256);
        lemma_add_mod_noop(c + (k - 1), 1, 256);
        assert(prev.tape.update(m.pointer, ((c + k) % 256) as u8) =~= m.tape.update(
            m.pointer,
            ((c + k) % 256) as u8,
        ));
    }
}

/// Incrementing a cell 256 times returns it to its original value.
pub proof fn lemma_increment_full_cycle(m: Machine)
    requires
        wf_machine(m),
        m.pc + 256 <= m.prog.len(),
        forall|i: int| m.pc <= i < m.pc + 256 ==> m.prog[i] == CatInstruction::Increment,
    ensures
        run_model(m, 256).pc == m.pc + 256,
        run_model(m, 256).tape == m.tape,
{
    let c = m.tape[m.pointer] as int;
    lemma_increment_walk(m, 256);
    lemma_mod_multiples_vanish(1, c, 256);
    lemma_small_mod(c as nat, 256);
    assert(m.tape.update(m.pointer, ((c + 256) % 256) as u8) =~= m.tape);
}

/// Decrement wraps: taking one from a zero cell yields 255.
pub proof fn lemma_decrement_wraps(m: Machine, input: Option<u8>)
    requires
        wf_machine(m),
        m.pc < m.prog.len(),
        m.prog[m.pc] == CatInstruction::Decrement,
        m.tape[m.pointer] == 0,
    ensures
        step_model(m, input).0.tape[m.pointer] == 255,
        step_model(m, input).1 == Ok::<Option<char>, CatError>(None),
{
}

/// The countdown program: add one, then a bracketed loop that takes one away
/// until the cell is zero.
pub open spec fn countdown_program() -> Seq<CatInstruction> {
    seq![
        CatInstruction::Increment,
        CatInstruction::JumpForward,
        CatInstruction::Decrement,
        CatInstruction::JumpBack,
    ]
}

/// How many steps the countdown program takes from a nonzero seed.
pub open spec fn countdown_steps(seed: u8) -> nat {
    if seed == 255 {
        2
    } else {
        (2 * seed + 4) as nat
    }
}

/// The countdown program's loop: entered at the Decrement with a nonzero
/// cell, it runs the cell down to zero, two steps per unit, and leaves the
/// program counter one past the end.
proof fn lemma_countdown_loop(m: Machine, v: u8)
    requires
        wf_machine(m),
        m.prog == countdown_program(),
        m.pc == 2,
        m.tape[m.pointer] == v,
        v >= 1,
    ensures
        run_model(m, (2 * v) as nat).pc == 4,
        run_model(m, (2 * v) as nat).tape[m.pointer] == 0,
    decreases v,
{
    let m1 = step_model(m, None).0;
    let m2 = step_model(m1, None).0;
    assert(cell_dec(v) == v - 1);
    assert(m1.tape[m.pointer] == v - 1);
    assert(m1.pc == 3);
    assert(run_model(m, 0) == m);
    assert(run_model(m, 1) == m1);
    assert(run_model(m, 2) == m2);
    if v == 1 {
        assert(m2.pc == 4);
    } else {
        assert(find_forward(m.prog, 2, 0) == find_forward(m.prog, 1, 0));
        assert(find_forward(m.prog, 1, 0) == Some(1int));
        assert(m2.pc == 2);
        assert(wf_machine(m2));
        lemma_countdown_loop(m2, (v - 1) as u8);
        lemma_run_model_add(m, 2, (2 * (v - 1)) as nat);
        assert(run_model(m2, (2 * (v - 1)) as nat) == run_model(m, (2 * v) as nat));
    }
}

/// The countdown program, started anywhere on a nonzero cell, runs to
/// completion: after exactly [`countdown_steps`] of its seed, the program
/// counter sits one past the end and the cell is zero.
pub proof fn lemma_countdown_program_runs_dry(m: Machine)
    requires
        wf_machine(m),
        m.prog == countdown_program(),
        m.pc == 0,
        m.tape[m.pointer] != 0,
    ensures
        run_model(m, countdown_steps(m.tape[m.pointer])).pc == m.prog.len(),
        run_model(m, countdown_steps(m.tape[m.pointer])).tape[m.pointer] == 0,
{
    let seed = m.tape[m.pointer];
    let m1 = step_model(m, None).0;
    let m2 = step_model(m1, None).0;
    assert(m1.pc == 1);
    assert(m1.tape[m.pointer] == cell_inc(seed));
    assert(run_model(m, 0) == m);
    assert(run_model(m, 1) == m1);
    assert(run_model(m, 2) == m2);
    if seed == 255 {
        assert(cell_inc(seed) == 0);
        assert(find_back(m.prog, 2, 0) == find_back(m.prog, 3, 0));
        assert(find_back(m.prog, 3, 0) == Some(3int));
        assert(m2.pc == 4);
        assert(m2.tape[m.pointer] == 0);
    } else {
        assert(cell_inc(seed) == seed + 1);
        assert(m2.pc == 2);
        assert(wf_machine(m2));
        lemma_countdown_loop(m2, (seed + 1) as u8);
        lemma_run_model_add(m, 2, (2 * (seed + 1)) as nat);
        assert(run_model(m2, (2 * (seed + 1)) as nat) == run_model(
            m,
            countdown_steps(seed),
        ));
    }
}

/// A scan that has only the program's end ahead of it, with no JumpBack
/// anywhere on the way, finds no match.
pub proof fn lemma_scan_without_jump_back(prog: Seq<CatInstruction>, j: int, depth: int)
    requires
        forall|i: int| j <= i < prog.len() ==> #[trigger] prog[i] != CatInstruction::JumpBack,
    ensures
        find_back(prog, j, depth) is None,
    decreases prog.len() - j,
{
    if 0 <= j < prog.len() {
        lemma_scan_without_jump_back(prog, j + 1, depth + 1);
        lemma_scan_without_jump_back(prog, j + 1, depth);
    }
}

/// A JumpForward on a zero cell with no matching JumpBack ahead fails with
/// the unmatched-forward-jump signal and leaves the machine exactly as it
/// was.
pub proof fn lemma_unmatched_jump_forward(m: Machine, input: Option<u8>)
    requires
        wf_machine(m),
        m.pc < m.prog.len(),
        m.prog[m.pc] == CatInstruction::JumpForward,
        m.tape[m.pointer] == 0,
        find_back(m.prog, m.pc + 1, 0) is None,
    ensures
        step_model(m, input) == (m, Err::<Option<char>, CatError>(CatError::UnmatchedJumpForward)),
{
}

/// Stepping a finished program fails with the already-done signal and
/// changes nothing.
pub proof fn lemma_step_when_done(m: Machine, input: Option<u8>)
    requires
        m.pc >= m.prog.len(),
    ensures
        step_model(m, input) == (m, Err::<Option<char>, CatError>(CatError::ProgramDone)),
{
}

} // verus!
