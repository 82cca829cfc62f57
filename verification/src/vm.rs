//! The virtual machine: a resolved program executed against an operand stack.
//!
//! `spec_step` is the small-step semantics of the instruction set: from a
//! program, a stack and a program counter it yields the next machine state,
//! normal termination, or a fault.  `spec_run` iterates it.  The executable
//! machine is proved to follow `spec_step` exactly.

use vstd::prelude::*;
use vstd::wrapping::i16_specs;

verus! {

/// A fully resolved opcode: every branch target is a numeric address.
#[derive(Debug, Clone, Copy, PartialEq, Eq, Structural)]
pub enum Opcode {
    PushConstant(i16),
    Drop,
    Dup(u16),
    Swap,
    Add,
    Subtract,
    Multiply,
    BranchIfNotZero(u16),
    Halt,
}

/// The resolved opcode sequence; addresses are dense zero-based indices.
#[derive(Debug, PartialEq)]
pub struct Program {
    pub opcodes: Vec<Opcode>,
}

impl View for Program {
    type V = Seq<Opcode>;

    open spec fn view(&self) -> Seq<Opcode> {
        self.opcodes@
    }
}

/// A terminal runtime error.  A stack underflow carries the opcode that
/// faulted and the stack as it stood when the opcode began.
#[derive(Debug, PartialEq)]
pub enum VmFault {
    StackUnderflow(Opcode, Vec<i16>),
    InvalidBranchTarget(u16),
}

/// The mathematical value of a fault.
pub ghost enum SpecVmFault {
    StackUnderflow(Opcode, Seq<i16>),
    InvalidBranchTarget(u16),
}

impl View for VmFault {
    type V = SpecVmFault;

    open spec fn view(&self) -> SpecVmFault {
        match self {
            VmFault::StackUnderflow(op, stack) => SpecVmFault::StackUnderflow(*op, stack@),
            VmFault::InvalidBranchTarget(t) => SpecVmFault::InvalidBranchTarget(*t),
        }
    }
}

/// The outcome of one step: a next machine state, normal termination with
/// the final stack, or a fault.
pub ghost enum SpecStep {
    Continue(Seq<i16>, int),
    Done(Seq<i16>),
    Fault(SpecVmFault),
}

/// One fetch-decode-execute step.  The program counter is incremented before
/// the opcode executes, so a taken branch sets it to an absolute address.
///
/// Arithmetic pops `op1` then `op2` and pushes the result in wrapping 16-bit
/// signed semantics; `Subtract` pushes `op1 - op2`, the first-popped value
/// (the top of the stack) minus the second.
pub open spec fn spec_step(prog: Seq<Opcode>, stack: Seq<i16>, pc: int) -> SpecStep {
    if !(0 <= pc < prog.len()) {
        SpecStep::Done(stack)
    } else {
        let op = prog[pc];
        match op {
            Opcode::PushConstant(v) => SpecStep::Continue(stack.push(v), pc + 1),
            Opcode::Drop => {
                if stack.len() >= 1 {
                    SpecStep::Continue(stack.drop_last(), pc + 1)
                } else {
                    SpecStep::Fault(SpecVmFault::StackUnderflow(op, stack))
                }
            },
            Opcode::Dup(k) => {
                if (k as int) < stack.len() {
                    SpecStep::Continue(stack.push(stack[stack.len() - 1 - k as int]), pc + 1)
                } else {
                    SpecStep::Fault(SpecVmFault::StackUnderflow(op, stack))
                }
            },
            Opcode::Swap => {
                if stack.len() >= 2 {
                    SpecStep::Continue(
                        stack.take(stack.len() - 2).push(stack.last()).push(
                            stack[stack.len() - 2],
                        ),
                        pc + 1,
                    )
                } else {
                    SpecStep::Fault(SpecVmFault::StackUnderflow(op, stack))
                }
            },
            Opcode::Add => {
                if stack.len() >= 2 {
                    SpecStep::Continue(
                        stack.take(stack.len() - 2).push(
                            i16_specs::wrapping_add(stack.last(), stack[stack.len() - 2]),
                        ),
                        pc + 1,
                    )
                } else {
                    SpecStep::Fault(SpecVmFault::StackUnderflow(op, stack))
                }
            },
            Opcode::Subtract => {
                if stack.len() >= 2 {
                    SpecStep::Continue(
                        stack.take(stack.len() - 2).push(
                            i16_specs::wrapping_sub(stack.last(), stack[stack.len() - 2]),
                        ),
                        pc + 1,
                    )
                } else {
                    SpecStep::Fault(SpecVmFault::StackUnderflow(op, stack))
                }
            },
            Opcode::Multiply => {
                if stack.len() >= 2 {
                    SpecStep::Continue(
                        stack.take(stack.len() - 2).push(
                            i16_specs::wrapping_mul(stack.last(), stack[stack.len() - 2]),
                        ),
                        pc + 1,
                    )
                } else {
                    SpecStep::Fault(SpecVmFault::StackUnderflow(op, stack))
                }
            },
            Opcode::BranchIfNotZero(t) => {
                if stack.len() >= 1 {
                    if stack.last() != 0 {
                        if (t as int) < prog.len() {
                            SpecStep::Continue(stack.drop_last(), t as int)
                        } else {
                            SpecStep::Fault(SpecVmFault::InvalidBranchTarget(t))
                        }
                    } else {
                        SpecStep::Continue(stack.drop_last(), pc + 1)
                    }
                } else {
                    SpecStep::Fault(SpecVmFault::StackUnderflow(op, stack))
                }
            },
            Opcode::Halt => SpecStep::Done(stack),
        }
    }
}

/// The machine state after `n` steps from `stack`/`pc`; termination and
/// faults are absorbing.
pub open spec fn spec_run(prog: Seq<Opcode>, stack: Seq<i16>, pc: int, n: nat) -> SpecStep
    decreases n,
{
    if n == 0 {
        SpecStep::Continue(stack, pc)
    } else {
        match spec_step(prog, stack, pc) {
            SpecStep::Continue(stack1, pc1) => spec_run(prog, stack1, pc1, (n - 1) as nat),
            other => other,
        }
    }
}

/// Running one step longer means stepping once from wherever `n` steps lead.
pub proof fn lemma_spec_run_step(prog: Seq<Opcode>, stack: Seq<i16>, pc: int, n: nat)
    ensures
        spec_run(prog, stack, pc, n + 1) == match spec_run(prog, stack, pc, n) {
            SpecStep::Continue(stack1, pc1) => spec_step(prog, stack1, pc1),
            other => other,
        },
    decreases n,
{
    reveal_with_fuel(spec_run, 2);
    if n > 0 {
        match spec_step(prog, stack, pc) {
            SpecStep::Continue(stack1, pc1) => {
                lemma_spec_run_step(prog, stack1, pc1, (n - 1) as nat);
            },
            _ => {},
        }
    }
}

/// Once the machine has terminated or faulted, more steps change nothing.
pub proof fn lemma_spec_run_absorbing(prog: Seq<Opcode>, stack: Seq<i16>, pc: int, n: nat, m: nat)
    requires
        n <= m,
        !(spec_run(prog, stack, pc, n) is Continue),
    ensures
        spec_run(prog, stack, pc, m) == spec_run(prog, stack, pc, n),
    decreases n,
{
    if n > 0 {
        match spec_step(prog, stack, pc) {
            SpecStep::Continue(stack1, pc1) => {
                lemma_spec_run_absorbing(prog, stack1, pc1, (n - 1) as nat, (m - 1) as nat);
            },
            _ => {},
        }
    }
}

/// Running `n + m` steps is running `n`, then `m` from wherever they lead.
pub proof fn lemma_spec_run_add(prog: Seq<Opcode>, stack: Seq<i16>, pc: int, n: nat, m: nat)
    ensures
        spec_run(prog, stack, pc, n + m) == match spec_run(prog, stack, pc, n) {
            SpecStep::Continue(stack1, pc1) => spec_run(prog, stack1, pc1, m),
            other => other,
        },
    decreases n,
{
    reveal_with_fuel(spec_run, 2);
    if n > 0 {
        match spec_step(prog, stack, pc) {
            SpecStep::Continue(stack1, pc1) => {
                lemma_spec_run_add(prog, stack1, pc1, (n - 1) as nat, m);
            },
            _ => {},
        }
    }
}

/// The canonical counting loop: push a counter, then a labeled region that
/// decrements it, duplicates it, and branches back to the label while it is
/// not zero.
pub open spec fn countdown_program(n: i16) -> Seq<Opcode> {
    seq![
        Opcode::PushConstant(n),
        Opcode::PushConstant(1i16),
        Opcode::Swap,
        Opcode::Subtract,
        Opcode::Dup(0u16),
        Opcode::BranchIfNotZero(1u16),
    ]
}

/// One pass through the labeled region of `countdown_program`: five steps
/// from its label with counter `c` on the stack decrement the counter and
/// branch back, or fall through when the counter reaches zero.
proof fn lemma_countdown_iteration(n: i16, c: i16)
    requires
        1 <= c,
    ensures
        spec_run(countdown_program(n), seq![c], 1, 5) == SpecStep::Continue(
            seq![(c - 1) as i16],
            if c == 1 {
                6int
            } else {
                1int
            },
        ),
{
    reveal_with_fuel(spec_run, 6);
    let prog = countdown_program(n);
    let d = (c - 1) as i16;
    let s0 = seq![c];
    let t1 = seq![c, 1i16];
    let t2 = seq![1i16, c];
    let t3 = seq![d];
    let t4 = seq![d, d];
    assert(s0.push(1i16) =~= t1);
    assert(spec_step(prog, s0, 1) == SpecStep::Continue(t1, 2));
    assert(t1.take(0).push(t1.last()).push(t1[0]) =~= t2);
    assert(spec_step(prog, t1, 2) == SpecStep::Continue(t2, 3));
    assert(i16_specs::wrapping_sub(t2.last(), t2[0]) == d);
    assert(t2.take(0).push(d) =~= t3);
    assert(spec_step(prog, t2, 3) == SpecStep::Continue(t3, 4));
    assert(t3.push(t3[0]) =~= t4);
    assert(spec_step(prog, t3, 4) == SpecStep::Continue(t4, 5));
    assert(t4.drop_last() =~= t3);
    if c == 1 {
        assert(spec_step(prog, t4, 5) == SpecStep::Continue(t3, 6));
    } else {
        assert(spec_step(prog, t4, 5) == SpecStep::Continue(t3, 1));
    }
}

/// The machine state as it enters the labeled region for the `k`-th time:
/// the counter stands at `n - k`.
proof fn lemma_countdown_entry(n: i16, k: int)
    requires
        1 <= n,
        0 <= k < n,
    ensures
        spec_run(countdown_program(n), Seq::<i16>::empty(), 0, (1 + 5 * k) as nat)
            == SpecStep::Continue(seq![(n - k) as i16], 1),
    decreases k,
{
    let prog = countdown_program(n);
    if k == 0 {
        reveal_with_fuel(spec_run, 2);
        assert(Seq::<i16>::empty().push(n) =~= seq![n]);
        assert(spec_step(prog, Seq::<i16>::empty(), 0) == SpecStep::Continue(seq![n], 1));
    } else {
        lemma_countdown_entry(n, k - 1);
        let c = (n - k + 1) as i16;
        lemma_countdown_iteration(n, c);
        lemma_spec_run_add(prog, Seq::<i16>::empty(), 0, (1 + 5 * (k - 1)) as nat, 5);
        assert((1 + 5 * (k - 1)) as nat + 5nat == (1 + 5 * k) as nat);
    }
}

/// A loop `label: ... ; BranchIfNotZero(label)` over a monotonically
/// decreasing counter re-executes the labeled region exactly as many times
/// as the branch condition holds: started with counter `n`, the canonical
/// countdown program enters the region exactly `n` times — on the `k`-th
/// entry the counter stands at `n - k` — and terminates in bounded steps,
/// `2 + 5n` in all, with the counter run down to zero.
pub proof fn lemma_loop_reexecutes_counter_times(n: i16)
    requires
        1 <= n,
    ensures
        forall|k: int|
            0 <= k < n ==> spec_run(
                countdown_program(n),
                Seq::<i16>::empty(),
                0,
                #[trigger] ((1 + 5 * k) as nat),
            ) == SpecStep::Continue(seq![(n - k) as i16], 1),
        spec_run(countdown_program(n), Seq::<i16>::empty(), 0, (2 + 5 * (n as int)) as nat)
            == SpecStep::Done(seq![0i16]),
{
    let prog = countdown_program(n);
    assert forall|k: int| 0 <= k < n implies spec_run(
        prog,
        Seq::<i16>::empty(),
        0,
        #[trigger] ((1 + 5 * k) as nat),
    ) == SpecStep::Continue(seq![(n - k) as i16], 1) by {
        lemma_countdown_entry(n, k);
    }
    lemma_countdown_entry(n, n - 1);
    lemma_countdown_iteration(n, 1i16);
    lemma_spec_run_add(prog, Seq::<i16>::empty(), 0, (1 + 5 * (n - 1)) as nat, 5);
    assert(spec_run(prog, Seq::<i16>::empty(), 0, (6 + 5 * (n - 1)) as nat)
        == SpecStep::Continue(seq![0i16], 6));
    lemma_spec_run_add(prog, Seq::<i16>::empty(), 0, (6 + 5 * (n - 1)) as nat, 1);
    reveal_with_fuel(spec_run, 2);
    assert((6 + 5 * (n - 1)) as nat + 1nat == (2 + 5 * (n as int)) as nat);
}

/// `Dup(0)` followed by `Drop` leaves the stack exactly as it was and moves
/// the program counter past the pair: duplicating the top of a non-empty
/// stack and then dropping the copy is the identity on the stack.
pub proof fn lemma_dup_then_drop(prog: Seq<Opcode>, stack: Seq<i16>, pc: int)
    requires
        0 <= pc,
        pc + 1 < prog.len(),
        prog[pc] == Opcode::Dup(0u16),
        prog[pc + 1] == Opcode::Drop,
        stack.len() >= 1,
    ensures
        spec_run(prog, stack, pc, 2) == SpecStep::Continue(stack, pc + 2),
{
    reveal_with_fuel(spec_run, 3);
    let dup = stack.push(stack.last());
    assert(spec_step(prog, stack, pc) == SpecStep::Continue(dup, pc + 1));
    assert(dup.drop_last() =~= stack);
    assert(spec_step(prog, dup, pc + 1) == SpecStep::Continue(stack, pc + 2));
}

/// The machine itself: one growable operand stack and a program counter.
#[derive(Debug)]
pub struct Vm {
    pub stack: Vec<i16>,
    pub pc: usize,
}

/// A copy of the operand stack, taken for a fault report.
fn copy_stack(stack: &Vec<i16>) -> (r: Vec<i16>)
    ensures
        r@ == stack@,
{
    let mut r: Vec<i16> = Vec::new();
    let mut i: usize = 0;
    while i < stack.len()
        invariant
            i <= stack@.len(),
            r@ == stack@.take(i as int),
        decreases stack@.len() - i,
    {
        r.push(stack[i]);
        i = i + 1;
        proof {
            assert(stack@.take(i as int).drop_last() =~= stack@.take(i - 1));
            assert(r@ =~= stack@.take(i as int));
        }
    }
    proof {
        assert(stack@.take(stack@.len() as int) =~= stack@);
    }
    r
}

impl Vm {
    /// A fresh machine: empty stack, program counter at the first opcode.
    pub fn new() -> (vm: Vm)
        ensures
            vm.stack@ == Seq::<i16>::empty(),
            vm.pc == 0,
    {
        Vm { stack: Vec::new(), pc: 0 }
    }

    /// Executes exactly one opcode.  Returns `Ok(true)` while execution
    /// continues, `Ok(false)` on normal termination or `Halt` (the program
    /// counter then rests at the program's length), and `Err` on a fault,
    /// with the machine left in the faulting state.
    pub fn step(&mut self, program: &Program) -> (r: Result<bool, VmFault>)
        ensures
            match spec_step(program@, old(self).stack@, old(self).pc as int) {
                SpecStep::Continue(stack1, pc1) => {
                    &&& r == Ok::<bool, VmFault>(true)
                    &&& final(self).stack@ == stack1
                    &&& final(self).pc as int == pc1
                },
                SpecStep::Done(stack1) => {
                    &&& r == Ok::<bool, VmFault>(false)
                    &&& final(self).stack@ == stack1
                    &&& final(self).pc == program@.len()
                },
                SpecStep::Fault(f) => {
                    &&& r matches Err(e) && e@ == f
                    &&& final(self).pc == old(self).pc + 1
                    &&& f matches SpecVmFault::StackUnderflow(_, s) ==> final(self).stack@ == s
                    &&& f matches SpecVmFault::InvalidBranchTarget(_)
                        ==> final(self).stack@ == old(self).stack@.drop_last()
                },
            },
    {
        let n = program.opcodes.len();
        if self.pc >= n {
            self.pc = n;
            return Ok(false);
        }
        let op = program.opcodes[self.pc];
        let ghost stack0 = self.stack@;
        self.pc = self.pc + 1;
        match op {
            Opcode::PushConstant(v) => {
                self.stack.push(v);
                Ok(true)
            },
            Opcode::Drop => {
                if self.stack.len() == 0 {
                    return Err(VmFault::StackUnderflow(op, copy_stack(&self.stack)));
                }
                self.stack.pop();
                Ok(true)
            },
            Opcode::Dup(k) => {
                if (k as usize) >= self.stack.len() {
                    return Err(VmFault::StackUnderflow(op, copy_stack(&self.stack)));
                }
                let v = self.stack[self.stack.len() - 1 - (k as usize)];
                self.stack.push(v);
                Ok(true)
            },
            Opcode::Swap => {
                if self.stack.len() < 2 {
                    return Err(VmFault::StackUnderflow(op, copy_stack(&self.stack)));
                }
                let op1 = self.stack.pop().unwrap();
                let op2 = self.stack.pop().unwrap();
                self.stack.push(op1);
                self.stack.push(op2);
                proof {
                    assert(self.stack@ =~= stack0.take(stack0.len() - 2).push(stack0.last()).push(
                        stack0[stack0.len() - 2],
                    ));
                }
                Ok(true)
            },
            Opcode::Add => {
                if self.stack.len() < 2 {
                    return Err(VmFault::StackUnderflow(op, copy_stack(&self.stack)));
                }
                let op1 = self.stack.pop().unwrap();
                let op2 = self.stack.pop().unwrap();
                self.stack.push(op1.wrapping_add(op2));
                proof {
                    assert(self.stack@ =~= stack0.take(stack0.len() - 2).push(
                        i16_specs::wrapping_add(stack0.last(), stack0[stack0.len() - 2]),
                    ));
                }
                Ok(true)
            },
            Opcode::Subtract => {
                if self.stack.len() < 2 {
                    return Err(VmFault::StackUnderflow(op, copy_stack(&self.stack)));
                }
                let op1 = self.stack.pop().unwrap();
                let op2 = self.stack.pop().unwrap();
                self.stack.push(op1.wrapping_sub(op2));
                proof {
                    assert(self.stack@ =~= stack0.take(stack0.len() - 2).push(
                        i16_specs::wrapping_sub(stack0.last(), stack0[stack0.len() - 2]),
                    ));
                }
                Ok(true)
            },
            Opcode::Multiply => {
                if self.stack.len() < 2 {
                    return Err(VmFault::StackUnderflow(op, copy_stack(&self.stack)));
                }
                let op1 = self.stack.pop().unwrap();
                let op2 = self.stack.pop().unwrap();
                self.stack.push(op1.wrapping_mul(op2));
                proof {
                    assert(self.stack@ =~= stack0.take(stack0.len() - 2).push(
                        i16_specs::wrapping_mul(stack0.last(), stack0[stack0.len() - 2]),
                    ));
                }
                Ok(true)
            },
            Opcode::BranchIfNotZero(t) => {
                if self.stack.len() == 0 {
                    return Err(VmFault::StackUnderflow(op, copy_stack(&self.stack)));
                }
                let v = self.stack.pop().unwrap();
                if v != 0 {
                    if (t as usize) < n {
                        self.pc = t as usize;
                        Ok(true)
                    } else {
                        Err(VmFault::InvalidBranchTarget(t))
                    }
                } else {
                    Ok(true)
                }
            },
            Opcode::Halt => {
                self.pc = n;
                Ok(false)
            },
        }
    }
}

/// Runs a program from an empty stack for at most `max_steps` opcodes.
/// Returns the final stack on normal termination, the fault on a fault, and
/// `None` when the program is still running after `max_steps` steps.
pub fn run_program(program: Program, max_steps: u64) -> (r: Option<Result<Vec<i16>, VmFault>>)
    ensures
        match spec_run(program@, Seq::<i16>::empty(), 0, max_steps as nat) {
            SpecStep::Continue(_, _) => r is None,
            SpecStep::Done(stack) => r matches Some(res) && (res matches Ok(v) && v@ == stack),
            SpecStep::Fault(f) => r matches Some(res) && (res matches Err(e) && e@ == f),
        },
{
    let mut vm = Vm::new();
    let mut taken: u64 = 0;
    while taken < max_steps
        invariant
            taken <= max_steps,
            spec_run(program@, Seq::<i16>::empty(), 0, taken as nat) == SpecStep::Continue(
                vm.stack@,
                vm.pc as int,
            ),
        decreases max_steps - taken,
    {
        let ghost n0 = taken as nat;
        match vm.step(&program) {
            Ok(true) => {
                proof {
                    lemma_spec_run_step(program@, Seq::<i16>::empty(), 0, n0);
                }
                taken = taken + 1;
            },
            Ok(false) => {
                proof {
                    lemma_spec_run_step(program@, Seq::<i16>::empty(), 0, n0);
                    lemma_spec_run_absorbing(
                        program@,
                        Seq::<i16>::empty(),
                        0,
                        n0 + 1,
                        max_steps as nat,
                    );
                }
                return Some(Ok(vm.stack));
            },
            Err(f) => {
                proof {
                    lemma_spec_run_step(program@, Seq::<i16>::empty(), 0, n0);
                    lemma_spec_run_absorbing(
                        program@,
                        Seq::<i16>::empty(),
                        0,
                        n0 + 1,
                        max_steps as nat,
                    );
                }
                return Some(Err(f));
            },
        }
    }
    None
}

} // verus!
