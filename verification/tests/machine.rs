use stackasm::compiler::Compiler;
use stackasm::vm::{run_program, Opcode, Program, Vm, VmFault};

#[test]
fn push_push_add() {
    let p = Program {
        opcodes: vec![
            Opcode::PushConstant(4),
            Opcode::PushConstant(3),
            Opcode::Add,
        ],
    };
    assert_eq!(run_program(p, 100), Some(Ok(vec![7i16])));
}

#[test]
fn push_push_multiply() {
    let p = Program {
        opcodes: vec![
            Opcode::PushConstant(3),
            Opcode::PushConstant(4),
            Opcode::Multiply,
        ],
    };
    assert_eq!(run_program(p, 100), Some(Ok(vec![12i16])));
}

#[test]
fn drop_on_empty_stack_underflows() {
    let p = Program {
        opcodes: vec![Opcode::Drop],
    };
    assert_eq!(
        run_program(p, 100),
        Some(Err(VmFault::StackUnderflow(Opcode::Drop, vec![])))
    );
}

#[test]
fn add_alone_compiles_and_underflows() {
    let mut c = Compiler::new("add");
    let p = c.compile().unwrap();
    assert_eq!(p.opcodes, vec![Opcode::Add]);
    assert_eq!(
        run_program(p, 100),
        Some(Err(VmFault::StackUnderflow(Opcode::Add, vec![])))
    );
}

#[test]
fn subtract_takes_top_minus_second() {
    // Stack [5, 3] with 3 on top: Subtract pops 3 then 5 and pushes 3 - 5.
    let p = Program {
        opcodes: vec![
            Opcode::PushConstant(5),
            Opcode::PushConstant(3),
            Opcode::Subtract,
        ],
    };
    assert_eq!(run_program(p, 100), Some(Ok(vec![-2i16])));
}

#[test]
fn add_wraps_on_overflow() {
    let p = Program {
        opcodes: vec![
            Opcode::PushConstant(32767),
            Opcode::PushConstant(1),
            Opcode::Add,
        ],
    };
    assert_eq!(run_program(p, 100), Some(Ok(vec![-32768i16])));
}

#[test]
fn multiply_wraps_on_overflow() {
    let p = Program {
        opcodes: vec![
            Opcode::PushConstant(256),
            Opcode::PushConstant(256),
            Opcode::Multiply,
        ],
    };
    assert_eq!(run_program(p, 100), Some(Ok(vec![0i16])));
}

#[test]
fn swap_reverses_top_two() {
    let p = Program {
        opcodes: vec![
            Opcode::PushConstant(1),
            Opcode::PushConstant(2),
            Opcode::PushConstant(3),
            Opcode::Swap,
        ],
    };
    assert_eq!(run_program(p, 100), Some(Ok(vec![1i16, 3i16, 2i16])));
}

#[test]
fn swap_underflows_on_one_value() {
    let p = Program {
        opcodes: vec![Opcode::PushConstant(9), Opcode::Swap],
    };
    assert_eq!(
        run_program(p, 100),
        Some(Err(VmFault::StackUnderflow(Opcode::Swap, vec![9])))
    );
}

#[test]
fn dup_copies_at_depth() {
    // Dup(1) copies the value one below the top.
    let p = Program {
        opcodes: vec![
            Opcode::PushConstant(1),
            Opcode::PushConstant(2),
            Opcode::Dup(1),
        ],
    };
    assert_eq!(run_program(p, 100), Some(Ok(vec![1i16, 2i16, 1i16])));
}

#[test]
fn dup_drop_leaves_stack_unchanged() {
    let p = Program {
        opcodes: vec![
            Opcode::PushConstant(8),
            Opcode::PushConstant(5),
            Opcode::Dup(0),
            Opcode::Drop,
        ],
    };
    assert_eq!(run_program(p, 100), Some(Ok(vec![8i16, 5i16])));
}

#[test]
fn dup_beyond_depth_underflows() {
    let p = Program {
        opcodes: vec![Opcode::PushConstant(1), Opcode::Dup(1)],
    };
    assert_eq!(
        run_program(p, 100),
        Some(Err(VmFault::StackUnderflow(Opcode::Dup(1), vec![1])))
    );
}

#[test]
fn halt_stops_execution() {
    let p = Program {
        opcodes: vec![
            Opcode::PushConstant(1),
            Opcode::Halt,
            Opcode::PushConstant(2),
        ],
    };
    assert_eq!(run_program(p, 100), Some(Ok(vec![1i16])));
}

#[test]
fn branch_on_zero_falls_through() {
    let p = Program {
        opcodes: vec![
            Opcode::PushConstant(0),
            Opcode::BranchIfNotZero(0),
            Opcode::PushConstant(4),
        ],
    };
    assert_eq!(run_program(p, 100), Some(Ok(vec![4i16])));
}

#[test]
fn branch_out_of_range_faults_when_taken() {
    let p = Program {
        opcodes: vec![Opcode::PushConstant(1), Opcode::BranchIfNotZero(5)],
    };
    assert_eq!(
        run_program(p, 100),
        Some(Err(VmFault::InvalidBranchTarget(5)))
    );
}

#[test]
fn branch_to_program_end_faults_when_taken() {
    // A resolved address equal to the program length is out of range the
    // moment the branch is taken.
    let mut c = Compiler::new("push 1 bnz end end:");
    let p = c.compile().unwrap();
    assert_eq!(
        p.opcodes,
        vec![Opcode::PushConstant(1), Opcode::BranchIfNotZero(2)]
    );
    assert_eq!(
        run_program(p, 100),
        Some(Err(VmFault::InvalidBranchTarget(2)))
    );
}

#[test]
fn countdown_loop_runs_counter_times() {
    // label: decrement; duplicate; branch back while non-zero.  Three
    // passes of the labeled region leave a lone zero.
    let mut c = Compiler::new("push 3 loop: push 1 swp sub dup 0 bnz loop");
    let p = c.compile().unwrap();
    assert_eq!(
        p.opcodes,
        vec![
            Opcode::PushConstant(3),
            Opcode::PushConstant(1),
            Opcode::Swap,
            Opcode::Subtract,
            Opcode::Dup(0),
            Opcode::BranchIfNotZero(1),
        ]
    );
    // Exactly 2 + 5 * 3 steps: one too few leaves it running.
    assert_eq!(run_program(p, 17), Some(Ok(vec![0i16])));
    let q = Program {
        opcodes: vec![
            Opcode::PushConstant(3),
            Opcode::PushConstant(1),
            Opcode::Swap,
            Opcode::Subtract,
            Opcode::Dup(0),
            Opcode::BranchIfNotZero(1),
        ],
    };
    assert_eq!(run_program(q, 16), None);
}

#[test]
fn loop_iterations_accumulate() {
    // An accumulator below the counter grows by one per pass: it counts
    // the re-executions of the labeled region.
    let p = Program {
        opcodes: vec![
            Opcode::PushConstant(0),
            Opcode::PushConstant(3),
            // loop body at address 2:
            Opcode::Swap,
            Opcode::PushConstant(1),
            Opcode::Add,
            Opcode::Swap,
            Opcode::PushConstant(1),
            Opcode::Swap,
            Opcode::Subtract,
            Opcode::Dup(0),
            Opcode::BranchIfNotZero(2),
        ],
    };
    assert_eq!(run_program(p, 1000), Some(Ok(vec![3i16, 0i16])));
}

#[test]
fn endless_loop_exhausts_step_budget() {
    let p = Program {
        opcodes: vec![
            Opcode::PushConstant(1),
            Opcode::Dup(0),
            Opcode::BranchIfNotZero(1),
        ],
    };
    assert_eq!(run_program(p, 50), None);
}

#[test]
fn single_steps_match_whole_run() {
    let p = Program {
        opcodes: vec![
            Opcode::PushConstant(4),
            Opcode::PushConstant(3),
            Opcode::Add,
        ],
    };
    let mut vm = Vm::new();
    let mut steps = 0u32;
    loop {
        match vm.step(&p) {
            Ok(true) => steps += 1,
            Ok(false) => break,
            Err(f) => panic!("unexpected fault: {:?}", f),
        }
    }
    assert_eq!(steps, 3);
    assert_eq!(vm.stack, vec![7i16]);
    assert_eq!(vm.pc, 3);
}
