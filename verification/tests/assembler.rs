use stackasm::compiler::{CompileError, Compiler};
use stackasm::vm::Opcode;

#[test]
fn no_arguments() {
    let mut c = Compiler::new("add");
    let p = c.compile().unwrap();
    assert_eq!(p.opcodes, vec![Opcode::Add]);
}

#[test]
fn with_argument() {
    let mut c = Compiler::new("push 99");
    let p = c.compile().unwrap();
    assert_eq!(p.opcodes, vec![Opcode::PushConstant(99i16)]);
}

#[test]
fn trailing_leading_ws() {
    let mut c = Compiler::new("\n\n push    \t 99  \n\n");
    let p = c.compile().unwrap();
    assert_eq!(p.opcodes, vec![Opcode::PushConstant(99i16)]);
}

#[test]
fn multiple_instructions() {
    let mut c = Compiler::new("  push 1\n  push 1\n  add");
    let p = c.compile().unwrap();
    assert_eq!(
        p.opcodes,
        vec![
            Opcode::PushConstant(1i16),
            Opcode::PushConstant(1i16),
            Opcode::Add
        ]
    );
}

#[test]
fn label_bnz() {
    let mut c = Compiler::new("loop: push 1\nbnz loop");
    let p = c.compile().unwrap();
    assert_eq!(
        p.opcodes,
        vec![Opcode::PushConstant(1i16), Opcode::BranchIfNotZero(0)]
    );
}

#[test]
fn empty_source() {
    let mut c = Compiler::new("");
    let p = c.compile().unwrap();
    assert_eq!(p.opcodes, vec![]);
}

#[test]
fn whitespace_only_source() {
    let mut c = Compiler::new(" \n\t \n");
    let p = c.compile().unwrap();
    assert_eq!(p.opcodes, vec![]);
}

#[test]
fn every_mnemonic() {
    let mut c = Compiler::new("push 7 drop dup 2 swp add sub mul halt");
    let p = c.compile().unwrap();
    assert_eq!(
        p.opcodes,
        vec![
            Opcode::PushConstant(7i16),
            Opcode::Drop,
            Opcode::Dup(2),
            Opcode::Swap,
            Opcode::Add,
            Opcode::Subtract,
            Opcode::Multiply,
            Opcode::Halt
        ]
    );
}

#[test]
fn label_addresses_count_output_positions() {
    // The label's address is its position in the output sequence, not in
    // the source text.
    let mut c = Compiler::new("push 0 push 0 here: add bnz here");
    let p = c.compile().unwrap();
    assert_eq!(
        p.opcodes,
        vec![
            Opcode::PushConstant(0i16),
            Opcode::PushConstant(0i16),
            Opcode::Add,
            Opcode::BranchIfNotZero(2)
        ]
    );
}

#[test]
fn forward_reference_resolves() {
    let mut c = Compiler::new("bnz skip add skip: halt");
    let p = c.compile().unwrap();
    assert_eq!(
        p.opcodes,
        vec![Opcode::BranchIfNotZero(2), Opcode::Add, Opcode::Halt]
    );
}

#[test]
fn unknown_instruction_fails() {
    let mut c = Compiler::new("foo");
    assert_eq!(
        c.compile(),
        Err(CompileError::UnknownInstruction("foo".to_string()))
    );
}

#[test]
fn stray_character_fails() {
    let mut c = Compiler::new("5");
    assert_eq!(
        c.compile(),
        Err(CompileError::UnknownInstruction("5".to_string()))
    );
}

#[test]
fn mnemonics_are_case_sensitive() {
    let mut c = Compiler::new("PUSH 1");
    assert_eq!(
        c.compile(),
        Err(CompileError::UnknownInstruction("PUSH".to_string()))
    );
}

#[test]
fn malformed_argument_fails() {
    let mut c = Compiler::new("push abc");
    assert_eq!(
        c.compile(),
        Err(CompileError::InvalidArgument(
            "push".to_string(),
            "abc".to_string()
        ))
    );
}

#[test]
fn missing_argument_fails() {
    let mut c = Compiler::new("push");
    assert_eq!(
        c.compile(),
        Err(CompileError::InvalidArgument(
            "push".to_string(),
            "".to_string()
        ))
    );
}

#[test]
fn out_of_range_push_constant_fails() {
    let mut c = Compiler::new("push 32768");
    assert_eq!(
        c.compile(),
        Err(CompileError::InvalidArgument(
            "push".to_string(),
            "32768".to_string()
        ))
    );
}

#[test]
fn largest_push_constant_compiles() {
    let mut c = Compiler::new("push 32767");
    let p = c.compile().unwrap();
    assert_eq!(p.opcodes, vec![Opcode::PushConstant(32767i16)]);
}

#[test]
fn largest_dup_offset_compiles() {
    let mut c = Compiler::new("dup 65535");
    let p = c.compile().unwrap();
    assert_eq!(p.opcodes, vec![Opcode::Dup(65535)]);
}

#[test]
fn out_of_range_dup_offset_fails() {
    let mut c = Compiler::new("dup 65536");
    assert_eq!(
        c.compile(),
        Err(CompileError::InvalidArgument(
            "dup".to_string(),
            "65536".to_string()
        ))
    );
}

#[test]
fn undefined_label_fails() {
    let mut c = Compiler::new("push 1 bnz nowhere");
    assert_eq!(
        c.compile(),
        Err(CompileError::UndefinedLabel("nowhere".to_string()))
    );
}

#[test]
fn duplicate_label_fails() {
    let mut c = Compiler::new("x: add x: add");
    assert_eq!(
        c.compile(),
        Err(CompileError::DuplicateLabel("x".to_string()))
    );
}

#[test]
fn mnemonic_fused_with_digit_fails() {
    // Identifiers are letters only: the digit cannot start a statement.
    let mut c = Compiler::new("add5");
    assert_eq!(
        c.compile(),
        Err(CompileError::UnknownInstruction("5".to_string()))
    );
}

#[test]
fn bnz_argument_may_mix_letters_and_digits() {
    // A branch argument reads letters and digits, but a declared label is
    // letters only, so this name can never be defined.
    let mut c = Compiler::new("bnz x9");
    assert_eq!(
        c.compile(),
        Err(CompileError::UndefinedLabel("x9".to_string()))
    );
}

#[test]
fn empty_label_name_is_a_label_like_any_other() {
    let mut c = Compiler::new(":");
    let p = c.compile().unwrap();
    assert_eq!(p.opcodes, vec![]);
    let mut c2 = Compiler::new("::");
    assert_eq!(
        c2.compile(),
        Err(CompileError::DuplicateLabel("".to_string()))
    );
}
