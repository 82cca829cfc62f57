//! The opcode model shared by the assembler and the virtual machine.
//!
//! `GenericOpcode` is the closed instruction set, parameterized by the
//! stack-value representation and the address representation.  A branch
//! target is a two-state `Reference`: textual while the assembler scans the
//! source, numeric once labels have been resolved.

use vstd::prelude::*;

verus! {

/// The stack-value representation: 16-bit signed, wrapping arithmetic.
pub type StackType = i16;

/// The address representation: unsigned 16-bit indices into the program.
pub type AddressType = u16;

/// A branch target: a label name before resolution, an address after.
#[derive(Debug, PartialEq)]
pub enum Reference<A> {
    Resolved(A),
    Unresolved(String),
}

/// The closed instruction set, over stack values `S` and addresses `A`.
#[derive(Debug, PartialEq)]
pub enum GenericOpcode<S, A> {
    PushConstant(S),
    Drop,
    Dup(A),
    Swap,
    Add,
    Subtract,
    Multiply,
    BranchIfNotZero(Reference<A>),
    Halt,
}

/// The opcode type the assembler emits before resolution.
pub type Opcode = GenericOpcode<StackType, AddressType>;

/// The mathematical value of a branch target.
pub ghost enum SpecReference {
    Resolved(u16),
    Unresolved(Seq<char>),
}

/// The mathematical value of an emitted opcode.
pub ghost enum SpecOpcode {
    PushConstant(i16),
    Drop,
    Dup(u16),
    Swap,
    Add,
    Subtract,
    Multiply,
    BranchIfNotZero(SpecReference),
    Halt,
}

impl View for Reference<AddressType> {
    type V = SpecReference;

    open spec fn view(&self) -> SpecReference {
        match self {
            Reference::Resolved(a) => SpecReference::Resolved(*a),
            Reference::Unresolved(name) => SpecReference::Unresolved(name@),
        }
    }
}

impl View for GenericOpcode<StackType, AddressType> {
    type V = SpecOpcode;

    open spec fn view(&self) -> SpecOpcode {
        match self {
            GenericOpcode::PushConstant(v) => SpecOpcode::PushConstant(*v),
            GenericOpcode::Drop => SpecOpcode::Drop,
            GenericOpcode::Dup(k) => SpecOpcode::Dup(*k),
            GenericOpcode::Swap => SpecOpcode::Swap,
            GenericOpcode::Add => SpecOpcode::Add,
            GenericOpcode::Subtract => SpecOpcode::Subtract,
            GenericOpcode::Multiply => SpecOpcode::Multiply,
            GenericOpcode::BranchIfNotZero(r) => SpecOpcode::BranchIfNotZero(r@),
            GenericOpcode::Halt => SpecOpcode::Halt,
        }
    }
}

/// The opcodes a sequence of emitted opcodes stands for.
pub open spec fn ops_view(v: Seq<Opcode>) -> Seq<SpecOpcode> {
    Seq::new(v.len(), |i: int| v[i]@)
}

pub proof fn lemma_ops_view_push(v: Seq<Opcode>, x: Opcode)
    ensures
        ops_view(v.push(x)) == ops_view(v).push(x@),
{
    assert(ops_view(v.push(x)) =~= ops_view(v).push(x@));
}

} // verus!
