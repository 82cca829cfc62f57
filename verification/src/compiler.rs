//! The assembler: source text to a resolved program.
//!
//! Assembly runs in two stages.  A single forward scan turns the source into
//! a sequence of emitted opcodes and a label table; a final rewrite resolves
//! every textual branch target through the table.  `spec_scan_from`,
//! `spec_resolve` and `spec_assemble` are the specification of the two
//! stages; `Compiler::compile` is proved to return exactly what
//! `spec_assemble` says, for every source.
//!
//! The grammar: a statement is either a label declaration (an identifier of
//! ASCII letters followed by `:`) or an instruction (a mnemonic, with a
//! decimal argument for `push` and `dup` and a label argument for `bnz`).
//! Whitespace separates tokens and is otherwise insignificant.  Mnemonics
//! are matched case-sensitively.

use vstd::prelude::*;

use crate::opcode::{
    lemma_ops_view_push, ops_view, GenericOpcode, Opcode, Reference, SpecOpcode, SpecReference,
};
use crate::text::{class_matches, parse_digits, run_len, spec_parse_num, str_eq, CharClass};
use crate::vm;

verus! {

/// A compile-time error.  Each carries the offending token.
#[derive(Debug, PartialEq)]
pub enum CompileError {
    /// An identifier in mnemonic position that names no instruction, or a
    /// character that can start no statement.
    UnknownInstruction(String),
    /// A missing, malformed or out-of-range argument: the mnemonic and the
    /// raw argument text.
    InvalidArgument(String, String),
    /// A branch references a label that no declaration defines.
    UndefinedLabel(String),
    /// A label declared a second time.
    DuplicateLabel(String),
}

/// The mathematical value of a compile-time error.
pub ghost enum SpecCompileError {
    UnknownInstruction(Seq<char>),
    InvalidArgument(Seq<char>, Seq<char>),
    UndefinedLabel(Seq<char>),
    DuplicateLabel(Seq<char>),
}

impl View for CompileError {
    type V = SpecCompileError;

    open spec fn view(&self) -> SpecCompileError {
        match self {
            CompileError::UnknownInstruction(t) => SpecCompileError::UnknownInstruction(t@),
            CompileError::InvalidArgument(m, a) => SpecCompileError::InvalidArgument(m@, a@),
            CompileError::UndefinedLabel(n) => SpecCompileError::UndefinedLabel(n@),
            CompileError::DuplicateLabel(n) => SpecCompileError::DuplicateLabel(n@),
        }
    }
}

/// Whether a mnemonic requires an argument; `None` for an unknown mnemonic.
pub open spec fn spec_mnemonic_arity(tok: Seq<char>) -> Option<bool> {
    if tok == "push"@ || tok == "dup"@ || tok == "bnz"@ {
        Some(true)
    } else if tok == "drop"@ || tok == "swp"@ || tok == "add"@ || tok == "sub"@ || tok == "mul"@
        || tok == "halt"@ {
        Some(false)
    } else {
        None
    }
}

/// A `push` constant: a decimal literal within the non-negative range of the
/// 16-bit signed stack value.
pub open spec fn spec_parse_i16(t: Seq<char>) -> Option<i16> {
    match spec_parse_num(t, i16::MAX as int) {
        Some(v) => Some(v as i16),
        None => None,
    }
}

/// A `dup` offset: a decimal literal within the unsigned 16-bit range.
pub open spec fn spec_parse_u16(t: Seq<char>) -> Option<u16> {
    match spec_parse_num(t, u16::MAX as int) {
        Some(v) => Some(v as u16),
        None => None,
    }
}

/// The opcode a mnemonic and its argument text emit, or the error they
/// raise.  `arg` is `None` where the scan supplies no argument, which the
/// argument-taking mnemonics treat as the empty (missing) argument.
pub open spec fn spec_emit(tok: Seq<char>, arg: Option<Seq<char>>) -> Result<
    SpecOpcode,
    SpecCompileError,
> {
    let a = match arg {
        Some(x) => x,
        None => Seq::<char>::empty(),
    };
    if tok == "push"@ {
        match spec_parse_i16(a) {
            Some(v) => Ok(SpecOpcode::PushConstant(v)),
            None => Err(SpecCompileError::InvalidArgument(tok, a)),
        }
    } else if tok == "dup"@ {
        match spec_parse_u16(a) {
            Some(k) => Ok(SpecOpcode::Dup(k)),
            None => Err(SpecCompileError::InvalidArgument(tok, a)),
        }
    } else if tok == "bnz"@ {
        if a.len() > 0 {
            Ok(SpecOpcode::BranchIfNotZero(SpecReference::Unresolved(a)))
        } else {
            Err(SpecCompileError::InvalidArgument(tok, a))
        }
    } else if tok == "drop"@ {
        Ok(SpecOpcode::Drop)
    } else if tok == "swp"@ {
        Ok(SpecOpcode::Swap)
    } else if tok == "add"@ {
        Ok(SpecOpcode::Add)
    } else if tok == "sub"@ {
        Ok(SpecOpcode::Subtract)
    } else if tok == "mul"@ {
        Ok(SpecOpcode::Multiply)
    } else if tok == "halt"@ {
        Ok(SpecOpcode::Halt)
    } else {
        Err(SpecCompileError::UnknownInstruction(tok))
    }
}

/// The label table a sequence of (name, address) entries stands for.
pub open spec fn labels_map(l: Seq<(String, u16)>) -> Map<Seq<char>, u16>
    decreases l.len(),
{
    if l.len() == 0 {
        Map::<Seq<char>, u16>::empty()
    } else {
        labels_map(l.drop_last()).insert(l.last().0@, l.last().1)
    }
}

/// No label name occurs twice in the table.
pub open spec fn distinct_keys(l: Seq<(String, u16)>) -> bool {
    forall|i: int, j: int| 0 <= i < j < l.len() ==> (#[trigger] l[i]).0@ != (#[trigger] l[j]).0@
}

pub proof fn lemma_labels_map_membership(l: Seq<(String, u16)>, k: Seq<char>)
    ensures
        labels_map(l).contains_key(k) <==> exists|i: int|
            0 <= i < l.len() && (#[trigger] l[i]).0@ == k,
    decreases l.len(),
{
    if l.len() > 0 {
        lemma_labels_map_membership(l.drop_last(), k);
        if labels_map(l).contains_key(k) && l.last().0@ != k {
            let i = choose|i: int| 0 <= i < l.drop_last().len() && (#[trigger] l.drop_last()[i]).0@
                == k;
            assert(l[i].0@ == k);
        }
        if exists|i: int| 0 <= i < l.len() && (#[trigger] l[i]).0@ == k {
            let i = choose|i: int| 0 <= i < l.len() && (#[trigger] l[i]).0@ == k;
            if i < l.len() - 1 {
                assert(l.drop_last()[i].0@ == k);
            }
        }
    }
}

pub proof fn lemma_labels_map_value(l: Seq<(String, u16)>, i: int)
    requires
        distinct_keys(l),
        0 <= i < l.len(),
    ensures
        labels_map(l).contains_key(l[i].0@),
        labels_map(l)[l[i].0@] == l[i].1,
    decreases l.len(),
{
    if i < l.len() - 1 {
        assert(distinct_keys(l.drop_last()));
        assert(l.drop_last()[i] == l[i]);
        lemma_labels_map_value(l.drop_last(), i);
        assert(l[i].0@ != l.last().0@);
    }
}

/// The fuel of the scan recursion: the characters not yet consumed.
pub open spec fn scan_fuel(s: Seq<char>, pos: int) -> int {
    if pos <= s.len() {
        s.len() - pos
    } else {
        0
    }
}

/// The first stage: one statement per unfolding, from position `pos`, with
/// the label table and emitted opcodes accumulated so far.  Yields the
/// final opcodes and table, or the first error.
pub open spec fn spec_scan_from(
    s: Seq<char>,
    pos: int,
    tbl: Map<Seq<char>, u16>,
    out: Seq<SpecOpcode>,
) -> Result<(Seq<SpecOpcode>, Map<Seq<char>, u16>), SpecCompileError>
    decreases scan_fuel(s, pos),
{
    let p1 = pos + run_len(s, pos, CharClass::Whitespace);
    let p2 = p1 + run_len(s, p1, CharClass::Letter);
    let tok = s.subrange(p1, p2);
    if p2 >= s.len() {
        if p1 == p2 {
            Ok((out, tbl))
        } else {
            match spec_emit(tok, None) {
                Ok(op) => Ok((out.push(op), tbl)),
                Err(e) => Err(e),
            }
        }
    } else if s[p2] == ':' {
        if tbl.contains_key(tok) {
            Err(SpecCompileError::DuplicateLabel(tok))
        } else {
            spec_scan_from(s, p2 + 1, tbl.insert(tok, out.len() as u16), out)
        }
    } else if p1 < p2 {
        match spec_mnemonic_arity(tok) {
            None => Err(SpecCompileError::UnknownInstruction(tok)),
            Some(false) => match spec_emit(tok, None) {
                Ok(op) => spec_scan_from(s, p2, tbl, out.push(op)),
                Err(e) => Err(e),
            },
            Some(true) => {
                let p3 = p2 + run_len(s, p2, CharClass::Whitespace);
                let p4 = p3 + run_len(s, p3, CharClass::LetterOrDigit);
                let arg = s.subrange(p3, p4);
                match spec_emit(tok, Some(arg)) {
                    Ok(op) => spec_scan_from(s, p4, tbl, out.push(op)),
                    Err(e) => Err(e),
                }
            },
        }
    } else {
        Err(SpecCompileError::UnknownInstruction(s.subrange(p2, p2 + 1)))
    }
}

/// The second stage, on one opcode: a textual branch target is replaced by
/// the declared address; every other opcode passes through unchanged.
pub open spec fn spec_resolve_op(op: SpecOpcode, tbl: Map<Seq<char>, u16>) -> Result<
    vm::Opcode,
    SpecCompileError,
> {
    match op {
        SpecOpcode::PushConstant(v) => Ok(vm::Opcode::PushConstant(v)),
        SpecOpcode::Drop => Ok(vm::Opcode::Drop),
        SpecOpcode::Dup(k) => Ok(vm::Opcode::Dup(k)),
        SpecOpcode::Swap => Ok(vm::Opcode::Swap),
        SpecOpcode::Add => Ok(vm::Opcode::Add),
        SpecOpcode::Subtract => Ok(vm::Opcode::Subtract),
        SpecOpcode::Multiply => Ok(vm::Opcode::Multiply),
        SpecOpcode::BranchIfNotZero(SpecReference::Resolved(a)) => Ok(
            vm::Opcode::BranchIfNotZero(a),
        ),
        SpecOpcode::BranchIfNotZero(SpecReference::Unresolved(name)) => {
            if tbl.contains_key(name) {
                Ok(vm::Opcode::BranchIfNotZero(tbl[name]))
            } else {
                Err(SpecCompileError::UndefinedLabel(name))
            }
        },
        SpecOpcode::Halt => Ok(vm::Opcode::Halt),
    }
}

/// The second stage: a linear rewrite of the emitted sequence through the
/// label table; the first undefined reference aborts it.
pub open spec fn spec_resolve(ops: Seq<SpecOpcode>, tbl: Map<Seq<char>, u16>) -> Result<
    Seq<vm::Opcode>,
    SpecCompileError,
>
    decreases ops.len(),
{
    if ops.len() == 0 {
        Ok(Seq::<vm::Opcode>::empty())
    } else {
        match spec_resolve(ops.drop_last(), tbl) {
            Err(e) => Err(e),
            Ok(rest) => match spec_resolve_op(ops.last(), tbl) {
                Err(e) => Err(e),
                Ok(o) => Ok(rest.push(o)),
            },
        }
    }
}

/// Both stages together: what assembling a source yields.
pub open spec fn spec_assemble(s: Seq<char>) -> Result<Seq<vm::Opcode>, SpecCompileError> {
    match spec_scan_from(s, 0, Map::<Seq<char>, u16>::empty(), Seq::<SpecOpcode>::empty()) {
        Ok(st) => spec_resolve(st.0, st.1),
        Err(e) => Err(e),
    }
}

/// Parses a `push` constant.
pub fn parse_number(s: &str) -> (r: Option<i16>)
    ensures
        r == spec_parse_i16(s@),
{
    match parse_digits(s, 32767) {
        Some(v) => Some(v as i16),
        None => None,
    }
}

/// Parses a `dup` offset.
pub fn parse_index(s: &str) -> (r: Option<u16>)
    ensures
        r == spec_parse_u16(s@),
{
    match parse_digits(s, 65535) {
        Some(v) => Some(v as u16),
        None => None,
    }
}

/// Whether a mnemonic requires an argument; an unknown mnemonic fails the
/// compile.
pub fn requires_argument(instruction: &str) -> (r: Result<bool, CompileError>)
    ensures
        match spec_mnemonic_arity(instruction@) {
            Some(b) => r == Ok::<bool, CompileError>(b),
            None => r matches Err(e) && e@ == SpecCompileError::UnknownInstruction(instruction@),
        },
{
    if str_eq(instruction, "push") || str_eq(instruction, "dup") || str_eq(instruction, "bnz") {
        Ok(true)
    } else if str_eq(instruction, "drop") || str_eq(instruction, "swp") || str_eq(
        instruction,
        "add",
    ) || str_eq(instruction, "sub") || str_eq(instruction, "mul") || str_eq(instruction, "halt") {
        Ok(false)
    } else {
        Err(CompileError::UnknownInstruction(instruction.to_owned()))
    }
}

/// Looks a label up in the table built by the scan.
fn lookup_label(labels: &Vec<(String, u16)>, name: &str) -> (r: Option<u16>)
    requires
        distinct_keys(labels@),
    ensures
        match r {
            Some(a) => labels_map(labels@).contains_key(name@) && labels_map(labels@)[name@] == a,
            None => !labels_map(labels@).contains_key(name@),
        },
{
    let mut i: usize = 0;
    while i < labels.len()
        invariant
            i <= labels@.len(),
            distinct_keys(labels@),
            forall|j: int| 0 <= j < i ==> (#[trigger] labels@[j]).0@ != name@,
        decreases labels@.len() - i,
    {
        if str_eq(labels[i].0.as_str(), name) {
            proof {
                lemma_labels_map_value(labels@, i as int);
            }
            return Some(labels[i].1);
        }
        i = i + 1;
    }
    proof {
        lemma_labels_map_membership(labels@, name@);
    }
    None
}

/// The argument text handed to `compile_instruction`, as a sequence.
pub open spec fn arg_view(argument: Option<&str>) -> Option<Seq<char>> {
    match argument {
        Some(a) => Some(a@),
        None => None,
    }
}

/// The assembler.  Created over the full source text, consumed by one call
/// to [`Compiler::compile`].
#[derive(Debug)]
pub struct Compiler<'a> {
    input: &'a str,
    pos: usize,
    labels: Vec<(String, u16)>,
    output: Vec<Opcode>,
}

impl<'a> Compiler<'a> {
    /// The source text under compilation.
    pub closed spec fn source(&self) -> Seq<char> {
        self.input@
    }

    /// The cursor sits inside the source, the output never outgrows the
    /// characters consumed (so label addresses fit their 16-bit type), and
    /// the label table holds each name at most once.
    pub closed spec fn wf(&self) -> bool {
        &&& self.pos <= self.input@.len()
        &&& self.input@.len() <= 0xFFFF
        &&& self.output@.len() <= self.pos
        &&& distinct_keys(self.labels@)
    }

    /// Nothing scanned yet: the state `new` establishes.
    pub closed spec fn fresh(&self) -> bool {
        &&& self.pos == 0
        &&& self.labels@.len() == 0
        &&& self.output@.len() == 0
    }

    /// A fresh compiler over `input`.  The source must fit the 16-bit
    /// address space of the instruction set.
    pub fn new(input: &'a str) -> (c: Compiler<'a>)
        requires
            input@.len() <= 0xFFFF,
        ensures
            c.wf(),
            c.fresh(),
            c.source() == input@,
    {
        Compiler { input, pos: 0, labels: Vec::new(), output: Vec::new() }
    }

    /// The character under the cursor, if any.
    fn peek(&self) -> (c: Option<char>)
        requires
            self.pos <= self.input@.len(),
        ensures
            c == (if self.pos < self.input@.len() {
                Some(self.input@[self.pos as int])
            } else {
                None::<char>
            }),
    {
        if self.pos < self.input.unicode_len() {
            Some(self.input.get_char(self.pos))
        } else {
            None
        }
    }

    /// Advances the cursor past one character.
    fn read(&mut self)
        requires
            old(self).pos < old(self).input@.len(),
            old(self).input@.len() <= 0xFFFF,
        ensures
            final(self).input@ == old(self).input@,
            final(self).pos == old(self).pos + 1,
            final(self).labels == old(self).labels,
            final(self).output == old(self).output,
    {
        self.pos = self.pos + 1;
    }

    /// Consumes the maximal run of characters of `class` and returns it;
    /// the cursor stops at the first character past the run.
    fn read_while(&mut self, class: CharClass) -> (t: &'a str)
        requires
            old(self).pos <= old(self).input@.len(),
        ensures
            final(self).input@ == old(self).input@,
            final(self).labels == old(self).labels,
            final(self).output == old(self).output,
            old(self).pos <= final(self).pos <= old(self).input@.len(),
            final(self).pos == old(self).pos + run_len(
                old(self).input@,
                old(self).pos as int,
                class,
            ),
            t@ == old(self).input@.subrange(old(self).pos as int, final(self).pos as int),
    {
        let start = self.pos;
        let n = self.input.unicode_len();
        loop
            invariant_except_break
                n == self.input@.len(),
                start <= self.pos <= n,
                self.input@ == old(self).input@,
                self.labels == old(self).labels,
                self.output == old(self).output,
                run_len(self.input@, start as int, class) == (self.pos - start) + run_len(
                    self.input@,
                    self.pos as int,
                    class,
                ),
            ensures
                n == self.input@.len(),
                start <= self.pos <= n,
                self.input@ == old(self).input@,
                self.labels == old(self).labels,
                self.output == old(self).output,
                self.pos - start == run_len(self.input@, start as int, class),
            decreases n - self.pos,
        {
            if self.pos == n {
                break ;
            }
            let c = self.input.get_char(self.pos);
            if !class_matches(class, c) {
                break ;
            }
            self.pos = self.pos + 1;
        }
        self.input.substring_char(start, self.pos)
    }

    /// Emits the opcode for a mnemonic and its argument text, exactly as
    /// `spec_emit` says; on an error the output is untouched.
    fn compile_instruction(&mut self, instruction: &str, argument: Option<&str>) -> (r: Result<
        (),
        CompileError,
    >)
        ensures
            final(self).input@ == old(self).input@,
            final(self).pos == old(self).pos,
            final(self).labels == old(self).labels,
            match spec_emit(instruction@, arg_view(argument)) {
                Ok(op) => r is Ok && ops_view(final(self).output@) == ops_view(
                    old(self).output@,
                ).push(op),
                Err(e) => (r matches Err(e2) && e2@ == e) && final(self).output == old(
                    self,
                ).output,
            },
    {
        let a: &str = match argument {
            Some(x) => x,
            None => "",
        };
        proof {
            reveal_strlit("");
            assert(""@ =~= Seq::<char>::empty());
        }
        let ghost out0 = self.output@;
        if str_eq(instruction, "push") {
            match parse_number(a) {
                Some(v) => {
                    let op = GenericOpcode::PushConstant(v);
                    self.output.push(op);
                    proof {
                        lemma_ops_view_push(out0, op);
                    }
                    Ok(())
                },
                None => Err(
                    CompileError::InvalidArgument(instruction.to_owned(), a.to_owned()),
                ),
            }
        } else if str_eq(instruction, "dup") {
            match parse_index(a) {
                Some(k) => {
                    let op = GenericOpcode::Dup(k);
                    self.output.push(op);
                    proof {
                        lemma_ops_view_push(out0, op);
                    }
                    Ok(())
                },
                None => Err(
                    CompileError::InvalidArgument(instruction.to_owned(), a.to_owned()),
                ),
            }
        } else if str_eq(instruction, "bnz") {
            if a.is_empty() {
                Err(CompileError::InvalidArgument(instruction.to_owned(), a.to_owned()))
            } else {
                let op = GenericOpcode::BranchIfNotZero(Reference::Unresolved(a.to_owned()));
                self.output.push(op);
                proof {
                    lemma_ops_view_push(out0, op);
                }
                Ok(())
            }
        } else if str_eq(instruction, "drop") {
            let op = GenericOpcode::Drop;
            self.output.push(op);
            proof {
                lemma_ops_view_push(out0, op);
            }
            Ok(())
        } else if str_eq(instruction, "swp") {
            let op = GenericOpcode::Swap;
            self.output.push(op);
            proof {
                lemma_ops_view_push(out0, op);
            }
            Ok(())
        } else if str_eq(instruction, "add") {
            let op = GenericOpcode::Add;
            self.output.push(op);
            proof {
                lemma_ops_view_push(out0, op);
            }
            Ok(())
        } else if str_eq(instruction, "sub") {
            let op = GenericOpcode::Subtract;
            self.output.push(op);
            proof {
                lemma_ops_view_push(out0, op);
            }
            Ok(())
        } else if str_eq(instruction, "mul") {
            let op = GenericOpcode::Multiply;
            self.output.push(op);
            proof {
                lemma_ops_view_push(out0, op);
            }
            Ok(())
        } else if str_eq(instruction, "halt") {
            let op = GenericOpcode::Halt;
            self.output.push(op);
            proof {
                lemma_ops_view_push(out0, op);
            }
            Ok(())
        } else {
            Err(CompileError::UnknownInstruction(instruction.to_owned()))
        }
    }

    /// Assembles the source: the single forward scan, then the resolution
    /// rewrite.  Returns exactly what `spec_assemble` yields on the source:
    /// the resolved program, or the first compile error.
    pub fn compile(&mut self) -> (r: Result<vm::Program, CompileError>)
        requires
            old(self).wf(),
            old(self).fresh(),
        ensures
            match r {
                Ok(p) => spec_assemble(old(self).source()) == Ok::<
                    Seq<vm::Opcode>,
                    SpecCompileError,
                >(p@),
                Err(e) => spec_assemble(old(self).source()) == Err::<
                    Seq<vm::Opcode>,
                    SpecCompileError,
                >(e@),
            },
    {
        let ghost s = self.input@;
        proof {
            assert(ops_view(self.output@) =~= Seq::<SpecOpcode>::empty());
            assert(labels_map(self.labels@) =~= Map::<Seq<char>, u16>::empty());
        }
        loop
            invariant_except_break
                self.wf(),
                self.input@ == s,
                s == old(self).source(),
                spec_scan_from(s, self.pos as int, labels_map(self.labels@), ops_view(self.output@))
                    == spec_scan_from(
                    s,
                    0,
                    Map::<Seq<char>, u16>::empty(),
                    Seq::<SpecOpcode>::empty(),
                ),
            ensures
                self.wf(),
                self.input@ == s,
                s == old(self).source(),
                spec_scan_from(s, 0, Map::<Seq<char>, u16>::empty(), Seq::<SpecOpcode>::empty())
                    == Ok::<(Seq<SpecOpcode>, Map<Seq<char>, u16>), SpecCompileError>(
                    (ops_view(self.output@), labels_map(self.labels@)),
                ),
            decreases s.len() - self.pos,
        {
            let ghost pos0 = self.pos as int;
            let ghost tbl0 = labels_map(self.labels@);
            let ghost out0 = ops_view(self.output@);
            let _ = self.read_while(CharClass::Whitespace);
            let ghost p1 = self.pos as int;
            let token = self.read_while(CharClass::Letter);
            let ghost p2 = self.pos as int;
            let copt = self.peek();
            if copt.is_none() {
                if token.is_empty() {
                    break ;
                }
                proof {
                    assert(p2 >= s.len() && p1 < p2);
                    assert(token@ == s.subrange(p1, p2));
                }
                match self.compile_instruction(token, None) {
                    Ok(_) => {
                        proof {
                            let op = spec_emit(token@, None)->Ok_0;
                            assert(ops_view(self.output@) == out0.push(op));
                            assert(spec_scan_from(s, pos0, tbl0, out0) == Ok::<
                                (Seq<SpecOpcode>, Map<Seq<char>, u16>),
                                SpecCompileError,
                            >((ops_view(self.output@), tbl0)));
                        }
                    },
                    Err(e) => {
                        proof {
                            assert(spec_scan_from(s, pos0, tbl0, out0) == Err::<
                                (Seq<SpecOpcode>, Map<Seq<char>, u16>),
                                SpecCompileError,
                            >(e@));
                        }
                        return Err(e);
                    },
                }
                break ;
            }
            let c = copt.unwrap();
            if c == ':' {
                self.read();
                match lookup_label(&self.labels, token) {
                    Some(_) => {
                        return Err(CompileError::DuplicateLabel(token.to_owned()));
                    },
                    None => {
                        let ghost l0 = self.labels@;
                        let addr: u16 = self.output.len() as u16;
                        self.labels.push((token.to_owned(), addr));
                        proof {
                            lemma_labels_map_membership(l0, token@);
                            assert forall|i: int, j: int|
                                0 <= i < j < self.labels@.len() implies (#[trigger] self.labels@[i]).0@
                                != (#[trigger] self.labels@[j]).0@ by {
                                if j < l0.len() {
                                    assert(self.labels@[i] == l0[i]);
                                    assert(self.labels@[j] == l0[j]);
                                } else {
                                    assert(self.labels@[j].0@ == token@);
                                    assert(self.labels@[i] == l0[i]);
                                }
                            }
                            assert(self.labels@.drop_last() =~= l0);
                            assert(labels_map(self.labels@) == tbl0.insert(token@, addr));
                        }
                    },
                }
            } else if !token.is_empty() {
                match requires_argument(token) {
                    Err(e) => {
                        return Err(e);
                    },
                    Ok(true) => {
                        let _ = self.read_while(CharClass::Whitespace);
                        let arg = self.read_while(CharClass::LetterOrDigit);
                        match self.compile_instruction(token, Some(arg)) {
                            Ok(_) => {},
                            Err(e) => {
                                return Err(e);
                            },
                        }
                    },
                    Ok(false) => {
                        match self.compile_instruction(token, None) {
                            Ok(_) => {},
                            Err(e) => {
                                return Err(e);
                            },
                        }
                    },
                }
            } else {
                let raw = self.input.substring_char(self.pos, self.pos + 1);
                return Err(CompileError::UnknownInstruction(raw.to_owned()));
            }
        }
        let ghost ops = ops_view(self.output@);
        let ghost tbl = labels_map(self.labels@);
        let mut resolved: Vec<vm::Opcode> = Vec::new();
        let mut i: usize = 0;
        proof {
            assert(ops.take(0) =~= Seq::<SpecOpcode>::empty());
        }
        while i < self.output.len()
            invariant
                i <= self.output@.len(),
                ops == ops_view(self.output@),
                tbl == labels_map(self.labels@),
                distinct_keys(self.labels@),
                spec_scan_from(s, 0, Map::<Seq<char>, u16>::empty(), Seq::<SpecOpcode>::empty())
                    == Ok::<(Seq<SpecOpcode>, Map<Seq<char>, u16>), SpecCompileError>((ops, tbl)),
                spec_assemble(s) == spec_resolve(ops, tbl),
                spec_resolve(ops.take(i as int), tbl) == Ok::<Seq<vm::Opcode>, SpecCompileError>(
                    resolved@,
                ),
                s == old(self).source(),
            decreases self.output@.len() - i,
        {
            let step: Result<vm::Opcode, CompileError> = match &self.output[i] {
                GenericOpcode::PushConstant(v) => Ok(vm::Opcode::PushConstant(*v)),
                GenericOpcode::Drop => Ok(vm::Opcode::Drop),
                GenericOpcode::Dup(k) => Ok(vm::Opcode::Dup(*k)),
                GenericOpcode::Swap => Ok(vm::Opcode::Swap),
                GenericOpcode::Add => Ok(vm::Opcode::Add),
                GenericOpcode::Subtract => Ok(vm::Opcode::Subtract),
                GenericOpcode::Multiply => Ok(vm::Opcode::Multiply),
                GenericOpcode::BranchIfNotZero(Reference::Resolved(a)) => Ok(
                    vm::Opcode::BranchIfNotZero(*a),
                ),
                GenericOpcode::BranchIfNotZero(Reference::Unresolved(name)) => {
                    match lookup_label(&self.labels, name.as_str()) {
                        Some(a) => Ok(vm::Opcode::BranchIfNotZero(a)),
                        None => Err(CompileError::UndefinedLabel(name.clone())),
                    }
                },
                GenericOpcode::Halt => Ok(vm::Opcode::Halt),
            };
            match step {
                Ok(o) => {
                    proof {
                        assert(ops.take(i + 1).drop_last() =~= ops.take(i as int));
                        assert(ops.take(i + 1).last() == ops[i as int]);
                        assert(spec_resolve_op(ops[i as int], tbl) == Ok::<
                            vm::Opcode,
                            SpecCompileError,
                        >(o));
                    }
                    resolved.push(o);
                    i = i + 1;
                },
                Err(e) => {
                    proof {
                        lemma_resolve_prefix_error(ops, tbl, i as int, e@);
                    }
                    return Err(e);
                },
            }
        }
        proof {
            assert(ops.take(self.output@.len() as int) =~= ops);
        }
        Ok(vm::Program { opcodes: resolved })
    }
}

/// The number of mnemonics in the source from `pos` on: the statements that
/// are instructions, labels counting for nothing.
pub open spec fn spec_mnemonic_count(s: Seq<char>, pos: int) -> nat
    decreases scan_fuel(s, pos),
{
    let p1 = pos + run_len(s, pos, CharClass::Whitespace);
    let p2 = p1 + run_len(s, p1, CharClass::Letter);
    let tok = s.subrange(p1, p2);
    if p2 >= s.len() {
        if p1 == p2 {
            0
        } else {
            1
        }
    } else if s[p2] == ':' {
        spec_mnemonic_count(s, p2 + 1)
    } else if p1 < p2 {
        match spec_mnemonic_arity(tok) {
            Some(true) => {
                let p3 = p2 + run_len(s, p2, CharClass::Whitespace);
                let p4 = p3 + run_len(s, p3, CharClass::LetterOrDigit);
                (1 + spec_mnemonic_count(s, p4)) as nat
            },
            _ => (1 + spec_mnemonic_count(s, p2)) as nat,
        }
    } else {
        0
    }
}

/// The source from `pos` on declares no label.
pub open spec fn spec_label_free(s: Seq<char>, pos: int) -> bool
    decreases scan_fuel(s, pos),
{
    let p1 = pos + run_len(s, pos, CharClass::Whitespace);
    let p2 = p1 + run_len(s, p1, CharClass::Letter);
    let tok = s.subrange(p1, p2);
    if p2 >= s.len() {
        true
    } else if s[p2] == ':' {
        false
    } else if p1 < p2 {
        match spec_mnemonic_arity(tok) {
            Some(true) => {
                let p3 = p2 + run_len(s, p2, CharClass::Whitespace);
                let p4 = p3 + run_len(s, p3, CharClass::LetterOrDigit);
                spec_label_free(s, p4)
            },
            _ => spec_label_free(s, p2),
        }
    } else {
        true
    }
}

/// The position in the output sequence at which the first declaration of
/// `name` from `pos` on stands: the number of instructions emitted before
/// it.  `None` where `name` is never declared.
pub open spec fn spec_decl_index(s: Seq<char>, pos: int, name: Seq<char>) -> Option<int>
    decreases scan_fuel(s, pos),
{
    let p1 = pos + run_len(s, pos, CharClass::Whitespace);
    let p2 = p1 + run_len(s, p1, CharClass::Letter);
    let tok = s.subrange(p1, p2);
    if p2 >= s.len() {
        None
    } else if s[p2] == ':' {
        if tok == name {
            Some(0)
        } else {
            spec_decl_index(s, p2 + 1, name)
        }
    } else if p1 < p2 {
        match spec_mnemonic_arity(tok) {
            Some(true) => {
                let p3 = p2 + run_len(s, p2, CharClass::Whitespace);
                let p4 = p3 + run_len(s, p3, CharClass::LetterOrDigit);
                match spec_decl_index(s, p4, name) {
                    Some(k) => Some(k + 1),
                    None => None,
                }
            },
            _ => match spec_decl_index(s, p2, name) {
                Some(k) => Some(k + 1),
                None => None,
            },
        }
    } else {
        None
    }
}

/// A successful scan emits one opcode per mnemonic.
proof fn lemma_scan_count(s: Seq<char>, pos: int, tbl: Map<Seq<char>, u16>, out: Seq<SpecOpcode>)
    requires
        spec_scan_from(s, pos, tbl, out) is Ok,
        spec_label_free(s, pos),
    ensures
        (spec_scan_from(s, pos, tbl, out)->Ok_0).0.len() == out.len() + spec_mnemonic_count(
            s,
            pos,
        ),
    decreases scan_fuel(s, pos),
{
    let p1 = pos + run_len(s, pos, CharClass::Whitespace);
    let p2 = p1 + run_len(s, p1, CharClass::Letter);
    let tok = s.subrange(p1, p2);
    if p2 >= s.len() {
    } else if s[p2] == ':' {
    } else if p1 < p2 {
        match spec_mnemonic_arity(tok) {
            Some(true) => {
                let p3 = p2 + run_len(s, p2, CharClass::Whitespace);
                let p4 = p3 + run_len(s, p3, CharClass::LetterOrDigit);
                let arg = s.subrange(p3, p4);
                match spec_emit(tok, Some(arg)) {
                    Ok(op) => {
                        lemma_scan_count(s, p4, tbl, out.push(op));
                    },
                    Err(_) => {},
                }
            },
            Some(false) => {
                match spec_emit(tok, None) {
                    Ok(op) => {
                        lemma_scan_count(s, p2, tbl, out.push(op));
                    },
                    Err(_) => {},
                }
            },
            None => {},
        }
    } else {
    }
}

/// A successful resolution keeps the program's length.
proof fn lemma_resolve_len(ops: Seq<SpecOpcode>, tbl: Map<Seq<char>, u16>)
    requires
        spec_resolve(ops, tbl) is Ok,
    ensures
        (spec_resolve(ops, tbl)->Ok_0).len() == ops.len(),
    decreases ops.len(),
{
    if ops.len() > 0 {
        lemma_resolve_len(ops.drop_last(), tbl);
    }
}

/// A successful resolution resolves every opcode, in place.
proof fn lemma_resolve_ok_all(ops: Seq<SpecOpcode>, tbl: Map<Seq<char>, u16>, i: int)
    requires
        spec_resolve(ops, tbl) is Ok,
        0 <= i < ops.len(),
    ensures
        spec_resolve_op(ops[i], tbl) is Ok,
        (spec_resolve(ops, tbl)->Ok_0)[i] == spec_resolve_op(ops[i], tbl)->Ok_0,
    decreases ops.len(),
{
    lemma_resolve_len(ops, tbl);
    if i == ops.len() - 1 {
        assert(ops.last() == ops[i]);
    } else {
        assert(ops.drop_last()[i] == ops[i]);
        lemma_resolve_ok_all(ops.drop_last(), tbl, i);
        lemma_resolve_len(ops.drop_last(), tbl);
    }
}

/// A failed resolution fails on some opcode of the sequence.
proof fn lemma_resolve_first_error(ops: Seq<SpecOpcode>, tbl: Map<Seq<char>, u16>)
    requires
        spec_resolve(ops, tbl) is Err,
    ensures
        exists|j: int|
            0 <= j < ops.len() && spec_resolve_op(#[trigger] ops[j], tbl) == Err::<
                vm::Opcode,
                SpecCompileError,
            >(spec_resolve(ops, tbl)->Err_0),
    decreases ops.len(),
{
    if ops.len() > 0 {
        if spec_resolve(ops.drop_last(), tbl) is Err {
            lemma_resolve_first_error(ops.drop_last(), tbl);
            let j = choose|j: int|
                0 <= j < ops.drop_last().len() && spec_resolve_op(
                    #[trigger] ops.drop_last()[j],
                    tbl,
                ) == Err::<vm::Opcode, SpecCompileError>(spec_resolve(ops.drop_last(), tbl)->Err_0);
            assert(ops[j] == ops.drop_last()[j]);
        } else {
            assert(ops[ops.len() - 1] == ops.last());
        }
    }
}

/// An existing table entry survives the rest of a successful scan.
proof fn lemma_scan_table_monotone(
    s: Seq<char>,
    pos: int,
    tbl: Map<Seq<char>, u16>,
    out: Seq<SpecOpcode>,
    name: Seq<char>,
)
    requires
        spec_scan_from(s, pos, tbl, out) is Ok,
        tbl.contains_key(name),
    ensures
        (spec_scan_from(s, pos, tbl, out)->Ok_0).1.contains_key(name),
        (spec_scan_from(s, pos, tbl, out)->Ok_0).1[name] == tbl[name],
    decreases scan_fuel(s, pos),
{
    let p1 = pos + run_len(s, pos, CharClass::Whitespace);
    let p2 = p1 + run_len(s, p1, CharClass::Letter);
    let tok = s.subrange(p1, p2);
    if p2 >= s.len() {
    } else if s[p2] == ':' {
        lemma_scan_table_monotone(s, p2 + 1, tbl.insert(tok, out.len() as u16), out, name);
    } else if p1 < p2 {
        match spec_mnemonic_arity(tok) {
            Some(true) => {
                let p3 = p2 + run_len(s, p2, CharClass::Whitespace);
                let p4 = p3 + run_len(s, p3, CharClass::LetterOrDigit);
                let arg = s.subrange(p3, p4);
                match spec_emit(tok, Some(arg)) {
                    Ok(op) => {
                        lemma_scan_table_monotone(s, p4, tbl, out.push(op), name);
                    },
                    Err(_) => {},
                }
            },
            Some(false) => {
                match spec_emit(tok, None) {
                    Ok(op) => {
                        lemma_scan_table_monotone(s, p2, tbl, out.push(op), name);
                    },
                    Err(_) => {},
                }
            },
            None => {},
        }
    } else {
    }
}

/// A successful scan records, for a label declared from `pos` on, the
/// address `out.len() + k`, where `k` is the number of instructions emitted
/// between `pos` and the declaration.
proof fn lemma_scan_declares(
    s: Seq<char>,
    pos: int,
    tbl: Map<Seq<char>, u16>,
    out: Seq<SpecOpcode>,
    name: Seq<char>,
    k: int,
)
    requires
        spec_scan_from(s, pos, tbl, out) is Ok,
        !tbl.contains_key(name),
        spec_decl_index(s, pos, name) == Some(k),
        out.len() + scan_fuel(s, pos) <= 0xFFFF,
    ensures
        (spec_scan_from(s, pos, tbl, out)->Ok_0).1.contains_key(name),
        (spec_scan_from(s, pos, tbl, out)->Ok_0).1[name] as int == out.len() + k,
        0 <= out.len() + k <= 0xFFFF,
    decreases scan_fuel(s, pos),
{
    let p1 = pos + run_len(s, pos, CharClass::Whitespace);
    let p2 = p1 + run_len(s, p1, CharClass::Letter);
    let tok = s.subrange(p1, p2);
    if p2 >= s.len() {
    } else if s[p2] == ':' {
        if tok == name {
            lemma_scan_table_monotone(
                s,
                p2 + 1,
                tbl.insert(tok, out.len() as u16),
                out,
                name,
            );
        } else {
            lemma_scan_declares(s, p2 + 1, tbl.insert(tok, out.len() as u16), out, name, k);
        }
    } else if p1 < p2 {
        match spec_mnemonic_arity(tok) {
            Some(true) => {
                let p3 = p2 + run_len(s, p2, CharClass::Whitespace);
                let p4 = p3 + run_len(s, p3, CharClass::LetterOrDigit);
                let arg = s.subrange(p3, p4);
                match spec_emit(tok, Some(arg)) {
                    Ok(op) => {
                        lemma_scan_declares(s, p4, tbl, out.push(op), name, k - 1);
                    },
                    Err(_) => {},
                }
            },
            Some(false) => {
                match spec_emit(tok, None) {
                    Ok(op) => {
                        lemma_scan_declares(s, p2, tbl, out.push(op), name, k - 1);
                    },
                    Err(_) => {},
                }
            },
            None => {},
        }
    } else {
    }
}

/// For every valid source containing no labels, the assembled program's
/// length equals the number of mnemonics in the source.
pub proof fn lemma_length_counts_mnemonics(s: Seq<char>, prog: Seq<vm::Opcode>)
    requires
        spec_assemble(s) == Ok::<Seq<vm::Opcode>, SpecCompileError>(prog),
        spec_label_free(s, 0),
    ensures
        prog.len() == spec_mnemonic_count(s, 0),
{
    let empty_tbl = Map::<Seq<char>, u16>::empty();
    let empty_out = Seq::<SpecOpcode>::empty();
    let st = spec_scan_from(s, 0, empty_tbl, empty_out)->Ok_0;
    lemma_scan_count(s, 0, empty_tbl, empty_out);
    lemma_resolve_len(st.0, st.1);
}

/// Resolving a reference to a label declared in the source produces the
/// address at which the label was declared: its position in the output
/// sequence, the count of opcodes emitted before the declaration.
pub proof fn lemma_reference_resolves_to_declaration(
    s: Seq<char>,
    ops: Seq<SpecOpcode>,
    tbl: Map<Seq<char>, u16>,
    prog: Seq<vm::Opcode>,
    i: int,
    name: Seq<char>,
    k: int,
)
    requires
        s.len() <= 0xFFFF,
        spec_scan_from(s, 0, Map::<Seq<char>, u16>::empty(), Seq::<SpecOpcode>::empty()) == Ok::<
            (Seq<SpecOpcode>, Map<Seq<char>, u16>),
            SpecCompileError,
        >((ops, tbl)),
        spec_assemble(s) == Ok::<Seq<vm::Opcode>, SpecCompileError>(prog),
        spec_decl_index(s, 0, name) == Some(k),
        0 <= i < ops.len(),
        ops[i] == SpecOpcode::BranchIfNotZero(SpecReference::Unresolved(name)),
    ensures
        tbl.contains_key(name),
        tbl[name] as int == k,
        prog[i] == vm::Opcode::BranchIfNotZero(tbl[name]),
{
    let empty_tbl = Map::<Seq<char>, u16>::empty();
    let empty_out = Seq::<SpecOpcode>::empty();
    lemma_scan_declares(s, 0, empty_tbl, empty_out, name, k);
    lemma_resolve_ok_all(ops, tbl, i);
}

/// Referencing an undefined label always yields `UndefinedLabel`, never a
/// resolved program.
pub proof fn lemma_undefined_label_rejected(
    s: Seq<char>,
    ops: Seq<SpecOpcode>,
    tbl: Map<Seq<char>, u16>,
    i: int,
    name: Seq<char>,
)
    requires
        spec_scan_from(s, 0, Map::<Seq<char>, u16>::empty(), Seq::<SpecOpcode>::empty()) == Ok::<
            (Seq<SpecOpcode>, Map<Seq<char>, u16>),
            SpecCompileError,
        >((ops, tbl)),
        0 <= i < ops.len(),
        ops[i] == SpecOpcode::BranchIfNotZero(SpecReference::Unresolved(name)),
        !tbl.contains_key(name),
    ensures
        spec_assemble(s) is Err,
        spec_assemble(s)->Err_0 is UndefinedLabel,
        !tbl.contains_key(spec_assemble(s)->Err_0->UndefinedLabel_0),
{
    if spec_resolve(ops, tbl) is Ok {
        lemma_resolve_ok_all(ops, tbl, i);
        assert(false);
    }
    lemma_resolve_first_error(ops, tbl);
    let err = spec_resolve(ops, tbl)->Err_0;
    let j = choose|j: int|
        0 <= j < ops.len() && spec_resolve_op(#[trigger] ops[j], tbl) == Err::<
            vm::Opcode,
            SpecCompileError,
        >(err);
    assert(err is UndefinedLabel && !tbl.contains_key(err->UndefinedLabel_0));
}

/// An error while resolving one opcode, after a clean prefix, is the error
/// of the whole resolution.
proof fn lemma_resolve_prefix_error(
    ops: Seq<SpecOpcode>,
    tbl: Map<Seq<char>, u16>,
    i: int,
    e: SpecCompileError,
)
    requires
        0 <= i < ops.len(),
        spec_resolve(ops.take(i), tbl) is Ok,
        spec_resolve_op(ops[i], tbl) == Err::<vm::Opcode, SpecCompileError>(e),
    ensures
        spec_resolve(ops, tbl) == Err::<Seq<vm::Opcode>, SpecCompileError>(e),
    decreases ops.len(),
{
    if i == ops.len() - 1 {
        assert(ops.drop_last() =~= ops.take(i));
        assert(ops.last() == ops[i]);
    } else {
        assert(ops.drop_last().take(i) =~= ops.take(i));
        assert(ops.drop_last()[i] == ops[i]);
        lemma_resolve_prefix_error(ops.drop_last(), tbl, i, e);
    }
}

} // verus!
