//! The two-pass assembler driver.
//!
//! The first pass walks the parsed instructions, opens sections, collects
//! label declarations into the symbol table, and fills the read-only data
//! area from `asciiz` directives; every fault is accumulated as an
//! [`AssemblerError`]. The second pass runs only when the first collected no
//! fault and both a `.data` and a `.code` section were seen; it emits one
//! 4-byte frame per opcode line and prepends the 64-byte image header.
//!
//! The whole first pass is modelled by the spec function
//! [`run_first_pass`]; `assemble`'s contract states, for every source, which
//! errors come back and what image is produced.

use vstd::prelude::*;
use crate::parser::{
    AssemblerInstruction, Program, InstrModel, parse_program, spec_parse_program, body_bytes,
};
use crate::symbols::{
    Symbol, SymbolModel, SymbolTable, SymbolType, spec_has_symbol, spec_set_offset,
};
use crate::tokens::TokenModel;

verus! {

use vstd::string::StringSliceAdditionalSpecFns;
use vstd::utf8::encode_utf8;

/// The length of the image header: 4 magic bytes and 60 reserved zeros.
pub const PIE_HEADER_LENGTH: usize = 64;

/// The image header: the magic prefix, zero-filled to 64 bytes.
pub open spec fn spec_header() -> Seq<u8> {
    seq![45u8, 50u8, 49u8, 45u8] + Seq::new(60, |i: int| 0u8)
}

/// A fault found while assembling.
#[derive(Debug, Clone, PartialEq)]
pub enum AssemblerError {
    /// The source failed to parse; carries the diagnostic.
    ParseError { error: String },
    /// A label was declared before any section header.
    NoSegmentDeclarationFound { instruction: u32 },
    /// A label name was declared twice.
    SymbolAlreadyDeclared { name: String },
    /// A directive with operands whose name is not recognized.
    UnknownDirectiveFound { directive: String },
    /// Fewer than the required `.data` and `.code` sections were seen.
    InsufficientSections,
    /// An `asciiz` directive without a leading label.
    StringConstantDeclaredWithoutLabel { instruction: u32 },
}

/// The mathematical shape of an [`AssemblerError`]: names and messages as
/// their UTF-8 bytes.
pub enum ErrModel {
    ParseError { error: Seq<u8> },
    NoSegmentDeclarationFound { instruction: u32 },
    SymbolAlreadyDeclared { name: Seq<u8> },
    UnknownDirectiveFound { directive: Seq<u8> },
    InsufficientSections,
    StringConstantDeclaredWithoutLabel { instruction: u32 },
}

impl View for AssemblerError {
    type V = ErrModel;

    open spec fn view(&self) -> ErrModel {
        match self {
            AssemblerError::ParseError { error } => ErrModel::ParseError {
                error: encode_utf8(error@),
            },
            AssemblerError::NoSegmentDeclarationFound { instruction } => {
                ErrModel::NoSegmentDeclarationFound { instruction: *instruction }
            },
            AssemblerError::SymbolAlreadyDeclared { name } => ErrModel::SymbolAlreadyDeclared {
                name: encode_utf8(name@),
            },
            AssemblerError::UnknownDirectiveFound { directive } => ErrModel::UnknownDirectiveFound {
                directive: encode_utf8(directive@),
            },
            AssemblerError::InsufficientSections => ErrModel::InsufficientSections,
            AssemblerError::StringConstantDeclaredWithoutLabel { instruction } => {
                ErrModel::StringConstantDeclaredWithoutLabel { instruction: *instruction }
            },
        }
    }
}

impl DeepView for AssemblerError {
    type V = ErrModel;

    open spec fn deep_view(&self) -> ErrModel {
        self.view()
    }
}

/// Which pass the assembler is in.
#[derive(Debug, Clone, Copy, PartialEq, Eq, Structural)]
pub enum AssemblerPhase {
    First,
    Second,
}

/// A section of the source. `starting_instruction` records where the
/// section opened, where known.
#[derive(Debug, Clone, Copy, PartialEq, Eq, Structural)]
pub enum AssemblerSection {
    Data { starting_instruction: Option<u32> },
    Code { starting_instruction: Option<u32> },
    Unknown,
}

impl Default for AssemblerSection {
    fn default() -> (r: Self)
        ensures
            r == AssemblerSection::Unknown,
    {
        AssemblerSection::Unknown
    }
}

/// The section a header name opens: `.data`, `.code`, or an unknown one.
pub open spec fn spec_section_of(name: Seq<u8>) -> AssemblerSection {
    if name == seq![100u8, 97u8, 116u8, 97u8] {  // "data"
        AssemblerSection::Data { starting_instruction: None }
    } else if name == seq![99u8, 111u8, 100u8, 101u8] {  // "code"
        AssemblerSection::Code { starting_instruction: None }
    } else {
        AssemblerSection::Unknown
    }
}

impl AssemblerSection {
    /// The section a header name opens.
    pub fn from_name(name: &str) -> (r: AssemblerSection)
        ensures
            r == spec_section_of(encode_utf8(name@)),
    {
        let b = name.as_bytes();
        if b.len() == 4 && b[0] == 100 && b[1] == 97 && b[2] == 116 && b[3] == 97 {
            proof {
                assert(encode_utf8(name@) =~= seq![100u8, 97u8, 116u8, 97u8]);
            }
            AssemblerSection::Data { starting_instruction: None }
        } else if b.len() == 4 && b[0] == 99 && b[1] == 111 && b[2] == 100 && b[3] == 101 {
            proof {
                assert(encode_utf8(name@) =~= seq![99u8, 111u8, 100u8, 101u8]);
            }
            AssemblerSection::Code { starting_instruction: None }
        } else {
            proof {
                let n = encode_utf8(name@);
                if n == seq![100u8, 97u8, 116u8, 97u8] {
                    assert(b@[0] == 100 && b@[1] == 97 && b@[2] == 116 && b@[3] == 97);
                }
                if n == seq![99u8, 111u8, 100u8, 101u8] {
                    assert(b@[0] == 99 && b@[1] == 111 && b@[2] == 100 && b@[3] == 101);
                }
            }
            AssemblerSection::Unknown
        }
    }
}

/// Whether a `.data` section was seen.
pub open spec fn spec_has_data(sections: Seq<AssemblerSection>) -> bool {
    exists|j: int| 0 <= j < sections.len() && #[trigger] sections[j] matches AssemblerSection::Data { .. }
}

/// Whether a `.code` section was seen.
pub open spec fn spec_has_code(sections: Seq<AssemblerSection>) -> bool {
    exists|j: int| 0 <= j < sections.len() && #[trigger] sections[j] matches AssemblerSection::Code { .. }
}

// ---------------------------------------------------------------------------
// The first pass, as a mathematical function
// ---------------------------------------------------------------------------

/// The assembler state that the first pass folds over.
#[verifier::ext_equal]
pub struct PassState {
    pub symbols: Seq<SymbolModel>,
    pub ro: Seq<u8>,
    pub ro_offset: u32,
    pub sections: Seq<AssemblerSection>,
    pub current_section: Option<AssemblerSection>,
    pub current_instruction: u32,
    pub errors: Seq<ErrModel>,
}

/// An offset counter stepped `n` times, wrapping as the 32-bit counter in
/// the assembler does.
pub open spec fn stepped(off: u32, n: nat) -> u32
    decreases n,
{
    if n == 0 {
        off
    } else {
        stepped(off, (n - 1) as nat).wrapping_add(1)
    }
}

/// A counter far from its wrap-around point steps plainly.
pub proof fn lemma_stepped_no_wrap(off: u32, n: nat)
    requires
        off + n <= u32::MAX,
    ensures
        stepped(off, n) == off + n,
    decreases n,
{
    if n > 0 {
        lemma_stepped_no_wrap(off, (n - 1) as nat);
    }
}

/// The tentative offset of a label declared at instruction index `idx`:
/// four bytes per source line, past the 64-byte header.
pub open spec fn spec_label_offset(idx: u32) -> u32 {
    idx.wrapping_mul(4).wrapping_add(64)
}

/// A label declaration inside a section: reject a name already present,
/// else record it at its tentative code offset.
pub open spec fn spec_label_decl(st: PassState, m: InstrModel) -> PassState {
    match m.label {
        Some(TokenModel::LabelDeclaration { name }) => {
            if spec_has_symbol(st.symbols, name) {
                PassState {
                    errors: st.errors.push(ErrModel::SymbolAlreadyDeclared { name }),
                    ..st
                }
            } else {
                PassState {
                    symbols: st.symbols.push(
                        SymbolModel {
                            name,
                            offset: Some(spec_label_offset(st.current_instruction)),
                        },
                    ),
                    ..st
                }
            }
        },
        _ => PassState {
            errors: st.errors.push(
                ErrModel::StringConstantDeclaredWithoutLabel {
                    instruction: st.current_instruction,
                },
            ),
            ..st
        },
    }
}

/// A section header: an unknown name is ignored; `.data` and `.code` are
/// recorded and become current.
pub open spec fn spec_section_header(st: PassState, name: Seq<u8>) -> PassState {
    let section = spec_section_of(name);
    if section == AssemblerSection::Unknown {
        st
    } else {
        PassState {
            sections: st.sections.push(section),
            current_section: Some(section),
            ..st
        }
    }
}

/// An `asciiz` directive: re-point the owning label at the current
/// read-only offset, then append the string's bytes and a zero terminator.
/// Without a label it is a fault; without a string operand it does nothing.
pub open spec fn spec_handle_asciiz(st: PassState, m: InstrModel) -> PassState {
    match m.operand1 {
        Some(TokenModel::IrString { name: text }) => {
            match m.label {
                Some(TokenModel::LabelDeclaration { name: lbl }) => PassState {
                    symbols: spec_set_offset(st.symbols, lbl, st.ro_offset),
                    ro: st.ro + text + seq![0u8],
                    ro_offset: stepped(st.ro_offset, text.len() + 1),
                    ..st
                },
                _ => PassState {
                    errors: st.errors.push(
                        ErrModel::StringConstantDeclaredWithoutLabel {
                            instruction: st.current_instruction,
                        },
                    ),
                    ..st
                },
            }
        },
        _ => st,
    }
}

/// The name of the one directive that takes operands.
pub open spec fn spec_asciiz_name() -> Seq<u8> {
    seq![97u8, 115u8, 99u8, 105u8, 105u8, 122u8]
}

/// A directive line: with operands, only `asciiz` is known; without
/// operands it is a section header.
pub open spec fn spec_process_directive(st: PassState, m: InstrModel) -> PassState {
    match m.directive {
        Some(TokenModel::Directive { name }) => {
            if m.operand1 is Some {
                if name == spec_asciiz_name() {
                    spec_handle_asciiz(st, m)
                } else {
                    PassState {
                        errors: st.errors.push(
                            ErrModel::UnknownDirectiveFound { directive: name },
                        ),
                        ..st
                    }
                }
            } else {
                spec_section_header(st, name)
            }
        },
        _ => st,
    }
}

/// One first-pass step: handle a label declaration (a fault outside any
/// section), then a directive, then count the line.
pub open spec fn first_pass_step(st: PassState, m: InstrModel) -> PassState {
    let st1 = if m.label is Some {
        if st.current_section is Some {
            spec_label_decl(st, m)
        } else {
            PassState {
                errors: st.errors.push(
                    ErrModel::NoSegmentDeclarationFound { instruction: st.current_instruction },
                ),
                ..st
            }
        }
    } else {
        st
    };
    let st2 = if m.directive is Some {
        spec_process_directive(st1, m)
    } else {
        st1
    };
    PassState { current_instruction: st2.current_instruction.wrapping_add(1), ..st2 }
}

/// The whole first pass: the step, folded over the instructions in source
/// order.
pub open spec fn run_first_pass(instrs: Seq<InstrModel>, st: PassState) -> PassState
    decreases instrs.len(),
{
    if instrs.len() == 0 {
        st
    } else {
        run_first_pass(instrs.skip(1), first_pass_step(st, instrs[0]))
    }
}

// ---------------------------------------------------------------------------
// The assembler
// ---------------------------------------------------------------------------

/// The mathematical shape of an [`Assembler`].
#[verifier::ext_equal]
pub struct AsmModel {
    pub phase: AssemblerPhase,
    pub bytecode: Seq<u8>,
    pub st: PassState,
}

/// The two-pass assembler.
#[derive(Debug)]
pub struct Assembler {
    /// Which pass the assembler is in.
    pub phase: AssemblerPhase,
    /// The symbol table built by the first pass.
    pub symbols: SymbolTable,
    /// The read-only data the first pass collects from `asciiz` directives.
    pub ro: Vec<u8>,
    /// Scratch space for generated bytecode.
    pub bytecode: Vec<u8>,
    ro_offset: u32,
    sections: Vec<AssemblerSection>,
    current_section: Option<AssemblerSection>,
    current_instruction: u32,
    errors: Vec<AssemblerError>,
}

impl View for Assembler {
    type V = AsmModel;

    closed spec fn view(&self) -> AsmModel {
        AsmModel {
            phase: self.phase,
            bytecode: self.bytecode@,
            st: PassState {
                symbols: self.symbols@,
                ro: self.ro@,
                ro_offset: self.ro_offset,
                sections: self.sections@,
                current_section: self.current_section,
                current_instruction: self.current_instruction,
                errors: self.errors.deep_view(),
            },
        }
    }
}

impl Assembler {
    /// A fresh assembler: first phase, everything empty.
    pub fn new() -> (r: Assembler)
        ensures
            r@.phase == AssemblerPhase::First,
            r@.bytecode =~= Seq::<u8>::empty(),
            r@.st.symbols =~= Seq::<SymbolModel>::empty(),
            r@.st.ro =~= Seq::<u8>::empty(),
            r@.st.ro_offset == 0,
            r@.st.sections =~= Seq::<AssemblerSection>::empty(),
            r@.st.current_section is None,
            r@.st.current_instruction == 0,
            r@.st.errors =~= Seq::<ErrModel>::empty(),
    {
        Assembler {
            phase: AssemblerPhase::First,
            symbols: SymbolTable::new(),
            ro: Vec::new(),
            bytecode: Vec::new(),
            current_instruction: 0,
            current_section: None,
            sections: Vec::new(),
            errors: Vec::new(),
            ro_offset: 0,
        }
    }

    /// The 64-byte image header: the magic prefix, zero-filled.
    pub fn write_pie_header(&self) -> (r: Vec<u8>)
        ensures
            r@ == spec_header(),
    {
        let mut header: Vec<u8> = Vec::new();
        header.push(45);
        header.push(50);
        header.push(49);
        header.push(45);
        while header.len() < PIE_HEADER_LENGTH
            invariant
                4 <= header@.len() <= 64,
                header@[0] == 45 && header@[1] == 50 && header@[2] == 49 && header@[3] == 45,
                forall|j: int| 4 <= j < header@.len() ==> header@[j] == 0,
            decreases 64 - header.len(),
        {
            header.push(0);
        }
        proof {
            assert(header@ =~= spec_header());
        }
        header
    }
}


/// Whether a directive name is `asciiz`.
fn is_asciiz(name: &str) -> (r: bool)
    ensures
        r == (encode_utf8(name@) == spec_asciiz_name()),
{
    let b = name.as_bytes();
    let r = b.len() == 6 && b[0] == 97 && b[1] == 115 && b[2] == 99 && b[3] == 105 && b[4] == 105
        && b[5] == 122;
    proof {
        if r {
            assert(encode_utf8(name@) =~= spec_asciiz_name());
        } else {
            if encode_utf8(name@) == spec_asciiz_name() {
                assert(b@.len() == 6);
                assert(b@[0] == 97 && b@[1] == 115 && b@[2] == 99 && b@[3] == 105 && b@[4] == 105
                    && b@[5] == 122);
            }
        }
    }
    r
}

impl Assembler {
    /// Record a label declaration: a duplicate name is a fault; a fresh one
    /// is entered at its tentative code offset.
    fn process_label_declaration(&mut self, i: &AssemblerInstruction)
        ensures
            final(self)@.st == spec_label_decl(old(self)@.st, i@),
            final(self)@.phase == old(self)@.phase,
            final(self)@.bytecode == old(self)@.bytecode,
    {
        let ghost st0 = self@.st;
        let name = match i.label_name() {
            Some(name) => name,
            None => {
                self.errors.push(
                    AssemblerError::StringConstantDeclaredWithoutLabel {
                        instruction: self.current_instruction,
                    },
                );
                proof {
                    assert(self.errors.deep_view() =~= st0.errors.push(
                        ErrModel::StringConstantDeclaredWithoutLabel {
                            instruction: st0.current_instruction,
                        },
                    ));
                    assert(self@.st =~= spec_label_decl(st0, i@));
                }
                return;
            },
        };
        if self.symbols.has_symbol(name.as_str()) {
            self.errors.push(AssemblerError::SymbolAlreadyDeclared { name });
            proof {
                assert(self.errors.deep_view() =~= st0.errors.push(
                    ErrModel::SymbolAlreadyDeclared {
                        name: i@.label.unwrap()->LabelDeclaration_name,
                    },
                ));
                assert(self@.st =~= spec_label_decl(st0, i@));
            }
            return;
        }
        let offset = self.current_instruction.wrapping_mul(4).wrapping_add(64);
        let symbol = Symbol::new(name, SymbolType::Label, offset);
        self.symbols.add_symbol(symbol);
        proof {
            assert(self@.st =~= spec_label_decl(st0, i@));
        }
    }

    /// Open a section: unknown names are ignored.
    fn process_section_header(&mut self, header_name: &str)
        ensures
            final(self)@.st == spec_section_header(old(self)@.st, encode_utf8(header_name@)),
            final(self)@.phase == old(self)@.phase,
            final(self)@.bytecode == old(self)@.bytecode,
    {
        let ghost st0 = self@.st;
        let new_section = AssemblerSection::from_name(header_name);
        if new_section == AssemblerSection::Unknown {
            return;
        }
        self.sections.push(new_section);
        self.current_section = Some(new_section);
        proof {
            assert(self@.st =~= spec_section_header(st0, encode_utf8(header_name@)));
        }
    }

    /// Record an `asciiz` string: re-point its label at the current
    /// read-only offset, append the bytes and a zero terminator.
    fn handle_asciiz(&mut self, i: &AssemblerInstruction)
        ensures
            final(self)@.st == spec_handle_asciiz(old(self)@.st, i@),
            final(self)@.phase == old(self)@.phase,
            final(self)@.bytecode == old(self)@.bytecode,
    {
        let ghost st0 = self@.st;
        let s = match i.get_string_constant() {
            Some(s) => s,
            None => {
                return;
            },
        };
        let ghost text = i@.operand1.unwrap()->IrString_name;
        let name = match i.label_name() {
            Some(name) => name,
            None => {
                self.errors.push(
                    AssemblerError::StringConstantDeclaredWithoutLabel {
                        instruction: self.current_instruction,
                    },
                );
                proof {
                    assert(self.errors.deep_view() =~= st0.errors.push(
                        ErrModel::StringConstantDeclaredWithoutLabel {
                            instruction: st0.current_instruction,
                        },
                    ));
                    assert(self@.st =~= spec_handle_asciiz(st0, i@));
                }
                return;
            },
        };
        self.symbols.set_symbol_offset(name.as_str(), self.ro_offset);
        let bytes = s.as_str().as_bytes_vec();
        proof {
            assert(bytes@ == text);
        }
        let mut k: usize = 0;
        while k < bytes.len()
            invariant
                0 <= k <= bytes@.len(),
                bytes@ == text,
                self.ro@ == st0.ro + text.take(k as int),
                self.ro_offset == stepped(st0.ro_offset, k as nat),
                self.symbols@ == spec_set_offset(st0.symbols, i@.label.unwrap()->LabelDeclaration_name, st0.ro_offset),
                self.sections@ == st0.sections,
                self.current_section == st0.current_section,
                self.current_instruction == st0.current_instruction,
                self.errors.deep_view() == st0.errors,
                self.phase == old(self).phase,
                self.bytecode@ == old(self)@.bytecode,
            decreases bytes@.len() - k,
        {
            self.ro.push(bytes[k]);
            self.ro_offset = self.ro_offset.wrapping_add(1);
            proof {
                assert(text.take(k as int + 1) =~= text.take(k as int).push(text[k as int]));
                assert(self.ro@ =~= st0.ro + text.take(k as int + 1));
            }
            k += 1;
        }
        self.ro.push(0);
        self.ro_offset = self.ro_offset.wrapping_add(1);
        proof {
            assert(text.take(text.len() as int) =~= text);
            assert(self.ro@ =~= st0.ro + text + seq![0u8]);
            assert(self@.st =~= spec_handle_asciiz(st0, i@));
        }
    }

    /// Dispatch a directive line: `asciiz` with operands, a section header
    /// without; any other directive with operands is a fault.
    fn process_directive(&mut self, i: &AssemblerInstruction)
        ensures
            final(self)@.st == spec_process_directive(old(self)@.st, i@),
            final(self)@.phase == old(self)@.phase,
            final(self)@.bytecode == old(self)@.bytecode,
    {
        let ghost st0 = self@.st;
        let directive_name = match i.directive_name() {
            Some(name) => name,
            None => {
                return;
            },
        };
        if i.has_operands() {
            if is_asciiz(directive_name.as_str()) {
                self.handle_asciiz(i);
            } else {
                self.errors.push(
                    AssemblerError::UnknownDirectiveFound { directive: directive_name },
                );
                proof {
                    assert(self.errors.deep_view() =~= st0.errors.push(
                        ErrModel::UnknownDirectiveFound {
                            directive: i@.directive.unwrap()->Directive_name,
                        },
                    ));
                    assert(self@.st =~= spec_process_directive(st0, i@));
                }
            }
        } else {
            self.process_section_header(directive_name.as_str());
        }
    }

    /// The first pass: walk the instructions in order, collecting labels,
    /// sections, read-only data and faults; then move to the second phase.
    fn process_first_phase(&mut self, p: &Program)
        ensures
            final(self)@.st == run_first_pass(p@, old(self)@.st),
            final(self)@.phase == AssemblerPhase::Second,
            final(self)@.bytecode == old(self)@.bytecode,
    {
        let ghost st0 = self@.st;
        proof {
            assert(p@.skip(0) =~= p@);
        }
        let mut idx: usize = 0;
        while idx < p.instructions.len()
            invariant
                0 <= idx <= p.instructions.len(),
                p@.len() == p.instructions.len(),
                run_first_pass(p@, st0) == run_first_pass(p@.skip(idx as int), self@.st),
                self@.phase == old(self)@.phase,
                self@.bytecode == old(self)@.bytecode,
            decreases p.instructions.len() - idx,
        {
            let i = &p.instructions[idx];
            proof {
                assert(p.instructions@[idx as int].deep_view() == p@[idx as int]);
            }
            let ghost st_pre = self@.st;
            if i.is_label() {
                if self.current_section.is_some() {
                    self.process_label_declaration(i);
                } else {
                    self.errors.push(
                        AssemblerError::NoSegmentDeclarationFound {
                            instruction: self.current_instruction,
                        },
                    );
                    proof {
                        assert(self.errors.deep_view() =~= st_pre.errors.push(
                            ErrModel::NoSegmentDeclarationFound {
                                instruction: st_pre.current_instruction,
                            },
                        ));
                    }
                }
            }
            let ghost st_mid = self@.st;
            if i.is_directive() {
                self.process_directive(i);
            }
            self.current_instruction = self.current_instruction.wrapping_add(1);
            proof {
                assert(self@.st =~= first_pass_step(st_pre, p@[idx as int]));
                assert(p@.skip(idx as int)[0] == p@[idx as int]);
                assert(p@.skip(idx as int).skip(1) =~= p@.skip(idx as int + 1));
            }
            idx += 1;
        }
        proof {
            assert(p@.skip(p@.len() as int) =~= Seq::<InstrModel>::empty());
        }
        self.phase = AssemblerPhase::Second;
    }

    /// The second pass: emit one 4-byte frame for every opcode line, in
    /// source order, resolving label uses through the symbol table.
    fn process_second_phase(&mut self, p: &Program) -> (r: Vec<u8>)
        ensures
            r@ == body_bytes(p@, old(self)@.st.symbols),
            final(self)@.st == (PassState {
                current_instruction: stepped(0, p@.len() as nat),
                ..old(self)@.st
            }),
            final(self)@.phase == old(self)@.phase,
            final(self)@.bytecode == old(self)@.bytecode,
    {
        let ghost st0 = self@.st;
        self.current_instruction = 0;
        let mut program: Vec<u8> = Vec::new();
        let mut idx: usize = 0;
        while idx < p.instructions.len()
            invariant
                0 <= idx <= p.instructions.len(),
                p@.len() == p.instructions.len(),
                program@ == body_bytes(p@.take(idx as int), st0.symbols),
                self@.st == (PassState { current_instruction: stepped(0, idx as nat), ..st0 }),
                self@.phase == old(self)@.phase,
                self@.bytecode == old(self)@.bytecode,
            decreases p.instructions.len() - idx,
        {
            let i = &p.instructions[idx];
            proof {
                assert(p.instructions@[idx as int].deep_view() == p@[idx as int]);
            }
            if i.is_opcode() {
                let mut bytes = i.to_bytes(&self.symbols);
                program.append(&mut bytes);
            }
            proof {
                assert(p@.take(idx as int + 1).drop_last() =~= p@.take(idx as int));
                assert(p@.take(idx as int + 1).last() == p@[idx as int]);
            }
            self.current_instruction = self.current_instruction.wrapping_add(1);
            idx += 1;
        }
        proof {
            assert(p@.take(p@.len() as int) =~= p@);
        }
        program
    }

    /// An exact copy of the accumulated faults.
    fn clone_errors(&self) -> (r: Vec<AssemblerError>)
        ensures
            r.deep_view() == self@.st.errors,
    {
        let mut out: Vec<AssemblerError> = Vec::new();
        let mut idx: usize = 0;
        while idx < self.errors.len()
            invariant
                0 <= idx <= self.errors.len(),
                self@.st.errors.len() == self.errors.len(),
                out.deep_view() == self@.st.errors.take(idx as int),
            decreases self.errors.len() - idx,
        {
            let e = match &self.errors[idx] {
                AssemblerError::ParseError { error } => AssemblerError::ParseError {
                    error: error.clone(),
                },
                AssemblerError::NoSegmentDeclarationFound { instruction } => {
                    AssemblerError::NoSegmentDeclarationFound { instruction: *instruction }
                },
                AssemblerError::SymbolAlreadyDeclared { name } => {
                    AssemblerError::SymbolAlreadyDeclared { name: name.clone() }
                },
                AssemblerError::UnknownDirectiveFound { directive } => {
                    AssemblerError::UnknownDirectiveFound { directive: directive.clone() }
                },
                AssemblerError::InsufficientSections => AssemblerError::InsufficientSections,
                AssemblerError::StringConstantDeclaredWithoutLabel { instruction } => {
                    AssemblerError::StringConstantDeclaredWithoutLabel {
                        instruction: *instruction,
                    }
                },
            };
            out.push(e);
            proof {
                assert(self@.st.errors.take(idx as int + 1) =~= self@.st.errors.take(
                    idx as int,
                ).push(self@.st.errors[idx as int]));
                assert(out.deep_view() =~= self@.st.errors.take(idx as int + 1));
            }
            idx += 1;
        }
        proof {
            assert(self@.st.errors.take(self@.st.errors.len() as int) =~= self@.st.errors);
        }
        out
    }

    /// Whether both a `.data` and a `.code` section were seen.
    fn has_both_sections(&self) -> (r: bool)
        ensures
            r == (spec_has_data(self@.st.sections) && spec_has_code(self@.st.sections)),
    {
        let mut found_data = false;
        let mut found_code = false;
        let mut idx: usize = 0;
        while idx < self.sections.len()
            invariant
                0 <= idx <= self.sections.len(),
                self@.st.sections.len() == self.sections.len(),
                found_data == spec_has_data(self@.st.sections.take(idx as int)),
                found_code == spec_has_code(self@.st.sections.take(idx as int)),
            decreases self.sections.len() - idx,
        {
            let ghost pre = self@.st.sections.take(idx as int);
            let ghost post = self@.st.sections.take(idx as int + 1);
            proof {
                assert(post.drop_last() =~= pre);
                assert(post.last() == self@.st.sections[idx as int]);
                assert forall|j: int| 0 <= j < post.len() implies post[j] == (
                if j < idx as int {
                    pre[j]
                } else {
                    self@.st.sections[idx as int]
                }) by {}
            }
            match &self.sections[idx] {
                AssemblerSection::Data { .. } => {
                    found_data = true;
                },
                AssemblerSection::Code { .. } => {
                    found_code = true;
                },
                AssemblerSection::Unknown => {},
            }
            proof {
                if spec_has_data(post) && !spec_has_data(pre) {
                    let j = choose|j: int|
                        0 <= j < post.len() && #[trigger] post[j] matches AssemblerSection::Data {
                            ..
                        };
                    assert(j == idx as int);
                }
                if spec_has_code(post) && !spec_has_code(pre) {
                    let j = choose|j: int|
                        0 <= j < post.len() && #[trigger] post[j] matches AssemblerSection::Code {
                            ..
                        };
                    assert(j == idx as int);
                }
                if self@.st.sections[idx as int] matches AssemblerSection::Data { .. } {
                    assert(post[idx as int] matches AssemblerSection::Data { .. });
                    assert(spec_has_data(post));
                }
                if self@.st.sections[idx as int] matches AssemblerSection::Code { .. } {
                    assert(post[idx as int] matches AssemblerSection::Code { .. });
                    assert(spec_has_code(post));
                }
            }
            idx += 1;
        }
        proof {
            assert(self@.st.sections.take(self@.st.sections.len() as int) =~= self@.st.sections);
        }
        found_data && found_code
    }

    /// Assemble a source into a bytecode image. The assembler must be
    /// fresh — still in its first phase; one instance assembles one source.
    ///
    /// On a parse failure a single `ParseError` comes back and the
    /// assembler is untouched. Otherwise the first pass runs; its faults,
    /// if any, come back in order. A source whose first pass is clean but
    /// that lacks a `.data` or a `.code` section is rejected with
    /// `InsufficientSections`. Otherwise the image is the 64-byte header
    /// followed by one 4-byte frame per opcode line.
    pub fn assemble(&mut self, raw: &str) -> (r: Result<Vec<u8>, Vec<AssemblerError>>)
        requires
            old(self)@.phase == AssemblerPhase::First,
        ensures
            spec_parse_program(raw.spec_bytes()) is None ==> (r matches Err(e) && {
                &&& e.deep_view().len() == 1
                &&& e.deep_view()[0] is ParseError
                &&& final(self)@ == old(self)@
            }),
            spec_parse_program(raw.spec_bytes()) matches Some(instrs) ==> ({
                let fin = run_first_pass(instrs, old(self)@.st);
                &&& (fin.errors.len() > 0 ==> (r matches Err(e) && {
                    &&& e.deep_view() == fin.errors
                    &&& final(self)@.st == fin
                    &&& final(self)@.phase == AssemblerPhase::Second
                }))
                &&& ((fin.errors.len() == 0 && !(spec_has_data(fin.sections) && spec_has_code(
                    fin.sections,
                ))) ==> (r matches Err(e) && {
                    &&& e.deep_view() == fin.errors.push(ErrModel::InsufficientSections)
                    &&& final(self)@.st == (PassState {
                        errors: fin.errors.push(ErrModel::InsufficientSections),
                        ..fin
                    })
                    &&& final(self)@.phase == AssemblerPhase::Second
                }))
                &&& ((fin.errors.len() == 0 && spec_has_data(fin.sections) && spec_has_code(
                    fin.sections,
                )) ==> (r matches Ok(image) && {
                    &&& image@ == spec_header() + body_bytes(instrs, fin.symbols)
                    &&& final(self)@.st == (PassState {
                        current_instruction: stepped(0, instrs.len()),
                        ..fin
                    })
                    &&& final(self)@.phase == AssemblerPhase::Second
                }))
            }),
            final(self)@.bytecode == old(self)@.bytecode,
    {
        let program = match parse_program(raw) {
            Ok(p) => p,
            Err(msg) => {
                let errs = vec![AssemblerError::ParseError { error: msg }];
                proof {
                    assert(errs.deep_view() =~= seq![
                        ErrModel::ParseError { error: encode_utf8(errs@[0]->ParseError_error@) },
                    ]);
                }
                return Err(errs);
            },
        };
        self.process_first_phase(&program);
        if self.errors.len() > 0 {
            return Err(self.clone_errors());
        }
        if !self.has_both_sections() {
            let ghost fin = self@.st;
            self.errors.push(AssemblerError::InsufficientSections);
            proof {
                assert(self.errors.deep_view() =~= fin.errors.push(
                    ErrModel::InsufficientSections,
                ));
                assert(self@.st =~= (PassState {
                    errors: fin.errors.push(ErrModel::InsufficientSections),
                    ..fin
                }));
            }
            return Err(self.clone_errors());
        }
        let mut body = self.process_second_phase(&program);
        let mut assembled_program = self.write_pie_header();
        assembled_program.append(&mut body);
        Ok(assembled_program)
    }
}


} // verus!
