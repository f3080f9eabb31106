//! Properties that hold across the toolchain, each proved once and for
//! all: the shape of every emitted image, the recoverability of the opcode
//! sequence from a code body, what a `LOAD` leaves in its register, and how
//! the program counter moves.

use vstd::prelude::*;
use crate::instruction::{Opcode, opcode_of_byte, opcode_to_byte, lemma_opcode_byte_roundtrip};
use crate::parser::{InstrModel, instr_bytes, body_bytes, frame4, opt_operand_bytes};
use crate::symbols::SymbolModel;
use crate::tokens::TokenModel;
use crate::assembler::{
    spec_header, PassState, ErrModel, run_first_pass, first_pass_step, spec_label_offset,
    spec_label_decl, spec_process_directive, stepped, lemma_stepped_no_wrap,
};
use crate::symbols::{spec_has_symbol, spec_set_offset};
use crate::vm::{VmModel, spec_step, next4, imm16};

verus! {

/// Every image is the 64-byte header followed by the code body: it opens
/// with the 4-byte magic and is at least 64 bytes long.
pub proof fn lemma_image_well_formed(instrs: Seq<InstrModel>, syms: Seq<SymbolModel>)
    ensures
        (spec_header() + body_bytes(instrs, syms)).len() >= 64,
        (spec_header() + body_bytes(instrs, syms))[0] == 45,
        (spec_header() + body_bytes(instrs, syms))[1] == 50,
        (spec_header() + body_bytes(instrs, syms))[2] == 49,
        (spec_header() + body_bytes(instrs, syms))[3] == 45,
{
}

/// The opcodes of a program's opcode lines, in source order.
pub open spec fn opcodes_of(instrs: Seq<InstrModel>) -> Seq<Opcode>
    decreases instrs.len(),
{
    if instrs.len() == 0 {
        Seq::empty()
    } else {
        opcodes_of(instrs.drop_last()) + (match instrs.last().opcode {
            Some(TokenModel::Op { code }) => seq![code],
            _ => Seq::<Opcode>::empty(),
        })
    }
}

/// An opcode line's frame is exactly 4 bytes and opens with its opcode's
/// byte.
proof fn lemma_frame_shape(m: InstrModel, syms: Seq<SymbolModel>)
    requires
        m.opcode matches Some(t) && t matches TokenModel::Op { .. },
    ensures
        instr_bytes(m, syms).len() == 4,
        opcode_of_byte(instr_bytes(m, syms)[0]) == line_opcode(m),
{
    let code = m.opcode.unwrap()->Op_code;
    let raw = seq![opcode_to_byte(code)] + opt_operand_bytes(m.operand1, syms)
        + opt_operand_bytes(m.operand2, syms) + opt_operand_bytes(m.operand3, syms);
    assert(raw.len() >= 1);
    assert(instr_bytes(m, syms) == frame4(raw));
    assert(frame4(raw).len() == 4);
    assert(frame4(raw)[0] == raw[0]);
    lemma_opcode_byte_roundtrip(code);
}

/// The opcode of an opcode line.
pub open spec fn line_opcode(m: InstrModel) -> Opcode {
    m.opcode.unwrap()->Op_code
}

/// Disassembly round trip: a code body is one 4-byte frame per opcode
/// line, and reading the first byte of each frame recovers the opcode
/// sequence of the source.
pub proof fn lemma_body_disassembles(instrs: Seq<InstrModel>, syms: Seq<SymbolModel>)
    ensures
        body_bytes(instrs, syms).len() == 4 * opcodes_of(instrs).len(),
        forall|k: int|
            0 <= k < opcodes_of(instrs).len() ==> opcode_of_byte(
                body_bytes(instrs, syms)[4 * k],
            ) == opcodes_of(instrs)[k],
    decreases instrs.len(),
{
    if instrs.len() == 0 {
    } else {
        let head = instrs.drop_last();
        let m = instrs.last();
        lemma_body_disassembles(head, syms);
        let body_h = body_bytes(head, syms);
        let ops_h = opcodes_of(head);
        match m.opcode {
            Some(TokenModel::Op { code }) => {
                lemma_frame_shape(m, syms);
                let frame = instr_bytes(m, syms);
                assert(opcodes_of(instrs) =~= ops_h.push(code));
                assert forall|k: int| 0 <= k < opcodes_of(instrs).len() implies opcode_of_byte(
                    body_bytes(instrs, syms)[4 * k],
                ) == opcodes_of(instrs)[k] by {
                    if k < ops_h.len() {
                        assert(body_bytes(instrs, syms)[4 * k] == body_h[4 * k]);
                    } else {
                        assert(body_bytes(instrs, syms)[4 * k] == frame[0]);
                    }
                }
            },
            _ => {
                assert(instr_bytes(m, syms) =~= Seq::<u8>::empty());
                assert(body_bytes(instrs, syms) =~= body_h);
                assert(opcodes_of(instrs) =~= ops_h);
            },
        }
    }
}

/// The 16-bit big-endian encoding of a value below 65536 reads back as
/// that value.
proof fn lemma_imm16_roundtrip(v: u16)
    ensures
        imm16(((v >> 8u16) as u8), (v as u8)) == v,
{
    assert(((v >> 8u16) as u8) as u32 * 256 + ((v as u8) as u32) == v as u32) by (bit_vector);
}

/// `LOAD` round trip: executing the frame the assembler emits for
/// `load $reg #v`, with `v` in `0..=65535`, leaves register `reg` holding
/// exactly `v` and advances the program counter past the frame.
pub proof fn lemma_load_roundtrip(s: VmModel, m: InstrModel, syms: Seq<SymbolModel>, v: i32, reg: u8)
    requires
        m.opcode == Some(TokenModel::Op { code: Opcode::LOAD }),
        m.operand1 == Some(TokenModel::Register { reg_num: reg }),
        m.operand2 == Some(TokenModel::IntegerOperand { value: v }),
        m.operand3 is None,
        0 <= v <= 65535,
        reg < 32,
        0 <= s.pc,
        s.pc + 4 <= s.program.len(),
        s.program.subrange(s.pc, s.pc + 4) == instr_bytes(m, syms),
    ensures
        !spec_step(s).1,
        spec_step(s).0.registers == s.registers.update(reg as int, v),
        spec_step(s).0.pc == s.pc + 4,
{
    let raw = seq![opcode_to_byte(Opcode::LOAD)] + opt_operand_bytes(m.operand1, syms)
        + opt_operand_bytes(m.operand2, syms) + opt_operand_bytes(m.operand3, syms);
    let hi = ((v as u16) >> 8u16) as u8;
    let lo = (v as u16) as u8;
    assert(raw =~= seq![1u8, reg, hi, lo]);
    let frame = frame4(raw);
    assert(frame =~= seq![1u8, reg, hi, lo]);
    assert(s.program[s.pc] == frame[0]);
    assert(s.program[s.pc + 1] == frame[1]);
    assert(s.program[s.pc + 2] == frame[2]);
    assert(s.program[s.pc + 3] == frame[3]);
    lemma_imm16_roundtrip(v as u16);
    assert(imm16(hi, lo) == v as u16);
    assert(imm16(hi, lo) as i32 == v);
}

/// Whether an opcode can reassign the program counter.
pub open spec fn is_branch(o: Opcode) -> bool {
    o == Opcode::JMP || o == Opcode::JMPF || o == Opcode::JMPB || o == Opcode::JEQ
}

/// How the program counter moves: after any step that continues the run, a
/// non-branching instruction has advanced the counter past its frame —
/// exactly 4 bytes beyond its opcode byte when the full frame is there —
/// and in particular the counter only ever grows outside the branching
/// opcodes.
#[verifier::rlimit(60)]
pub proof fn lemma_step_pc(s: VmModel)
    requires
        0 <= s.pc < s.program.len(),
    ensures
        !spec_step(s).1 && !is_branch(opcode_of_byte(s.program[s.pc])) ==> spec_step(s).0.pc
            == next4(s.pc, s.program.len() as int),
        !spec_step(s).1 && !is_branch(opcode_of_byte(s.program[s.pc])) ==> spec_step(s).0.pc
            > s.pc,
{
}


// ---------------------------------------------------------------------------
// The first pass and its symbol table
// ---------------------------------------------------------------------------

/// A symbol's offset is well placed: it is the tentative code offset of
/// some already-counted source line, or it points into the read-only area
/// at a zero-terminated region.
pub open spec fn symbol_ok(sym: SymbolModel, cnt: u32, ro: Seq<u8>) -> bool {
    sym.offset matches Some(o) && {
        ||| (exists|i: u32| i < cnt && o == #[trigger] spec_label_offset(i))
        ||| (o < ro.len() && exists|p: int| o <= p < ro.len() && ro[p] == 0)
    }
}

/// The first-pass state invariant: the read-only offset counter tracks the
/// read-only area's length, and every symbol is well placed.
pub open spec fn pass_wf(st: PassState) -> bool {
    &&& st.ro_offset as int == st.ro.len()
    &&& forall|k: int|
        0 <= k < st.symbols.len() ==> symbol_ok(
            #[trigger] st.symbols[k],
            st.current_instruction,
            st.ro,
        )
}

/// Re-pointing a symbol changes nothing but the first symbol of the given
/// name, whose offset becomes the given one.
proof fn lemma_set_offset_pointwise(syms: Seq<SymbolModel>, name: Seq<u8>, offset: u32)
    ensures
        spec_set_offset(syms, name, offset).len() == syms.len(),
        forall|j: int|
            0 <= j < syms.len() ==> (#[trigger] spec_set_offset(syms, name, offset)[j] == syms[j]
                || spec_set_offset(syms, name, offset)[j] == (SymbolModel {
                name: syms[j].name,
                offset: Some(offset),
            })),
    decreases syms.len(),
{
    if syms.len() > 0 {
        lemma_set_offset_pointwise(syms.skip(1), name, offset);
        assert forall|j: int|
            0 <= j < syms.len() implies (#[trigger] spec_set_offset(syms, name, offset)[j]
            == syms[j] || spec_set_offset(syms, name, offset)[j] == (SymbolModel {
            name: syms[j].name,
            offset: Some(offset),
        })) by {
            if j > 0 {
                assert(syms.skip(1)[j - 1] == syms[j]);
                if syms[0].name != name {
                    assert(spec_set_offset(syms, name, offset)[j] == spec_set_offset(
                        syms.skip(1),
                        name,
                        offset,
                    )[j - 1]);
                }
            }
        }
    }
}

/// One first-pass step never shrinks the read-only area.
proof fn lemma_step_ro_grows(st: PassState, m: InstrModel)
    ensures
        first_pass_step(st, m).ro.len() >= st.ro.len(),
        st.current_instruction < u32::MAX ==> first_pass_step(st, m).current_instruction
            == st.current_instruction + 1,
{
}

/// A whole run never shrinks the read-only area.
proof fn lemma_run_ro_grows(instrs: Seq<InstrModel>, st: PassState)
    ensures
        run_first_pass(instrs, st).ro.len() >= st.ro.len(),
    decreases instrs.len(),
{
    if instrs.len() > 0 {
        lemma_step_ro_grows(st, instrs[0]);
        lemma_run_ro_grows(instrs.skip(1), first_pass_step(st, instrs[0]));
    }
}

/// A well-placed symbol stays well placed as the line counter grows.
proof fn lemma_symbol_ok_cnt_mono(sym: SymbolModel, cnt: u32, cnt2: u32, ro: Seq<u8>)
    requires
        symbol_ok(sym, cnt, ro),
        cnt <= cnt2,
    ensures
        symbol_ok(sym, cnt2, ro),
{
    let o = sym.offset.unwrap();
    if exists|i: u32| i < cnt && o == #[trigger] spec_label_offset(i) {
        let i = choose|i: u32| i < cnt && o == #[trigger] spec_label_offset(i);
        assert(i < cnt2 && o == spec_label_offset(i));
    }
}

/// A well-placed symbol stays well placed as the read-only area grows.
proof fn lemma_symbol_ok_ro_grow(sym: SymbolModel, cnt: u32, ro: Seq<u8>, ro2: Seq<u8>)
    requires
        symbol_ok(sym, cnt, ro),
        ro.len() <= ro2.len(),
        forall|p: int| 0 <= p < ro.len() ==> ro2[p] == ro[p],
    ensures
        symbol_ok(sym, cnt, ro2),
{
    let o = sym.offset.unwrap();
    if !(exists|i: u32| i < cnt && o == #[trigger] spec_label_offset(i)) {
        let p = choose|p: int| o <= p < ro.len() && ro[p] == 0;
        assert(o <= p < ro2.len() && ro2[p] == 0);
    }
}

/// One step keeps the first-pass invariant, as long as neither 32-bit
/// counter wraps.
proof fn lemma_step_wf(st: PassState, m: InstrModel)
    requires
        pass_wf(st),
        st.current_instruction < u32::MAX,
        first_pass_step(st, m).ro.len() <= u32::MAX,
    ensures
        pass_wf(first_pass_step(st, m)),
{
    let cnt = st.current_instruction;
    let cnt1 = (cnt + 1) as u32;
    let st1 = if m.label is Some {
        if st.current_section is Some {
            spec_label_decl(st, m)
        } else {
            PassState {
                errors: st.errors.push(
                    ErrModel::NoSegmentDeclarationFound { instruction: st.current_instruction },
                ),
                ..st
            }
        }
    } else {
        st
    };
    assert(st1.ro == st.ro && st1.ro_offset == st.ro_offset);
    assert forall|k: int| 0 <= k < st1.symbols.len() implies symbol_ok(
        #[trigger] st1.symbols[k],
        cnt1,
        st1.ro,
    ) by {
        if k < st.symbols.len() && st1.symbols[k] == st.symbols[k] {
            lemma_symbol_ok_cnt_mono(st.symbols[k], cnt, cnt1, st.ro);
        } else {
            // the freshly declared label: its offset is this line's
            assert(st1.symbols[k].offset == Some(spec_label_offset(cnt)));
            assert(cnt < cnt1 && st1.symbols[k].offset.unwrap() == spec_label_offset(cnt));
        }
    }
    let st2 = if m.directive is Some {
        spec_process_directive(st1, m)
    } else {
        st1
    };
    let fin = first_pass_step(st, m);
    assert(fin == (PassState { current_instruction: st2.current_instruction.wrapping_add(1), ..st2 }));
    if m.directive is Some && st2 != st1 {
        match m.directive.unwrap() {
            TokenModel::Directive { name } => {
                if m.operand1 is Some && name == crate::assembler::spec_asciiz_name()
                    && (m.operand1.unwrap() matches TokenModel::IrString { .. })
                    && (m.label matches Some(TokenModel::LabelDeclaration { .. })) {
                    let text = m.operand1.unwrap()->IrString_name;
                    let lbl = m.label.unwrap()->LabelDeclaration_name;
                    let ro2 = st1.ro + text + seq![0u8];
                    assert(st2.symbols == spec_set_offset(st1.symbols, lbl, st1.ro_offset));
                    assert(st2.ro == ro2);
                    lemma_set_offset_pointwise(st1.symbols, lbl, st1.ro_offset);
                    assert(ro2[st1.ro.len() + text.len() as int] == 0);
                    assert forall|k: int| 0 <= k < st2.symbols.len() implies symbol_ok(
                        #[trigger] st2.symbols[k],
                        cnt1,
                        st2.ro,
                    ) by {
                        if st2.symbols[k] == st1.symbols[k] {
                            assert forall|p: int| 0 <= p < st1.ro.len() implies ro2[p]
                                == st1.ro[p] by {}
                            lemma_symbol_ok_ro_grow(st1.symbols[k], cnt1, st1.ro, ro2);
                        } else {
                            // the re-pointed label: it points at the string
                            // just appended, whose terminator closes it
                            assert(st2.symbols[k].offset == Some(st1.ro_offset));
                            let o = st1.ro_offset as int;
                            assert(o == st1.ro.len());
                            let p = st1.ro.len() + text.len() as int;
                            assert(o <= p);
                            assert(p < ro2.len());
                            assert(ro2[st1.ro.len() + text.len() as int] == 0);
                        }
                    }
                    // the offset counter tracks the grown area
                    assert(st2.ro_offset == stepped(st1.ro_offset, (text.len() + 1) as nat));
                    lemma_stepped_no_wrap(st1.ro_offset, (text.len() + 1) as nat);
                } else {
                    // every other directive outcome leaves symbols and ro alone
                    assert(st2.symbols == st1.symbols && st2.ro == st1.ro && st2.ro_offset
                        == st1.ro_offset);
                    assert forall|k: int| 0 <= k < st2.symbols.len() implies symbol_ok(
                        #[trigger] st2.symbols[k],
                        cnt1,
                        st2.ro,
                    ) by {}
                }
            },
            _ => {},
        }
    }
    assert(pass_wf(fin)) by {
        assert(fin.current_instruction == cnt1);
        assert(fin.symbols == st2.symbols && fin.ro == st2.ro && fin.ro_offset == st2.ro_offset);
    }
}

/// A whole run keeps the first-pass invariant, as long as neither 32-bit
/// counter wraps.
proof fn lemma_run_wf(instrs: Seq<InstrModel>, st: PassState)
    requires
        pass_wf(st),
        st.current_instruction + instrs.len() <= u32::MAX,
        run_first_pass(instrs, st).ro.len() <= u32::MAX,
    ensures
        pass_wf(run_first_pass(instrs, st)),
        run_first_pass(instrs, st).current_instruction == st.current_instruction + instrs.len(),
    decreases instrs.len(),
{
    if instrs.len() > 0 {
        let st1 = first_pass_step(st, instrs[0]);
        lemma_run_ro_grows(instrs.skip(1), st1);
        lemma_step_wf(st, instrs[0]);
        lemma_step_ro_grows(st, instrs[0]);
        lemma_run_wf(instrs.skip(1), st1);
    }
}

/// The tentative code offset is plainly `4 i + 64` while it fits 32 bits.
pub proof fn lemma_label_offset_plain(i: u32)
    requires
        4 * i + 64 <= u32::MAX,
    ensures
        spec_label_offset(i) == 4 * i + 64,
{
}

/// Where every symbol of a finished first pass points, starting from a
/// fresh assembler: at the tentative code offset `4 i + 64` of some source
/// line `i`, or into the read-only area at a zero-terminated region. The
/// hypotheses only rule out sources so large that a 32-bit counter wraps.
pub proof fn lemma_symbols_well_placed(instrs: Seq<InstrModel>, st0: PassState)
    requires
        st0.symbols.len() == 0,
        st0.ro.len() == 0,
        st0.ro_offset == 0,
        st0.current_instruction == 0,
        instrs.len() <= u32::MAX,
        run_first_pass(instrs, st0).ro.len() <= u32::MAX,
    ensures
        forall|k: int|
            0 <= k < run_first_pass(instrs, st0).symbols.len() ==> symbol_ok(
                #[trigger] run_first_pass(instrs, st0).symbols[k],
                (instrs.len() as u32),
                run_first_pass(instrs, st0).ro,
            ),
{
    lemma_run_wf(instrs, st0);
}

// ---------------------------------------------------------------------------
// Duplicate labels
// ---------------------------------------------------------------------------

/// One step only appends faults.
proof fn lemma_step_errors_grow(st: PassState, m: InstrModel)
    ensures
        st.errors.is_prefix_of(first_pass_step(st, m).errors),
{
    assert(st.errors.is_prefix_of(st.errors.push(ErrModel::NoSegmentDeclarationFound {
        instruction: st.current_instruction,
    }))) by {
        assert(st.errors =~= st.errors.push(ErrModel::NoSegmentDeclarationFound {
            instruction: st.current_instruction,
        }).take(st.errors.len() as int));
    }
    let st1 = if m.label is Some && st.current_section is Some {
        spec_label_decl(st, m)
    } else {
        st
    };
    assert(st.errors.is_prefix_of(st1.errors)) by {
        if st1.errors != st.errors {
            assert(st.errors =~= st1.errors.take(st.errors.len() as int));
        } else {
            assert(st.errors =~= st1.errors.take(st.errors.len() as int));
        }
    }
    let st2 = if m.directive is Some {
        spec_process_directive(st1, m)
    } else {
        st1
    };
    assert(st1.errors.is_prefix_of(st2.errors)) by {
        if st2.errors != st1.errors {
            assert(st1.errors =~= st2.errors.take(st1.errors.len() as int));
        } else {
            assert(st1.errors =~= st2.errors.take(st1.errors.len() as int));
        }
    }
    assert(st.errors =~= first_pass_step(st, m).errors.take(st.errors.len() as int));
}

/// A fault, once recorded, stays.
proof fn lemma_run_keeps_error(instrs: Seq<InstrModel>, st: PassState, e: ErrModel)
    requires
        st.errors.contains(e),
    ensures
        run_first_pass(instrs, st).errors.contains(e),
    decreases instrs.len(),
{
    if instrs.len() > 0 {
        let st1 = first_pass_step(st, instrs[0]);
        lemma_step_errors_grow(st, instrs[0]);
        let j = choose|j: int| 0 <= j < st.errors.len() && st.errors[j] == e;
        assert(st1.errors[j] == e);
        lemma_run_keeps_error(instrs.skip(1), st1, e);
    }
}

/// A name, once in the table, stays.
proof fn lemma_run_keeps_symbol(instrs: Seq<InstrModel>, st: PassState, x: Seq<u8>)
    requires
        spec_has_symbol(st.symbols, x),
    ensures
        spec_has_symbol(run_first_pass(instrs, st).symbols, x),
    decreases instrs.len(),
{
    if instrs.len() > 0 {
        let m = instrs[0];
        let st1 = first_pass_step(st, m);
        assert(spec_has_symbol(st1.symbols, x)) by {
            let j = choose|j: int| 0 <= j < st.symbols.len() && st.symbols[j].name == x;
            let sta = if m.label is Some && st.current_section is Some {
                spec_label_decl(st, m)
            } else {
                st
            };
            assert(sta.symbols[j].name == x);
            if m.directive is Some {
                let stb = spec_process_directive(sta, m);
                if stb.symbols != sta.symbols {
                    // only an asciiz re-pointing changes the table, and it
                    // keeps every name
                    let lbl = m.label.unwrap()->LabelDeclaration_name;
                    assert(stb.symbols == spec_set_offset(sta.symbols, lbl, sta.ro_offset));
                    lemma_set_offset_pointwise(sta.symbols, lbl, sta.ro_offset);
                    assert(stb.symbols[j].name == x);
                } else {
                    assert(stb.symbols[j].name == x);
                }
                assert(st1.symbols == stb.symbols);
            } else {
                assert(st1.symbols == sta.symbols);
            }
        }
        lemma_run_keeps_symbol(instrs.skip(1), st1, x);
    }
}

/// Splitting a run at a line: running the whole source equals running its
/// first `k` lines and then the rest.
proof fn lemma_run_split(instrs: Seq<InstrModel>, st: PassState, k: int)
    requires
        0 <= k <= instrs.len(),
    ensures
        run_first_pass(instrs, st) == run_first_pass(
            instrs.skip(k),
            run_first_pass(instrs.take(k), st),
        ),
    decreases k,
{
    if k == 0 {
        assert(instrs.take(0) =~= Seq::<InstrModel>::empty());
        assert(instrs.skip(0) =~= instrs);
    } else {
        let st1 = first_pass_step(st, instrs[0]);
        assert(instrs.take(k)[0] == instrs[0]);
        assert(instrs.take(k).skip(1) =~= instrs.skip(1).take(k - 1));
        assert(instrs.skip(k) =~= instrs.skip(1).skip(k - 1));
        lemma_run_split(instrs.skip(1), st1, k - 1);
    }
}

/// Declaring a label that the table already holds, inside a section,
/// records `SymbolAlreadyDeclared` for that name.
proof fn lemma_step_duplicate(st: PassState, m: InstrModel, x: Seq<u8>)
    requires
        st.current_section is Some,
        m.label == Some(TokenModel::LabelDeclaration { name: x }),
        spec_has_symbol(st.symbols, x),
    ensures
        first_pass_step(st, m).errors.contains(ErrModel::SymbolAlreadyDeclared { name: x }),
{
    let st1 = spec_label_decl(st, m);
    assert(st1.errors.last() == ErrModel::SymbolAlreadyDeclared { name: x });
    assert(st1.errors.contains(ErrModel::SymbolAlreadyDeclared { name: x }));
    if m.directive is Some {
        let st2 = spec_process_directive(st1, m);
        assert(st1.errors.is_prefix_of(st2.errors)) by {
            if st2.errors != st1.errors {
                assert(st1.errors =~= st2.errors.take(st1.errors.len() as int));
            } else {
                assert(st1.errors =~= st2.errors.take(st1.errors.len() as int));
            }
        }
        let j = choose|j: int|
            0 <= j < st1.errors.len() && st1.errors[j] == ErrModel::SymbolAlreadyDeclared {
                name: x,
            };
        assert(st2.errors[j] == ErrModel::SymbolAlreadyDeclared { name: x });
    }
}

/// Declaring a fresh label inside a section enters it in the table.
proof fn lemma_step_declares(st: PassState, m: InstrModel, x: Seq<u8>)
    requires
        st.current_section is Some,
        m.label == Some(TokenModel::LabelDeclaration { name: x }),
    ensures
        spec_has_symbol(first_pass_step(st, m).symbols, x),
{
    let st1 = spec_label_decl(st, m);
    assert(spec_has_symbol(st1.symbols, x)) by {
        if spec_has_symbol(st.symbols, x) {
            let j = choose|j: int| 0 <= j < st.symbols.len() && st.symbols[j].name == x;
            assert(st1.symbols[j].name == x);
        } else {
            assert(st1.symbols.last().name == x);
        }
    }
    if m.directive is Some {
        let st2 = spec_process_directive(st1, m);
        assert(spec_has_symbol(st2.symbols, x)) by {
            let j = choose|j: int| 0 <= j < st1.symbols.len() && st1.symbols[j].name == x;
            if st2.symbols != st1.symbols {
                match m.directive.unwrap() {
                    TokenModel::Directive { name } => {
                        if m.operand1 is Some && name == crate::assembler::spec_asciiz_name() {
                            match m.operand1.unwrap() {
                                TokenModel::IrString { name: _text } => {
                                    match m.label {
                                        Some(TokenModel::LabelDeclaration { name: lbl }) => {
                                            lemma_set_offset_pointwise(
                                                st1.symbols,
                                                lbl,
                                                st1.ro_offset,
                                            );
                                            assert(st2.symbols[j].name == x);
                                        },
                                        _ => {},
                                    }
                                },
                                _ => {},
                            }
                        }
                    },
                    _ => {},
                }
            } else {
                assert(st2.symbols[j].name == x);
            }
        }
    }
}

/// Duplicate label declarations are rejected: when two lines both declare
/// the name `x`, each with a section already open, the finished first pass
/// holds a `SymbolAlreadyDeclared` fault for `x` — and the assembler then
/// returns the faults instead of an image.
pub proof fn lemma_duplicate_label_rejected(
    instrs: Seq<InstrModel>,
    st0: PassState,
    i: int,
    j: int,
    x: Seq<u8>,
)
    requires
        0 <= i < j < instrs.len(),
        instrs[i].label == Some(TokenModel::LabelDeclaration { name: x }),
        instrs[j].label == Some(TokenModel::LabelDeclaration { name: x }),
        run_first_pass(instrs.take(i), st0).current_section is Some,
        run_first_pass(instrs.take(j), st0).current_section is Some,
    ensures
        run_first_pass(instrs, st0).errors.contains(ErrModel::SymbolAlreadyDeclared { name: x }),
{
    let st_i = run_first_pass(instrs.take(i), st0);
    let st_i1 = first_pass_step(st_i, instrs[i]);
    // running i + 1 lines is running i lines and then stepping once
    lemma_run_split(instrs.take(i + 1), st0, i);
    assert(instrs.take(i + 1).take(i) =~= instrs.take(i));
    assert(instrs.take(i + 1).skip(i) =~= seq![instrs[i]]);
    assert(seq![instrs[i]].skip(1) =~= Seq::<InstrModel>::empty());
    assert(seq![instrs[i]][0] == instrs[i]);
    assert(run_first_pass(seq![instrs[i]], st_i) == run_first_pass(
        seq![instrs[i]].skip(1),
        st_i1,
    ));
    assert(run_first_pass(Seq::<InstrModel>::empty(), st_i1) == st_i1);
    assert(run_first_pass(instrs.take(i + 1), st0) == st_i1);

    if spec_has_symbol(st_i.symbols, x) {
        // the duplicate shows at line i already
        lemma_step_duplicate(st_i, instrs[i], x);
        lemma_run_split(instrs, st0, i + 1);
        assert(instrs.take(i + 1) =~= instrs.take(i + 1));
        lemma_run_keeps_error(
            instrs.skip(i + 1),
            st_i1,
            ErrModel::SymbolAlreadyDeclared { name: x },
        );
    } else {
        // line i enters the name; line j then finds it taken
        lemma_step_declares(st_i, instrs[i], x);
        let st_j = run_first_pass(instrs.take(j), st0);
        lemma_run_split(instrs.take(j), st0, i + 1);
        assert(instrs.take(j).take(i + 1) =~= instrs.take(i + 1));
        lemma_run_keeps_symbol(instrs.take(j).skip(i + 1), st_i1, x);
        assert(spec_has_symbol(st_j.symbols, x));
        lemma_step_duplicate(st_j, instrs[j], x);
        let st_j1 = first_pass_step(st_j, instrs[j]);
        lemma_run_split(instrs.take(j + 1), st0, j);
        assert(instrs.take(j + 1).take(j) =~= instrs.take(j));
        assert(instrs.take(j + 1).skip(j) =~= seq![instrs[j]]);
        assert(seq![instrs[j]].skip(1) =~= Seq::<InstrModel>::empty());
        assert(seq![instrs[j]][0] == instrs[j]);
        assert(run_first_pass(seq![instrs[j]], st_j) == run_first_pass(
            seq![instrs[j]].skip(1),
            st_j1,
        ));
        assert(run_first_pass(Seq::<InstrModel>::empty(), st_j1) == st_j1);
        assert(run_first_pass(instrs.take(j + 1), st0) == st_j1);
        lemma_run_split(instrs, st0, j + 1);
        lemma_run_keeps_error(
            instrs.skip(j + 1),
            st_j1,
            ErrModel::SymbolAlreadyDeclared { name: x },
        );
    }
}


} // verus!
