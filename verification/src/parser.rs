//! The parser for the assembly dialect.
//!
//! A source is a sequence of lines. Every non-blank line must have the shape
//! `[label:] ( opcode | directive ) operand? operand? operand?`, where an
//! operand is a register `$n`, an integer `#n`, a label use `@name` or a
//! quoted string `'...'`. The whole grammar is stated by the `spec` parser
//! over the source's bytes ([`spec_parse_program`]); the executable parser
//! is proved to return exactly what the `spec` parser describes.

use vstd::prelude::*;
use crate::instruction::{Opcode, opcode_of_mnemonic, opcode_to_byte};
use crate::tokens::{Token, TokenModel};
use crate::symbols::{SymbolTable, SymbolModel, spec_symbol_value};
use crate::text::{string_from_utf8, lemma_ascii_valid_utf8, dec_string};
use vstd::slice::slice_to_vec;

verus! {

use vstd::string::StringSliceAdditionalSpecFns;
use vstd::utf8::{encode_utf8, valid_utf8};

/// One parsed source line: at most one label declaration, exactly one of an
/// opcode or a directive, and up to three operands.
#[derive(Debug, PartialEq)]
pub struct AssemblerInstruction {
    pub opcode: Option<Token>,
    pub operand1: Option<Token>,
    pub operand2: Option<Token>,
    pub operand3: Option<Token>,
    pub label: Option<Token>,
    pub directive: Option<Token>,
}

/// The mathematical shape of an [`AssemblerInstruction`].
pub struct InstrModel {
    pub opcode: Option<TokenModel>,
    pub operand1: Option<TokenModel>,
    pub operand2: Option<TokenModel>,
    pub operand3: Option<TokenModel>,
    pub label: Option<TokenModel>,
    pub directive: Option<TokenModel>,
}

/// The view of an optional token.
pub open spec fn opt_token_view(t: Option<Token>) -> Option<TokenModel> {
    match t {
        Some(t) => Some(t.view()),
        None => None,
    }
}

impl View for AssemblerInstruction {
    type V = InstrModel;

    open spec fn view(&self) -> InstrModel {
        InstrModel {
            opcode: opt_token_view(self.opcode),
            operand1: opt_token_view(self.operand1),
            operand2: opt_token_view(self.operand2),
            operand3: opt_token_view(self.operand3),
            label: opt_token_view(self.label),
            directive: opt_token_view(self.directive),
        }
    }
}

impl DeepView for AssemblerInstruction {
    type V = InstrModel;

    open spec fn deep_view(&self) -> InstrModel {
        self.view()
    }
}

/// An ordered sequence of parsed instructions, in source order.
#[derive(Debug, PartialEq)]
pub struct Program {
    pub instructions: Vec<AssemblerInstruction>,
}

impl View for Program {
    type V = Seq<InstrModel>;

    open spec fn view(&self) -> Seq<InstrModel> {
        self.instructions.deep_view()
    }
}

// ---------------------------------------------------------------------------
// Byte classes
// ---------------------------------------------------------------------------

/// Whitespace inside a line: space, tab or carriage return.
pub open spec fn is_space(b: u8) -> bool {
    b == 32 || b == 9 || b == 13
}

/// An ASCII decimal digit.
pub open spec fn is_digit(b: u8) -> bool {
    48 <= b <= 57
}

/// An ASCII letter.
pub open spec fn is_alpha(b: u8) -> bool {
    (65 <= b <= 90) || (97 <= b <= 122)
}

/// A letter, digit or underscore: the bytes an identifier may continue with.
pub open spec fn is_ident(b: u8) -> bool {
    is_alpha(b) || is_digit(b) || b == 95
}

// ---------------------------------------------------------------------------
// Scanners
// ---------------------------------------------------------------------------

/// The first position at or after `i` that holds no whitespace byte.
pub open spec fn skip_ws(s: Seq<u8>, i: int) -> int
    decreases s.len() - i,
    when 0 <= i <= s.len()
{
    if i == s.len() {
        i
    } else if is_space(s[i]) {
        skip_ws(s, i + 1)
    } else {
        i
    }
}

/// The first position at or after `i` that holds no identifier byte.
pub open spec fn ident_end(s: Seq<u8>, i: int) -> int
    decreases s.len() - i,
    when 0 <= i <= s.len()
{
    if i == s.len() {
        i
    } else if is_ident(s[i]) {
        ident_end(s, i + 1)
    } else {
        i
    }
}

/// The first position at or after `i` that holds no digit.
pub open spec fn digits_end(s: Seq<u8>, i: int) -> int
    decreases s.len() - i,
    when 0 <= i <= s.len()
{
    if i == s.len() {
        i
    } else if is_digit(s[i]) {
        digits_end(s, i + 1)
    } else {
        i
    }
}

/// The first position at or after `i` holding a single quote, or the end.
pub open spec fn quote_end(s: Seq<u8>, i: int) -> int
    decreases s.len() - i,
    when 0 <= i <= s.len()
{
    if i == s.len() {
        i
    } else if s[i] == 39 {
        i
    } else {
        quote_end(s, i + 1)
    }
}

/// The first position at or after `i` holding a newline, or the end.
pub open spec fn line_end(s: Seq<u8>, i: int) -> int
    decreases s.len() - i,
    when 0 <= i <= s.len()
{
    if i == s.len() {
        i
    } else if s[i] == 10 {
        i
    } else {
        line_end(s, i + 1)
    }
}


/// `ident_end` stays within bounds, passes only identifier bytes, and stops
/// at the first byte that is none.
pub proof fn lemma_ident_end(s: Seq<u8>, i: int)
    requires
        0 <= i <= s.len(),
    ensures
        i <= ident_end(s, i) <= s.len(),
        forall|j: int| i <= j < ident_end(s, i) ==> is_ident(s[j]),
        ident_end(s, i) < s.len() ==> !is_ident(s[ident_end(s, i)]),
    decreases s.len() - i,
{
    if i < s.len() && is_ident(s[i]) {
        lemma_ident_end(s, i + 1);
    }
}

/// `digits_end` stays within bounds, passes only digits, and stops at the
/// first byte that is none.
pub proof fn lemma_digits_end(s: Seq<u8>, i: int)
    requires
        0 <= i <= s.len(),
    ensures
        i <= digits_end(s, i) <= s.len(),
        forall|j: int| i <= j < digits_end(s, i) ==> is_digit(s[j]),
        digits_end(s, i) < s.len() ==> !is_digit(s[digits_end(s, i)]),
    decreases s.len() - i,
{
    if i < s.len() && is_digit(s[i]) {
        lemma_digits_end(s, i + 1);
    }
}


/// `line_end` stays within bounds, passes no newline, and stops at one if it
/// stops short of the end.
pub proof fn lemma_line_end(s: Seq<u8>, i: int)
    requires
        0 <= i <= s.len(),
    ensures
        i <= line_end(s, i) <= s.len(),
        forall|j: int| i <= j < line_end(s, i) ==> s[j] != 10,
        line_end(s, i) < s.len() ==> s[line_end(s, i)] == 10,
    decreases s.len() - i,
{
    if i < s.len() && s[i] != 10 {
        lemma_line_end(s, i + 1);
    }
}

// ---------------------------------------------------------------------------
// Values
// ---------------------------------------------------------------------------

/// The value of a run of decimal digit bytes, most significant first.
pub open spec fn dec_val(s: Seq<u8>) -> int
    decreases s.len(),
{
    if s.len() == 0 {
        0
    } else {
        dec_val(s.drop_last()) * 10 + (s.last() - 48)
    }
}

/// A digit run's value is nonnegative.
pub proof fn lemma_dec_val_nonneg(s: Seq<u8>)
    requires
        forall|j: int| 0 <= j < s.len() ==> is_digit(s[j]),
    ensures
        dec_val(s) >= 0,
    decreases s.len(),
{
    if s.len() > 0 {
        lemma_dec_val_nonneg(s.drop_last());
    }
}

/// Dropping trailing digits never increases a digit run's value.
pub proof fn lemma_dec_val_prefix(s: Seq<u8>, k: int)
    requires
        forall|j: int| 0 <= j < s.len() ==> is_digit(s[j]),
        0 <= k <= s.len(),
    ensures
        dec_val(s.take(k)) <= dec_val(s),
    decreases s.len() - k,
{
    if k < s.len() {
        lemma_dec_val_prefix(s, k + 1);
        let t = s.take(k + 1);
        assert(t.drop_last() =~= s.take(k));
        lemma_dec_val_nonneg(s.take(k));
        assert(dec_val(s.take(k)) <= dec_val(t));
    } else {
        assert(s.take(k) =~= s);
    }
}

// ---------------------------------------------------------------------------
// The spec parser
// ---------------------------------------------------------------------------

/// Parse one operand starting at the non-space position `i` of a line.
/// Yields the operand's token and the position just past it, or nothing when
/// the line has no well-formed operand there.
pub open spec fn spec_parse_operand(s: Seq<u8>, i: int) -> Option<(TokenModel, int)>
    recommends
        0 <= i < s.len(),
{
    if s[i] == 36 {  // '$'
        let d = skip_ws(s, i + 1);
        let e = digits_end(s, d);
        if e == d {
            None
        } else {
            let v = dec_val(s.subrange(d, e));
            if v <= 31 {
                Some((TokenModel::Register { reg_num: v as u8 }, e))
            } else {
                None
            }
        }
    } else if s[i] == 35 {  // '#'
        let d = skip_ws(s, i + 1);
        let e = digits_end(s, d);
        if e == d {
            None
        } else {
            let v = dec_val(s.subrange(d, e));
            if v <= 0x7fff_ffff {
                Some((TokenModel::IntegerOperand { value: v as i32 }, e))
            } else {
                None
            }
        }
    } else if s[i] == 64 {  // '@'
        let d = skip_ws(s, i + 1);
        if d == s.len() || !is_alpha(s[d]) {
            None
        } else {
            let e = ident_end(s, d + 1);
            Some((TokenModel::LabelUsage { name: s.subrange(d, e) }, e))
        }
    } else if s[i] == 39 {  // '\''
        let e = quote_end(s, i + 1);
        if e == s.len() {
            None
        } else {
            let body = s.subrange(i + 1, e);
            if valid_utf8(body) {
                Some((TokenModel::IrString { name: body }, e + 1))
            } else {
                None
            }
        }
    } else {
        None
    }
}

/// Parse up to `k` more operands from position `i` to the end of the line.
pub open spec fn spec_parse_operands(s: Seq<u8>, i: int, k: nat) -> Option<Seq<TokenModel>>
    recommends
        0 <= i <= s.len(),
    decreases k,
{
    let j = skip_ws(s, i);
    if j == s.len() {
        Some(Seq::empty())
    } else if k == 0 {
        None
    } else {
        match spec_parse_operand(s, j) {
            None => None,
            Some((t, e)) => if 0 <= e <= s.len() {
                match spec_parse_operands(s, e, (k - 1) as nat) {
                    None => None,
                    Some(rest) => Some(seq![t] + rest),
                }
            } else {
                None
            },
        }
    }
}

/// The operand slots of an instruction, from the parsed operand list.
pub open spec fn operands_to_slots(ops: Seq<TokenModel>) -> (Option<TokenModel>, Option<
    TokenModel,
>, Option<TokenModel>) {
    (
        if ops.len() > 0 {
            Some(ops[0])
        } else {
            None
        },
        if ops.len() > 1 {
            Some(ops[1])
        } else {
            None
        },
        if ops.len() > 2 {
            Some(ops[2])
        } else {
            None
        },
    )
}

/// Parse one line. `None` is a parse failure; `Some(None)` a blank line;
/// `Some(Some(m))` a parsed instruction.
pub open spec fn spec_parse_line(s: Seq<u8>) -> Option<Option<InstrModel>> {
    let a = skip_ws(s, 0);
    if a == s.len() {
        Some(None)
    } else {
        let has_label = is_alpha(s[a]) && {
            let c = skip_ws(s, ident_end(s, a + 1));
            c < s.len() && s[c] == 58
        };
        let label = if has_label {
            Some(TokenModel::LabelDeclaration { name: s.subrange(a, ident_end(s, a + 1)) })
        } else {
            None
        };
        let p = if has_label {
            skip_ws(s, skip_ws(s, ident_end(s, a + 1)) + 1)
        } else {
            a
        };
        if p == s.len() {
            None
        } else if s[p] == 46 {  // '.'
            let d = skip_ws(s, p + 1);
            if d == s.len() || !is_alpha(s[d]) {
                None
            } else {
                let e = ident_end(s, d + 1);
                match spec_parse_operands(s, e, 3) {
                    None => None,
                    Some(ops) => {
                        let (o1, o2, o3) = operands_to_slots(ops);
                        Some(
                            Some(
                                InstrModel {
                                    opcode: None,
                                    operand1: o1,
                                    operand2: o2,
                                    operand3: o3,
                                    label: label,
                                    directive: Some(
                                        TokenModel::Directive { name: s.subrange(d, e) },
                                    ),
                                },
                            ),
                        )
                    },
                }
            }
        } else if is_alpha(s[p]) {
            let e = ident_end(s, p + 1);
            let code = opcode_of_mnemonic(s.subrange(p, e));
            match spec_parse_operands(s, e, 3) {
                None => None,
                Some(ops) => {
                    let (o1, o2, o3) = operands_to_slots(ops);
                    Some(
                        Some(
                            InstrModel {
                                opcode: Some(TokenModel::Op { code }),
                                operand1: o1,
                                operand2: o2,
                                operand3: o3,
                                label: label,
                                directive: None,
                            },
                        ),
                    )
                },
            }
        } else {
            None
        }
    }
}

/// Parse every line from position `i` on. `None` is a parse failure; blank
/// lines contribute nothing.
pub open spec fn spec_parse_from(s: Seq<u8>, i: int) -> Option<Seq<InstrModel>>
    decreases s.len() - i,
    when 0 <= i <= s.len()
    via spec_parse_from_decreases
{
    let e = line_end(s, i);
    match spec_parse_line(s.subrange(i, e)) {
        None => None,
        Some(head) => {
            let tail = if e == s.len() {
                Some(Seq::<InstrModel>::empty())
            } else if e < s.len() {
                spec_parse_from(s, e + 1)
            } else {
                None
            };
            match tail {
                None => None,
                Some(t) => Some(
                    match head {
                        Some(m) => seq![m] + t,
                        None => t,
                    },
                ),
            }
        },
    }
}

#[via_fn]
proof fn spec_parse_from_decreases(s: Seq<u8>, i: int) {
    lemma_line_end(s, i);
}

/// What parsing a whole source yields: the instructions of its non-blank
/// lines, in order, or nothing when some line is ill-formed.
pub open spec fn spec_parse_program(s: Seq<u8>) -> Option<Seq<InstrModel>> {
    spec_parse_from(s, 0)
}


// ---------------------------------------------------------------------------
// The executable parser
// ---------------------------------------------------------------------------

/// Executable twin of [`skip_ws`].
fn skip_ws_x(s: &[u8], i: usize) -> (r: usize)
    requires
        i <= s@.len(),
    ensures
        r == skip_ws(s@, i as int),
        i <= r <= s@.len(),
{
    let mut j = i;
    while j < s.len() && (s[j] == 32 || s[j] == 9 || s[j] == 13)
        invariant
            i <= j <= s@.len(),
            skip_ws(s@, i as int) == skip_ws(s@, j as int),
        decreases s@.len() - j,
    {
        j += 1;
    }
    j
}

/// Executable twin of [`ident_end`].
fn ident_end_x(s: &[u8], i: usize) -> (r: usize)
    requires
        i <= s@.len(),
    ensures
        r == ident_end(s@, i as int),
        i <= r <= s@.len(),
{
    let mut j = i;
    while j < s.len() && (
        (65 <= s[j] && s[j] <= 90) || (97 <= s[j] && s[j] <= 122)
        || (48 <= s[j] && s[j] <= 57) || s[j] == 95
    )
        invariant
            i <= j <= s@.len(),
            ident_end(s@, i as int) == ident_end(s@, j as int),
        decreases s@.len() - j,
    {
        j += 1;
    }
    j
}

/// Executable twin of [`digits_end`].
fn digits_end_x(s: &[u8], i: usize) -> (r: usize)
    requires
        i <= s@.len(),
    ensures
        r == digits_end(s@, i as int),
        i <= r <= s@.len(),
{
    let mut j = i;
    while j < s.len() && 48 <= s[j] && s[j] <= 57
        invariant
            i <= j <= s@.len(),
            digits_end(s@, i as int) == digits_end(s@, j as int),
        decreases s@.len() - j,
    {
        j += 1;
    }
    j
}

/// Executable twin of [`quote_end`].
fn quote_end_x(s: &[u8], i: usize) -> (r: usize)
    requires
        i <= s@.len(),
    ensures
        r == quote_end(s@, i as int),
        i <= r <= s@.len(),
{
    let mut j = i;
    while j < s.len() && s[j] != 39
        invariant
            i <= j <= s@.len(),
            quote_end(s@, i as int) == quote_end(s@, j as int),
        decreases s@.len() - j,
    {
        j += 1;
    }
    j
}

/// Executable twin of [`line_end`].
fn line_end_x(s: &[u8], i: usize) -> (r: usize)
    requires
        i <= s@.len(),
    ensures
        r == line_end(s@, i as int),
        i <= r <= s@.len(),
{
    let mut j = i;
    while j < s.len() && s[j] != 10
        invariant
            i <= j <= s@.len(),
            line_end(s@, i as int) == line_end(s@, j as int),
        decreases s@.len() - j,
    {
        j += 1;
    }
    j
}

/// The value of the digit run `s[d..e]`, or nothing when it does not fit in
/// 32 bits.
fn dec_value(s: &[u8], d: usize, e: usize) -> (r: Option<u32>)
    requires
        d < e <= s@.len(),
        forall|j: int| d <= j < e ==> is_digit(s@[j]),
    ensures
        match r {
            Some(v) => v as int == dec_val(s@.subrange(d as int, e as int)),
            None => dec_val(s@.subrange(d as int, e as int)) > u32::MAX,
        },
{
    let ghost whole = s@.subrange(d as int, e as int);
    let mut val: u64 = 0;
    let mut j = d;
    while j < e
        invariant
            d <= j <= e <= s@.len(),
            forall|k: int| d <= k < e ==> is_digit(s@[k]),
            whole == s@.subrange(d as int, e as int),
            val as int == dec_val(s@.subrange(d as int, j as int)),
            val <= u32::MAX,
        decreases e - j,
    {
        let digit = s[j];
        proof {
            assert(is_digit(s@[j as int]));
            assert(s@.subrange(d as int, j as int + 1).drop_last() =~= s@.subrange(
                d as int,
                j as int,
            ));
            assert(s@.subrange(d as int, j as int + 1).last() == s@[j as int]);
        }
        val = val * 10 + ((digit - 48) as u64);
        j += 1;
        if val > 0xffff_ffff {
            proof {
                lemma_dec_val_nonneg(whole);
                assert(whole.take(j as int - d) =~= s@.subrange(d as int, j as int));
                assert forall|k: int| 0 <= k < whole.len() implies is_digit(whole[k]) by {
                    assert(whole[k] == s@[d + k]);
                }
                lemma_dec_val_prefix(whole, j as int - d);
            }
            return None;
        }
    }
    proof {
        assert(s@.subrange(d as int, e as int) =~= s@.subrange(d as int, j as int));
    }
    Some(val as u32)
}

/// A `String` holding exactly the ASCII bytes `s[d..e]`.
fn ascii_string(s: &[u8], d: usize, e: usize) -> (r: String)
    requires
        d <= e <= s@.len(),
        forall|j: int| d <= j < e ==> s@[j] < 128,
    ensures
        encode_utf8(r@) == s@.subrange(d as int, e as int),
{
    let sub: &[u8] = &s[d..e];
    let v = slice_to_vec(sub);
    proof {
        lemma_ascii_valid_utf8(v@);
    }
    match string_from_utf8(v) {
        Some(r) => r,
        None => {
            // unreachable: the bytes are ASCII, hence valid UTF-8
            proof {
                assert(false);
            }
            String::new()
        },
    }
}

/// Identifier bytes are ASCII.
proof fn lemma_ident_bytes_ascii(s: Seq<u8>, d: int, e: int)
    requires
        0 <= d <= e <= s.len(),
        forall|j: int| d <= j < e ==> is_ident(s[j]) || is_alpha(s[j]),
    ensures
        forall|j: int| d <= j < e ==> s[j] < 128,
{
}

/// Parse one operand starting at the non-space position `i`.
fn parse_operand_x(s: &[u8], i: usize) -> (r: Option<(Token, usize)>)
    requires
        i < s@.len(),
    ensures
        r matches Some(te) ==> {
            &&& spec_parse_operand(s@, i as int) == Some((te.0@, te.1 as int))
            &&& i < te.1 <= s@.len()
        },
        r is None ==> spec_parse_operand(s@, i as int) is None,
{
    let b = s[i];
    if b == 36 {
        // '$'
        let d = skip_ws_x(s, i + 1);
        let e = digits_end_x(s, d);
        if e == d {
            return None;
        }
        proof {
            lemma_digits_end(s@, d as int);
        }
        match dec_value(s, d, e) {
            Some(v) if v <= 31 => Some((Token::Register { reg_num: v as u8 }, e)),
            _ => None,
        }
    } else if b == 35 {
        // '#'
        let d = skip_ws_x(s, i + 1);
        let e = digits_end_x(s, d);
        if e == d {
            return None;
        }
        proof {
            lemma_digits_end(s@, d as int);
        }
        match dec_value(s, d, e) {
            Some(v) if v <= 0x7fff_ffff => Some((Token::IntegerOperand { value: v as i32 }, e)),
            _ => None,
        }
    } else if b == 64 {
        // '@'
        let d = skip_ws_x(s, i + 1);
        if d == s.len() {
            return None;
        }
        let c = s[d];
        if !((65 <= c && c <= 90) || (97 <= c && c <= 122)) {
            return None;
        }
        let e = ident_end_x(s, d + 1);
        proof {
            lemma_ident_end(s@, d as int + 1);
            lemma_ident_bytes_ascii(s@, d as int, e as int);
        }
        let name = ascii_string(s, d, e);
        Some((Token::LabelUsage { name }, e))
    } else if b == 39 {
        // '''
        let e = quote_end_x(s, i + 1);
        if e == s.len() {
            return None;
        }
        let body: &[u8] = &s[i + 1..e];
        let v = slice_to_vec(body);
        match string_from_utf8(v) {
            Some(name) => Some((Token::IrString { name }, e + 1)),
            None => None,
        }
    } else {
        None
    }
}

/// Parse up to three operands from position `i` to the end of the line.
fn parse_operands_x(s: &[u8], i: usize) -> (r: Option<(Option<Token>, Option<Token>, Option<
    Token,
>)>)
    requires
        i <= s@.len(),
    ensures
        r matches Some(slots) ==> (spec_parse_operands(s@, i as int, 3) matches Some(ops)
            && operands_to_slots(ops) == (
            opt_token_view(slots.0),
            opt_token_view(slots.1),
            opt_token_view(slots.2),
        )),
        r is None ==> spec_parse_operands(s@, i as int, 3) is None,
{
    let j1 = skip_ws_x(s, i);
    if j1 == s.len() {
        proof {
            assert(spec_parse_operands(s@, i as int, 3) == Some(Seq::<TokenModel>::empty()));
        }
        return Some((None, None, None));
    }
    let (t1, e1) = match parse_operand_x(s, j1) {
        None => {
            return None;
        },
        Some(te) => te,
    };
    let j2 = skip_ws_x(s, e1);
    if j2 == s.len() {
        proof {
            assert(spec_parse_operands(s@, e1 as int, 2) == Some(Seq::<TokenModel>::empty()));
            assert(spec_parse_operands(s@, i as int, 3) matches Some(ops) && ops =~= seq![t1@]);
        }
        return Some((Some(t1), None, None));
    }
    let (t2, e2) = match parse_operand_x(s, j2) {
        None => {
            return None;
        },
        Some(te) => te,
    };
    let j3 = skip_ws_x(s, e2);
    if j3 == s.len() {
        proof {
            assert(spec_parse_operands(s@, e2 as int, 1) == Some(Seq::<TokenModel>::empty()));
            assert(spec_parse_operands(s@, e1 as int, 2) matches Some(ops) && ops =~= seq![t2@]);
            assert(spec_parse_operands(s@, i as int, 3) matches Some(ops) && ops =~= seq![
                t1@,
                t2@,
            ]);
        }
        return Some((Some(t1), Some(t2), None));
    }
    let (t3, e3) = match parse_operand_x(s, j3) {
        None => {
            return None;
        },
        Some(te) => te,
    };
    let j4 = skip_ws_x(s, e3);
    if j4 == s.len() {
        proof {
            assert(spec_parse_operands(s@, e3 as int, 0) == Some(Seq::<TokenModel>::empty()));
            assert(spec_parse_operands(s@, e2 as int, 1) matches Some(ops) && ops =~= seq![t3@]);
            assert(spec_parse_operands(s@, e1 as int, 2) matches Some(ops) && ops =~= seq![
                t2@,
                t3@,
            ]);
            assert(spec_parse_operands(s@, i as int, 3) matches Some(ops) && ops =~= seq![
                t1@,
                t2@,
                t3@,
            ]);
        }
        return Some((Some(t1), Some(t2), Some(t3)));
    }
    None
}

/// Parse one line. `None` is a parse failure; `Ok` blank lines yield no
/// instruction.
fn parse_line_x(line: &[u8]) -> (r: Option<Option<AssemblerInstruction>>)
    ensures
        r is None ==> spec_parse_line(line@) is None,
        r == Some(None::<AssemblerInstruction>) ==> spec_parse_line(line@) == Some(
            None::<InstrModel>,
        ),
        r matches Some(Some(ins)) ==> spec_parse_line(line@) == Some(Some(ins@)),
{
    let a = skip_ws_x(line, 0);
    if a == line.len() {
        return Some(None);
    }
    let b0 = line[a];
    let first_alpha = (65 <= b0 && b0 <= 90) || (97 <= b0 && b0 <= 122);

    // Optional leading label declaration.
    let mut label: Option<Token> = None;
    let mut p = a;
    if first_alpha {
        let e_l = ident_end_x(line, a + 1);
        let c = skip_ws_x(line, e_l);
        if c < line.len() && line[c] == 58 {
            proof {
                lemma_ident_end(line@, a as int + 1);
                lemma_ident_bytes_ascii(line@, a as int, e_l as int);
            }
            let name = ascii_string(line, a, e_l);
            label = Some(Token::LabelDeclaration { name });
            p = skip_ws_x(line, c + 1);
        }
    }
    let ghost spec_label = if label is Some {
        Some(TokenModel::LabelDeclaration { name: line@.subrange(a as int, ident_end(line@, a as int + 1)) })
    } else {
        None::<TokenModel>
    };
    proof {
        assert(opt_token_view(label) == spec_label);
    }

    if p == line.len() {
        return None;
    }
    let h = line[p];
    if h == 46 {
        // '.': a directive line
        let d = skip_ws_x(line, p + 1);
        if d == line.len() {
            return None;
        }
        let c = line[d];
        if !((65 <= c && c <= 90) || (97 <= c && c <= 122)) {
            return None;
        }
        let e = ident_end_x(line, d + 1);
        proof {
            lemma_ident_end(line@, d as int + 1);
            lemma_ident_bytes_ascii(line@, d as int, e as int);
        }
        let name = ascii_string(line, d, e);
        match parse_operands_x(line, e) {
            None => None,
            Some((o1, o2, o3)) => {
                let ins = AssemblerInstruction {
                    opcode: None,
                    operand1: o1,
                    operand2: o2,
                    operand3: o3,
                    label,
                    directive: Some(Token::Directive { name }),
                };
                Some(Some(ins))
            },
        }
    } else if first_alpha || (65 <= h && h <= 90) || (97 <= h && h <= 122) {
        // An opcode line. (When a label was parsed, `p` moved past it; the
        // head byte must again be a letter.)
        if !((65 <= h && h <= 90) || (97 <= h && h <= 122)) {
            return None;
        }
        let e = ident_end_x(line, p + 1);
        proof {
            lemma_ident_end(line@, p as int + 1);
            lemma_ident_bytes_ascii(line@, p as int, e as int);
        }
        let mnemonic = ascii_string(line, p, e);
        let code = Opcode::from_mnemonic(mnemonic.as_str());
        match parse_operands_x(line, e) {
            None => None,
            Some((o1, o2, o3)) => {
                let ins = AssemblerInstruction {
                    opcode: Some(Token::Op { code }),
                    operand1: o1,
                    operand2: o2,
                    operand3: o3,
                    label,
                    directive: None,
                };
                Some(Some(ins))
            },
        }
    } else {
        None
    }
}

/// Parse a whole source. On success the returned program holds exactly the
/// instructions that [`spec_parse_program`] ascribes to the source's bytes;
/// on failure the source has an ill-formed line and the diagnostic names
/// the first one.
pub fn parse_program(source: &str) -> (r: Result<Program, String>)
    ensures
        r matches Ok(p) ==> spec_parse_program(source.spec_bytes()) == Some(p@),
        r is Err ==> spec_parse_program(source.spec_bytes()) is None,
{
    let bytes = source.as_bytes();
    let ghost b = bytes@;
    let mut instrs: Vec<AssemblerInstruction> = Vec::new();
    let mut pos: usize = 0;
    let mut line_no: u32 = 1;
    let mut done = false;
    while !done
        invariant
            b == source.spec_bytes(),
            bytes@ == b,
            0 <= pos <= b.len(),
            done ==> spec_parse_from(b, 0) == Some(instrs.deep_view()),
            !done ==> (spec_parse_from(b, pos as int) matches Some(t) ==> spec_parse_from(b, 0)
                == Some(instrs.deep_view() + t)),
            !done ==> (spec_parse_from(b, pos as int) is None ==> spec_parse_from(b, 0) is None),
        decreases (b.len() - pos) + (if done { 0int } else { 1int }),
    {
        let e = line_end_x(bytes, pos);
        let line: &[u8] = &bytes[pos..e];
        let ghost line_seq = b.subrange(pos as int, e as int);
        match parse_line_x(line) {
            None => {
                proof {
                    assert(spec_parse_from(b, pos as int) is None);
                }
                let num = dec_string(line_no);
                let msg = String::from_str("Unable to parse at line ").concat(num.as_str());
                return Err(msg);
            },
            Some(head) => {
                let ghost old_instrs = instrs.deep_view();
                match head {
                    None => {
                        proof {
                            assert(spec_parse_line(line_seq) == Some(None::<InstrModel>));
                        }
                    },
                    Some(ins) => {
                        let ghost iv = ins@;
                        instrs.push(ins);
                        proof {
                            assert(instrs.deep_view() =~= old_instrs.push(iv));
                        }
                    },
                }
                proof {
                    // relate spec_parse_from at pos with the tail at e + 1
                    if e < b.len() {
                        assert(spec_parse_from(b, pos as int) == (
                        match spec_parse_from(b, e as int + 1) {
                            None => None::<Seq<InstrModel>>,
                            Some(t) => Some(
                                match spec_parse_line(line_seq) {
                                    Some(Some(m)) => seq![m] + t,
                                    _ => t,
                                },
                            ),
                        }));
                    } else {
                        assert(spec_parse_from(b, pos as int) == Some(
                            match spec_parse_line(line_seq) {
                                Some(Some(m)) => seq![m] + Seq::<InstrModel>::empty(),
                                _ => Seq::<InstrModel>::empty(),
                            },
                        ));
                    }
                }
                if e == bytes.len() {
                    done = true;
                    proof {
                        assert(spec_parse_from(b, pos as int) matches Some(t) ==> spec_parse_from(
                            b,
                            0,
                        ) == Some(instrs.deep_view() + t) || spec_parse_from(b, 0) == Some(
                            instrs.deep_view(),
                        ));
                        assert(spec_parse_from(b, 0) == Some(instrs.deep_view()));
                    }
                } else {
                    pos = e + 1;
                    if line_no < 0xffff_ffff {
                        line_no += 1;
                    }
                }
            },
        }
    }
    Ok(Program { instructions: instrs })
}



// ---------------------------------------------------------------------------
// Instruction accessors
// ---------------------------------------------------------------------------

impl AssemblerInstruction {
    /// Whether the line carried a leading label declaration.
    pub fn is_label(&self) -> (r: bool)
        ensures
            r == (self@.label is Some),
    {
        self.label.is_some()
    }

    /// The declared label's name, when the line carries one.
    pub fn label_name(&self) -> (r: Option<String>)
        ensures
            self@.label matches Some(TokenModel::LabelDeclaration { name }) ==> (r matches Some(s)
                && encode_utf8(s@) == name),
            !(self@.label matches Some(TokenModel::LabelDeclaration { .. })) ==> r is None,
    {
        match &self.label {
            Some(Token::LabelDeclaration { name }) => Some(name.clone()),
            _ => None,
        }
    }

    /// Whether the line is a directive line.
    pub fn is_directive(&self) -> (r: bool)
        ensures
            r == (self@.directive is Some),
    {
        self.directive.is_some()
    }

    /// The directive's name, when the line is a directive line.
    pub fn directive_name(&self) -> (r: Option<String>)
        ensures
            self@.directive matches Some(TokenModel::Directive { name }) ==> (r matches Some(s)
                && encode_utf8(s@) == name),
            !(self@.directive matches Some(TokenModel::Directive { .. })) ==> r is None,
    {
        match &self.directive {
            Some(Token::Directive { name }) => Some(name.clone()),
            _ => None,
        }
    }

    /// Whether the line is an opcode line.
    pub fn is_opcode(&self) -> (r: bool)
        ensures
            r == (self@.opcode is Some),
    {
        self.opcode.is_some()
    }

    /// Whether the line carries at least one operand.
    pub fn has_operands(&self) -> (r: bool)
        ensures
            r == (self@.operand1 is Some),
    {
        self.operand1.is_some()
    }

    /// The string constant of an `asciiz` line: its first operand, when that
    /// operand is a quoted string.
    pub fn get_string_constant(&self) -> (r: Option<String>)
        ensures
            self@.operand1 matches Some(TokenModel::IrString { name }) ==> (r matches Some(s)
                && encode_utf8(s@) == name),
            !(self@.operand1 matches Some(TokenModel::IrString { .. })) ==> r is None,
    {
        match &self.operand1 {
            Some(Token::IrString { name }) => Some(name.clone()),
            _ => None,
        }
    }
}

// ---------------------------------------------------------------------------
// Byte emission
// ---------------------------------------------------------------------------

/// The bytes one operand contributes to an instruction frame: a register is
/// one byte; an integer two bytes, big-endian; a label use the symbol's
/// offset, two bytes big-endian, or nothing when the symbol is unresolved.
/// Tokens that cannot stand as operands contribute nothing.
pub open spec fn operand_bytes(t: TokenModel, syms: Seq<SymbolModel>) -> Seq<u8> {
    match t {
        TokenModel::Register { reg_num } => seq![reg_num],
        TokenModel::IntegerOperand { value } => seq![
            ((value as u16) >> 8u16) as u8,
            (value as u16) as u8,
        ],
        TokenModel::LabelUsage { name } => match spec_symbol_value(syms, name) {
            Some(v) => seq![((v as u16) >> 8u16) as u8, (v as u16) as u8],
            None => Seq::empty(),
        },
        _ => Seq::empty(),
    }
}

/// The bytes of an optional operand slot.
pub open spec fn opt_operand_bytes(t: Option<TokenModel>, syms: Seq<SymbolModel>) -> Seq<u8> {
    match t {
        Some(t) => operand_bytes(t, syms),
        None => Seq::empty(),
    }
}

/// A raw emission, padded with zeros to the fixed 4-byte frame (and held to
/// it when operands overflow the frame).
pub open spec fn frame4(raw: Seq<u8>) -> Seq<u8> {
    (raw + seq![0u8, 0u8, 0u8]).take(4)
}

/// The code bytes of one parsed line: an opcode line fills one 4-byte frame
/// (opcode byte, then its operands' bytes, zero-padded); any other line
/// emits nothing.
pub open spec fn instr_bytes(m: InstrModel, syms: Seq<SymbolModel>) -> Seq<u8> {
    match m.opcode {
        Some(TokenModel::Op { code }) => frame4(
            seq![opcode_to_byte(code)] + opt_operand_bytes(m.operand1, syms) + opt_operand_bytes(
                m.operand2,
                syms,
            ) + opt_operand_bytes(m.operand3, syms),
        ),
        _ => Seq::empty(),
    }
}

/// The code body of a program: the concatenation of its lines' frames.
pub open spec fn body_bytes(instrs: Seq<InstrModel>, syms: Seq<SymbolModel>) -> Seq<u8>
    decreases instrs.len(),
{
    if instrs.len() == 0 {
        Seq::empty()
    } else {
        body_bytes(instrs.drop_last(), syms) + instr_bytes(instrs.last(), syms)
    }
}

impl AssemblerInstruction {
    /// Append one operand's bytes to `results`.
    fn extract_operand(t: &Token, results: &mut Vec<u8>, symbols: &SymbolTable)
        ensures
            final(results)@ == old(results)@ + operand_bytes(t@, symbols@),
    {
        let ghost pre = results@;
        match t {
            Token::Register { reg_num } => {
                results.push(*reg_num);
                proof {
                    assert(results@ =~= pre + operand_bytes(t@, symbols@));
                }
            },
            Token::IntegerOperand { value } => {
                let converted = *value as u16;
                results.push((converted >> 8u16) as u8);
                results.push(converted as u8);
                proof {
                    assert(results@ =~= pre + operand_bytes(t@, symbols@));
                }
            },
            Token::LabelUsage { name } => {
                match symbols.symbol_value(name.as_str()) {
                    Some(value) => {
                        let converted = value as u16;
                        results.push((converted >> 8u16) as u8);
                        results.push(converted as u8);
                        proof {
                            assert(results@ =~= pre + operand_bytes(t@, symbols@));
                        }
                    },
                    None => {
                        // an unresolved label use emits nothing (a
                        // diagnostic, not a failure)
                        proof {
                            assert(results@ =~= pre + operand_bytes(t@, symbols@));
                        }
                    },
                }
            },
            _ => {
                // a token that cannot stand as an operand emits nothing
                proof {
                    assert(results@ =~= pre + operand_bytes(t@, symbols@));
                }
            },
        }
    }

    /// The 4-byte frame this line contributes to the code body; a line
    /// without an opcode contributes nothing.
    pub fn to_bytes(&self, symbols: &SymbolTable) -> (r: Vec<u8>)
        ensures
            r@ == instr_bytes(self@, symbols@),
    {
        let mut results: Vec<u8> = Vec::new();
        let code = match &self.opcode {
            Some(Token::Op { code }) => *code,
            _ => {
                return results;
            },
        };
        results.push(code.to_u8());
        if let Some(t) = &self.operand1 {
            Self::extract_operand(t, &mut results, symbols);
        }
        if let Some(t) = &self.operand2 {
            Self::extract_operand(t, &mut results, symbols);
        }
        if let Some(t) = &self.operand3 {
            Self::extract_operand(t, &mut results, symbols);
        }
        let ghost raw = seq![opcode_to_byte(code)] + opt_operand_bytes(self@.operand1, symbols@)
            + opt_operand_bytes(self@.operand2, symbols@) + opt_operand_bytes(
            self@.operand3,
            symbols@,
        );
        proof {
            assert(results@ =~= raw);
        }
        while results.len() < 4
            invariant
                1 <= raw.len() <= results@.len(),
                results@.take(raw.len() as int) == raw,
                forall|j: int| raw.len() <= j < results@.len() ==> results@[j] == 0,
            decreases 4 - results.len(),
        {
            let ghost pre = results@;
            results.push(0);
            proof {
                assert(results@.take(raw.len() as int) =~= pre.take(raw.len() as int));
            }
        }
        let ghost pre_truncate = results@;
        results.truncate(4);
        proof {
            let full = raw + seq![0u8, 0u8, 0u8];
            assert(results@ == pre_truncate.subrange(0, 4));
            assert forall|j: int| 0 <= j < 4 implies results@[j] == full[j] by {
                if j < raw.len() {
                    assert(pre_truncate.take(raw.len() as int)[j] == raw[j]);
                } else {
                    assert(pre_truncate[j] == 0);
                    assert(full[j] == 0);
                }
            }
            assert(results@ =~= frame4(raw));
        }
        results
    }
}

impl Program {
    /// The code body: every line's frame, in source order.
    pub fn to_bytes(&self, symbols: &SymbolTable) -> (r: Vec<u8>)
        ensures
            r@ == body_bytes(self@, symbols@),
    {
        let mut program: Vec<u8> = Vec::new();
        let mut i: usize = 0;
        while i < self.instructions.len()
            invariant
                0 <= i <= self.instructions.len(),
                self@.len() == self.instructions.len(),
                program@ == body_bytes(self@.take(i as int), symbols@),
            decreases self.instructions.len() - i,
        {
            let mut bytes = self.instructions[i].to_bytes(symbols);
            let ghost pre = program@;
            program.append(&mut bytes);
            proof {
                assert(self@.take(i as int + 1).drop_last() =~= self@.take(i as int));
                assert(self@.take(i as int + 1).last() == self@[i as int]);
                assert(self.instructions@[i as int].deep_view() == self@[i as int]);
            }
            i += 1;
        }
        proof {
            assert(self@.take(self@.len() as int) =~= self@);
        }
        program
    }
}


} // verus!
