//! The token model of the assembly dialect, shared by the parser and the
//! assembler driver.
//!
//! Every token that carries a name carries it as a `String`; in
//! specifications a token is viewed through [`TokenModel`], where each name
//! appears as its UTF-8 byte sequence, the same bytes the token was lexed
//! from.

use vstd::prelude::*;
use crate::instruction::Opcode;

verus! {

use vstd::utf8::encode_utf8;

/// A lexical token of the assembly dialect.
#[derive(Debug, Clone, PartialEq)]
pub enum Token {
    /// An opcode mnemonic.
    Op { code: Opcode },
    /// `$n`: a register operand.
    Register { reg_num: u8 },
    /// `#n`: an integer immediate.
    IntegerOperand { value: i32 },
    /// `name:` at the start of a line.
    LabelDeclaration { name: String },
    /// `@name` as an operand.
    LabelUsage { name: String },
    /// `.name` heading a directive line.
    Directive { name: String },
    /// `'...'`: a quoted string body.
    IrString { name: String },
}

/// The mathematical shape of a [`Token`]: names are the UTF-8 bytes they
/// were lexed from.
pub enum TokenModel {
    Op { code: Opcode },
    Register { reg_num: u8 },
    IntegerOperand { value: i32 },
    LabelDeclaration { name: Seq<u8> },
    LabelUsage { name: Seq<u8> },
    Directive { name: Seq<u8> },
    IrString { name: Seq<u8> },
}

impl View for Token {
    type V = TokenModel;

    open spec fn view(&self) -> TokenModel {
        match self {
            Token::Op { code } => TokenModel::Op { code: *code },
            Token::Register { reg_num } => TokenModel::Register { reg_num: *reg_num },
            Token::IntegerOperand { value } => TokenModel::IntegerOperand { value: *value },
            Token::LabelDeclaration { name } => TokenModel::LabelDeclaration {
                name: encode_utf8(name@),
            },
            Token::LabelUsage { name } => TokenModel::LabelUsage { name: encode_utf8(name@) },
            Token::Directive { name } => TokenModel::Directive { name: encode_utf8(name@) },
            Token::IrString { name } => TokenModel::IrString { name: encode_utf8(name@) },
        }
    }
}

impl DeepView for Token {
    type V = TokenModel;

    open spec fn deep_view(&self) -> TokenModel {
        self.view()
    }
}

} // verus!
