//! The assembler's symbol table: an append-only store of named offsets,
//! filled during the first pass and read during the second.

use vstd::prelude::*;
use crate::text::{str_eq, lemma_encode_utf8_injective};

verus! {

use vstd::utf8::encode_utf8;

/// The kind of a symbol. Only labels exist in this dialect.
#[derive(Debug, Clone, Copy, PartialEq, Eq, Structural)]
pub enum SymbolType {
    Label,
}

/// A named offset: either a code address or an offset into the read-only
/// data area, depending on where the label was declared.
#[derive(Debug, Clone)]
pub struct Symbol {
    name: String,
    offset: Option<u32>,
    symbol_type: SymbolType,
}

/// The mathematical shape of a [`Symbol`]: its name's UTF-8 bytes and its
/// offset.
pub struct SymbolModel {
    pub name: Seq<u8>,
    pub offset: Option<u32>,
}

impl View for Symbol {
    type V = SymbolModel;

    closed spec fn view(&self) -> SymbolModel {
        SymbolModel { name: encode_utf8(self.name@), offset: self.offset }
    }
}

impl DeepView for Symbol {
    type V = SymbolModel;

    open spec fn deep_view(&self) -> SymbolModel {
        self.view()
    }
}

impl Symbol {
    pub fn new(name: String, symbol_type: SymbolType, offset: u32) -> (r: Symbol)
        ensures
            r@.name == encode_utf8(name@),
            r@.offset == Some(offset),
    {
        Symbol { name, symbol_type, offset: Some(offset) }
    }
}

/// The offset of the first symbol with the given name, if any symbol with
/// that name has one.
pub open spec fn spec_symbol_value(syms: Seq<SymbolModel>, name: Seq<u8>) -> Option<u32>
    decreases syms.len(),
{
    if syms.len() == 0 {
        None
    } else if syms[0].name == name {
        syms[0].offset
    } else {
        spec_symbol_value(syms.skip(1), name)
    }
}

/// Whether some symbol bears the given name.
pub open spec fn spec_has_symbol(syms: Seq<SymbolModel>, name: Seq<u8>) -> bool {
    exists|j: int| 0 <= j < syms.len() && syms[j].name == name
}

/// The table with the first symbol of the given name re-pointed at `offset`;
/// unchanged when no symbol bears the name.
pub open spec fn spec_set_offset(syms: Seq<SymbolModel>, name: Seq<u8>, offset: u32) -> Seq<
    SymbolModel,
>
    decreases syms.len(),
{
    if syms.len() == 0 {
        syms
    } else if syms[0].name == name {
        seq![SymbolModel { name: syms[0].name, offset: Some(offset) }] + syms.skip(1)
    } else {
        seq![syms[0]] + spec_set_offset(syms.skip(1), name, offset)
    }
}

/// When no symbol before index `i` bears the name and the symbol at `i`
/// does, the lookup returns that symbol's offset.
proof fn lemma_symbol_value_at(syms: Seq<SymbolModel>, name: Seq<u8>, i: int)
    requires
        0 <= i < syms.len(),
        forall|j: int| 0 <= j < i ==> syms[j].name != name,
        syms[i].name == name,
    ensures
        spec_symbol_value(syms, name) == syms[i].offset,
    decreases i,
{
    if i > 0 {
        lemma_symbol_value_at(syms.skip(1), name, i - 1);
    }
}

/// When no symbol bears the name, the lookup returns nothing.
proof fn lemma_symbol_value_none(syms: Seq<SymbolModel>, name: Seq<u8>)
    requires
        forall|j: int| 0 <= j < syms.len() ==> syms[j].name != name,
    ensures
        spec_symbol_value(syms, name) is None,
    decreases syms.len(),
{
    if syms.len() > 0 {
        lemma_symbol_value_none(syms.skip(1), name);
    }
}

/// Re-pointing the first match: the table keeps its shape everywhere but at
/// the first index bearing the name.
proof fn lemma_set_offset_at(syms: Seq<SymbolModel>, name: Seq<u8>, offset: u32, i: int)
    requires
        0 <= i < syms.len(),
        forall|j: int| 0 <= j < i ==> syms[j].name != name,
        syms[i].name == name,
    ensures
        spec_set_offset(syms, name, offset) =~= syms.update(
            i,
            SymbolModel { name: syms[i].name, offset: Some(offset) },
        ),
    decreases i,
{
    if i == 0 {
    } else {
        lemma_set_offset_at(syms.skip(1), name, offset, i - 1);
    }
}

/// A table no symbol of which bears the name is unchanged by re-pointing.
proof fn lemma_set_offset_none(syms: Seq<SymbolModel>, name: Seq<u8>, offset: u32)
    requires
        forall|j: int| 0 <= j < syms.len() ==> syms[j].name != name,
    ensures
        spec_set_offset(syms, name, offset) =~= syms,
    decreases syms.len(),
{
    if syms.len() > 0 {
        lemma_set_offset_none(syms.skip(1), name, offset);
    }
}

/// An append-only store of symbols. Lookup is a linear scan; name
/// uniqueness is the caller's duty (the first pass checks before adding).
#[derive(Debug)]
pub struct SymbolTable {
    pub symbols: Vec<Symbol>,
}

impl View for SymbolTable {
    type V = Seq<SymbolModel>;

    open spec fn view(&self) -> Seq<SymbolModel> {
        self.symbols.deep_view()
    }
}

impl SymbolTable {
    pub fn new() -> (r: SymbolTable)
        ensures
            r@ =~= Seq::<SymbolModel>::empty(),
    {
        SymbolTable { symbols: Vec::new() }
    }

    pub fn add_symbol(&mut self, s: Symbol)
        ensures
            final(self)@ =~= old(self)@.push(s@),
    {
        self.symbols.push(s);
    }

    /// The offset recorded for the first symbol named `s`, if any.
    pub fn symbol_value(&self, s: &str) -> (r: Option<u32>)
        ensures
            r == spec_symbol_value(self@, encode_utf8(s@)),
    {
        let ghost name = encode_utf8(s@);
        let mut i: usize = 0;
        while i < self.symbols.len()
            invariant
                name == encode_utf8(s@),
                0 <= i <= self.symbols.len(),
                self@.len() == self.symbols.len(),
                forall|j: int| 0 <= j < i ==> self@[j].name != name,
            decreases self.symbols.len() - i,
        {
            if str_eq(self.symbols[i].name.as_str(), s) {
                proof {
                    lemma_symbol_value_at(self@, name, i as int);
                }
                return self.symbols[i].offset;
            }
            proof {
                if self@[i as int].name == name {
                    lemma_encode_utf8_injective(self.symbols@[i as int].name@, s@);
                }
            }
            i += 1;
        }
        proof {
            lemma_symbol_value_none(self@, name);
        }
        None
    }

    /// Whether any symbol bears the name `s`.
    pub fn has_symbol(&self, s: &str) -> (r: bool)
        ensures
            r == spec_has_symbol(self@, encode_utf8(s@)),
    {
        let ghost name = encode_utf8(s@);
        let mut i: usize = 0;
        while i < self.symbols.len()
            invariant
                name == encode_utf8(s@),
                0 <= i <= self.symbols.len(),
                self@.len() == self.symbols.len(),
                forall|j: int| 0 <= j < i ==> self@[j].name != name,
            decreases self.symbols.len() - i,
        {
            if str_eq(self.symbols[i].name.as_str(), s) {
                return true;
            }
            proof {
                if self@[i as int].name == name {
                    lemma_encode_utf8_injective(self.symbols@[i as int].name@, s@);
                }
            }
            i += 1;
        }
        false
    }

    /// Re-point the first symbol named `s` at `offset`; reports whether one
    /// was found.
    pub fn set_symbol_offset(&mut self, s: &str, offset: u32) -> (r: bool)
        ensures
            r == spec_has_symbol(old(self)@, encode_utf8(s@)),
            final(self)@ =~= spec_set_offset(old(self)@, encode_utf8(s@), offset),
    {
        let ghost name = encode_utf8(s@);
        let mut i: usize = 0;
        while i < self.symbols.len()
            invariant
                name == encode_utf8(s@),
                self@ == old(self)@,
                0 <= i <= self.symbols.len(),
                self@.len() == self.symbols.len(),
                forall|j: int| 0 <= j < i ==> self@[j].name != name,
            decreases self.symbols.len() - i,
        {
            if str_eq(self.symbols[i].name.as_str(), s) {
                let ghost pre = self@;
                proof {
                    lemma_set_offset_at(pre, name, offset, i as int);
                }
                let new_sym = Symbol {
                    name: self.symbols[i].name.clone(),
                    offset: Some(offset),
                    symbol_type: self.symbols[i].symbol_type,
                };
                self.symbols.set(i, new_sym);
                proof {
                    assert forall|j: int| 0 <= j < pre.len() implies self@[j] == pre.update(
                        i as int,
                        SymbolModel { name: pre[i as int].name, offset: Some(offset) },
                    )[j] by {
                        assert(self.symbols@[j].deep_view() == self@[j]);
                    }
                    assert(self@ =~= pre.update(
                        i as int,
                        SymbolModel { name: pre[i as int].name, offset: Some(offset) },
                    ));
                }
                return true;
            }
            proof {
                if self@[i as int].name == name {
                    lemma_encode_utf8_injective(self.symbols@[i as int].name@, s@);
                }
            }
            i += 1;
        }
        proof {
            lemma_set_offset_none(self@, name, offset);
        }
        false
    }
}

} // verus!
