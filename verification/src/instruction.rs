//! The classified instruction: a closed tagged union of the four instruction
//! kinds, the assembly error conditions, and the encoding of one instruction
//! against a resolved symbol table.

use vstd::prelude::*;

use crate::code::binary16;
use crate::code::c_bits;
use crate::code::comp_to_bin;
use crate::code::dest_to_bin;
use crate::code::jump_to_bin;
use crate::code::lemma_bit_group_lens;
use crate::code::to_bin;
use crate::code::to_binary_string;
use crate::code::valid_comp;
use crate::code::valid_dest;
use crate::code::valid_jump;
use crate::symbol_table::SymbolTable;

verus! {

/// The mathematical form of a classified instruction.
pub enum SpecInstruction {
    /// A numeric address register load: `@value`, 0 through 32767.
    AddressValue { value: u16 },
    /// An address register load through a symbolic name: `@name`.
    AddressSymbol { name: Seq<char> },
    /// A pseudo-instruction `(name)` marking the ROM address of the next
    /// real instruction; emits no code.
    Label { name: Seq<char> },
    /// A compute instruction `dest=comp;jump` with optional `dest` and
    /// `jump` fields; an absent field is the empty string.
    Compute { dest: Seq<char>, comp: Seq<char>, jump: Seq<char> },
}

/// A classified instruction.
#[derive(Debug, PartialEq, Eq)]
pub enum Instruction {
    /// A numeric address register load: `@value`, 0 through 32767.
    AddressValue { value: u16 },
    /// An address register load through a symbolic name: `@name`.
    AddressSymbol { name: String },
    /// A pseudo-instruction `(name)` marking the ROM address of the next
    /// real instruction; emits no code.
    Label { name: String },
    /// A compute instruction `dest=comp;jump` with optional `dest` and
    /// `jump` fields; an absent field is the empty string.
    Compute { dest: String, comp: String, jump: String },
}

impl View for Instruction {
    type V = SpecInstruction;

    open spec fn view(&self) -> SpecInstruction {
        match self {
            Instruction::AddressValue { value } => SpecInstruction::AddressValue { value: *value },
            Instruction::AddressSymbol { name } => SpecInstruction::AddressSymbol { name: name@ },
            Instruction::Label { name } => SpecInstruction::Label { name: name@ },
            Instruction::Compute { dest, comp, jump } => SpecInstruction::Compute {
                dest: dest@,
                comp: comp@,
                jump: jump@,
            },
        }
    }
}

impl DeepView for Instruction {
    type V = SpecInstruction;

    open spec fn deep_view(&self) -> SpecInstruction {
        self@
    }
}

/// The mathematical form of an assembly error.
pub enum SpecAsmError {
    /// A significant line matches none of the instruction-line grammars, or
    /// a compute instruction holds a mnemonic outside its fixed table.
    MalformedInstruction { line: Seq<char> },
    /// An address symbol has no resolved address.
    UndefinedSymbol { name: Seq<char> },
    /// An address literal exceeds the 15-bit representable range.
    NumericOverflow { line: Seq<char> },
}

/// A structural error in the assembly source.  Assembly stops at the first
/// error and surfaces the failing line or name.
#[derive(Debug, PartialEq, Eq)]
pub enum AsmError {
    /// A significant line matches none of the instruction-line grammars, or
    /// a compute instruction holds a mnemonic outside its fixed table.
    MalformedInstruction { line: String },
    /// An address symbol has no resolved address.
    UndefinedSymbol { name: String },
    /// An address literal exceeds the 15-bit representable range.
    NumericOverflow { line: String },
}

impl View for AsmError {
    type V = SpecAsmError;

    open spec fn view(&self) -> SpecAsmError {
        match self {
            AsmError::MalformedInstruction { line } => SpecAsmError::MalformedInstruction {
                line: line@,
            },
            AsmError::UndefinedSymbol { name } => SpecAsmError::UndefinedSymbol { name: name@ },
            AsmError::NumericOverflow { line } => SpecAsmError::NumericOverflow { line: line@ },
        }
    }
}

/// The text of a compute instruction, rebuilt from its three fields.
pub open spec fn render_compute(dest: Seq<char>, comp: Seq<char>, jump: Seq<char>) -> Seq<char> {
    (if dest.len() > 0 {
        dest + "="@
    } else {
        Seq::empty()
    }) + comp + (if jump.len() > 0 {
        ";"@ + jump
    } else {
        Seq::empty()
    })
}

/// What encoding one instruction against a resolved table yields: no word
/// for a label, the 16-bit word otherwise, an error for an unbound symbol or
/// a mnemonic outside its fixed table.
pub open spec fn encode_one(inst: SpecInstruction, table: Map<Seq<char>, u16>) -> Result<
    Option<Seq<char>>,
    SpecAsmError,
> {
    match inst {
        SpecInstruction::Label { .. } => Ok(None),
        SpecInstruction::AddressValue { value } => Ok(Some(binary16(value))),
        SpecInstruction::AddressSymbol { name } => if table.dom().contains(name) {
            Ok(Some(binary16(table[name])))
        } else {
            Err(SpecAsmError::UndefinedSymbol { name })
        },
        SpecInstruction::Compute { dest, comp, jump } => if valid_dest(dest) && valid_comp(comp)
            && valid_jump(jump) {
            Ok(Some(c_bits(dest, comp, jump)))
        } else {
            Err(SpecAsmError::MalformedInstruction { line: render_compute(dest, comp, jump) })
        },
    }
}

/// The view of an instruction encoding's outcome.
pub open spec fn encoded_view(r: Result<Option<String>, AsmError>) -> Result<
    Option<Seq<char>>,
    SpecAsmError,
> {
    match r {
        Ok(Some(word)) => Ok(Some(word@)),
        Ok(None) => Ok(None),
        Err(e) => Err(e@),
    }
}

fn compute_text(dest: &str, comp: &str, jump: &str) -> (r: String)
    ensures
        r@ == render_compute(dest@, comp@, jump@),
{
    let mut text = String::new();
    if !dest.is_empty() {
        text.append(dest);
        text.append("=");
    }
    text.append(comp);
    if !jump.is_empty() {
        text.append(";");
        text.append(jump);
    }
    proof {
        assert(text@ =~= render_compute(dest@, comp@, jump@));
    }
    text
}

impl Instruction {
    /// Encode this instruction against a resolved symbol table: `Ok(None)`
    /// for a label, otherwise the 16-character binary word, an error for an
    /// unbound symbol or a mnemonic outside its fixed table.
    pub fn to_bin(&self, symbol_table: &SymbolTable) -> (r: Result<Option<String>, AsmError>)
        ensures
            encoded_view(r) == encode_one(self@, symbol_table@),
    {
        match self {
            Instruction::Label { .. } => Ok(None),
            Instruction::AddressValue { value } => Ok(Some(to_binary_string(*value))),
            Instruction::AddressSymbol { name } => match symbol_table.get_address(name.as_str()) {
                Some(address) => Ok(Some(to_binary_string(address))),
                None => Err(AsmError::UndefinedSymbol { name: name.clone() }),
            },
            Instruction::Compute { dest, comp, jump } => {
                proof {
                    lemma_bit_group_lens(dest@, comp@, jump@);
                }
                let dest_bits = dest_to_bin(dest.as_str());
                let comp_bits = comp_to_bin(comp.as_str());
                let jump_bits = jump_to_bin(jump.as_str());
                if dest_bits.is_empty() || comp_bits.is_empty() || jump_bits.is_empty() {
                    Err(
                        AsmError::MalformedInstruction {
                            line: compute_text(dest.as_str(), comp.as_str(), jump.as_str()),
                        },
                    )
                } else {
                    Ok(Some(to_bin(dest.as_str(), comp.as_str(), jump.as_str())))
                }
            },
        }
    }
}

} // verus!
