//! Translation of compute-instruction mnemonics into binary code: the fixed
//! `dest`, `comp` and `jump` tables, and the 16-character rendering of an
//! address word.
//!
//! A mnemonic missing from its table translates to the empty bit-group, so
//! `to_bin` is total; the encoder checks validity first and reports a
//! malformed instruction instead of emitting a short word.

use vstd::prelude::*;

use crate::text::str_eq;

verus! {

/// The 3-bit destination-register mask for a `dest` mnemonic, or the empty
/// sequence when the mnemonic is not in the fixed table.
pub open spec fn dest_to_bin_spec(dest: Seq<char>) -> Seq<char> {
    if dest.len() == 0 {
        "000"@
    } else if dest == "M"@ {
        "001"@
    } else if dest == "D"@ {
        "010"@
    } else if dest == "MD"@ {
        "011"@
    } else if dest == "A"@ {
        "100"@
    } else if dest == "AM"@ {
        "101"@
    } else if dest == "AD"@ {
        "110"@
    } else if dest == "AMD"@ {
        "111"@
    } else {
        Seq::empty()
    }
}

/// The 7-bit ALU control code for a `comp` mnemonic, or the empty sequence
/// when the mnemonic is not in the fixed table.
pub open spec fn comp_to_bin_spec(comp: Seq<char>) -> Seq<char> {
    if comp == "0"@ {
        "0101010"@
    } else if comp == "1"@ {
        "0111111"@
    } else if comp == "-1"@ {
        "0111010"@
    } else if comp == "D"@ {
        "0001100"@
    } else if comp == "A"@ {
        "0110000"@
    } else if comp == "!D"@ {
        "0001101"@
    } else if comp == "!A"@ {
        "0110001"@
    } else if comp == "-D"@ {
        "0001111"@
    } else if comp == "-A"@ {
        "0110011"@
    } else if comp == "D+1"@ {
        "0011111"@
    } else if comp == "A+1"@ {
        "0110111"@
    } else if comp == "D-1"@ {
        "0001110"@
    } else if comp == "A-1"@ {
        "0110010"@
    } else if comp == "D+A"@ {
        "0000010"@
    } else if comp == "D-A"@ {
        "0010011"@
    } else if comp == "A-D"@ {
        "0000111"@
    } else if comp == "D&A"@ {
        "0000000"@
    } else if comp == "D|A"@ {
        "0010101"@
    } else if comp == "M"@ {
        "1110000"@
    } else if comp == "!M"@ {
        "1110001"@
    } else if comp == "-M"@ {
        "1110011"@
    } else if comp == "M+1"@ {
        "1110111"@
    } else if comp == "M-1"@ {
        "1110010"@
    } else if comp == "D+M"@ {
        "1000010"@
    } else if comp == "D-M"@ {
        "1010011"@
    } else if comp == "M-D"@ {
        "1000111"@
    } else if comp == "D&M"@ {
        "1000000"@
    } else if comp == "D|M"@ {
        "1010101"@
    } else {
        Seq::empty()
    }
}

/// The 3-bit jump-condition code for a `jump` mnemonic, or the empty sequence
/// when the mnemonic is not in the fixed table.
pub open spec fn jump_to_bin_spec(jump: Seq<char>) -> Seq<char> {
    if jump.len() == 0 {
        "000"@
    } else if jump == "JGT"@ {
        "001"@
    } else if jump == "JEQ"@ {
        "010"@
    } else if jump == "JGE"@ {
        "011"@
    } else if jump == "JLT"@ {
        "100"@
    } else if jump == "JNE"@ {
        "101"@
    } else if jump == "JLE"@ {
        "110"@
    } else if jump == "JMP"@ {
        "111"@
    } else {
        Seq::empty()
    }
}

/// The `dest` mnemonic has an entry in the fixed table.
pub open spec fn valid_dest(dest: Seq<char>) -> bool {
    ||| dest.len() == 0
    ||| dest == "M"@
    ||| dest == "D"@
    ||| dest == "MD"@
    ||| dest == "A"@
    ||| dest == "AM"@
    ||| dest == "AD"@
    ||| dest == "AMD"@
}

/// The `comp` mnemonic has an entry in the fixed table.
pub open spec fn valid_comp(comp: Seq<char>) -> bool {
    ||| comp == "0"@
    ||| comp == "1"@
    ||| comp == "-1"@
    ||| comp == "D"@
    ||| comp == "A"@
    ||| comp == "!D"@
    ||| comp == "!A"@
    ||| comp == "-D"@
    ||| comp == "-A"@
    ||| comp == "D+1"@
    ||| comp == "A+1"@
    ||| comp == "D-1"@
    ||| comp == "A-1"@
    ||| comp == "D+A"@
    ||| comp == "D-A"@
    ||| comp == "A-D"@
    ||| comp == "D&A"@
    ||| comp == "D|A"@
    ||| comp == "M"@
    ||| comp == "!M"@
    ||| comp == "-M"@
    ||| comp == "M+1"@
    ||| comp == "M-1"@
    ||| comp == "D+M"@
    ||| comp == "D-M"@
    ||| comp == "M-D"@
    ||| comp == "D&M"@
    ||| comp == "D|M"@
}

/// The `jump` mnemonic has an entry in the fixed table.
pub open spec fn valid_jump(jump: Seq<char>) -> bool {
    ||| jump.len() == 0
    ||| jump == "JGT"@
    ||| jump == "JEQ"@
    ||| jump == "JGE"@
    ||| jump == "JLT"@
    ||| jump == "JNE"@
    ||| jump == "JLE"@
    ||| jump == "JMP"@
}

/// The full 16-bit word of a compute instruction: the opcode prefix `111`,
/// then the ALU code, the destination mask and the jump code.
pub open spec fn c_bits(dest: Seq<char>, comp: Seq<char>, jump: Seq<char>) -> Seq<char> {
    "111"@ + comp_to_bin_spec(comp) + dest_to_bin_spec(dest) + jump_to_bin_spec(jump)
}

/// A mnemonic in the fixed table translates to its full-width bit-group; one
/// outside it translates to the empty group.
pub proof fn lemma_bit_group_lens(dest: Seq<char>, comp: Seq<char>, jump: Seq<char>)
    ensures
        dest_to_bin_spec(dest).len() == if valid_dest(dest) { 3int } else { 0int },
        comp_to_bin_spec(comp).len() == if valid_comp(comp) { 7int } else { 0int },
        jump_to_bin_spec(jump).len() == if valid_jump(jump) { 3int } else { 0int },
        c_bits(dest, comp, jump).len() == 3 + comp_to_bin_spec(comp).len() + dest_to_bin_spec(
            dest,
        ).len() + jump_to_bin_spec(jump).len(),
{
    reveal_strlit("000");
    reveal_strlit("001");
    reveal_strlit("010");
    reveal_strlit("011");
    reveal_strlit("100");
    reveal_strlit("101");
    reveal_strlit("110");
    reveal_strlit("111");
    reveal_strlit("0101010");
    reveal_strlit("0111111");
    reveal_strlit("0111010");
    reveal_strlit("0001100");
    reveal_strlit("0110000");
    reveal_strlit("0001101");
    reveal_strlit("0110001");
    reveal_strlit("0001111");
    reveal_strlit("0110011");
    reveal_strlit("0011111");
    reveal_strlit("0110111");
    reveal_strlit("0001110");
    reveal_strlit("0110010");
    reveal_strlit("0000010");
    reveal_strlit("0010011");
    reveal_strlit("0000111");
    reveal_strlit("0000000");
    reveal_strlit("0010101");
    reveal_strlit("1110000");
    reveal_strlit("1110001");
    reveal_strlit("1110011");
    reveal_strlit("1110111");
    reveal_strlit("1110010");
    reveal_strlit("1000010");
    reveal_strlit("1010011");
    reveal_strlit("1000111");
    reveal_strlit("1000000");
    reveal_strlit("1010101");
}

pub(crate) fn dest_to_bin(dest: &str) -> (r: &str)
    ensures
        r@ == dest_to_bin_spec(dest@),
{
    if dest.is_empty() {
        "000"
    } else if str_eq(dest, "M") {
        "001"
    } else if str_eq(dest, "D") {
        "010"
    } else if str_eq(dest, "MD") {
        "011"
    } else if str_eq(dest, "A") {
        "100"
    } else if str_eq(dest, "AM") {
        "101"
    } else if str_eq(dest, "AD") {
        "110"
    } else if str_eq(dest, "AMD") {
        "111"
    } else {
        proof {
            reveal_strlit("");
            assert(""@ =~= Seq::<char>::empty());
        }
        ""
    }
}

pub(crate) fn comp_to_bin(comp: &str) -> (r: &str)
    ensures
        r@ == comp_to_bin_spec(comp@),
{
    if str_eq(comp, "0") {
        "0101010"
    } else if str_eq(comp, "1") {
        "0111111"
    } else if str_eq(comp, "-1") {
        "0111010"
    } else if str_eq(comp, "D") {
        "0001100"
    } else if str_eq(comp, "A") {
        "0110000"
    } else if str_eq(comp, "!D") {
        "0001101"
    } else if str_eq(comp, "!A") {
        "0110001"
    } else if str_eq(comp, "-D") {
        "0001111"
    } else if str_eq(comp, "-A") {
        "0110011"
    } else if str_eq(comp, "D+1") {
        "0011111"
    } else if str_eq(comp, "A+1") {
        "0110111"
    } else if str_eq(comp, "D-1") {
        "0001110"
    } else if str_eq(comp, "A-1") {
        "0110010"
    } else if str_eq(comp, "D+A") {
        "0000010"
    } else if str_eq(comp, "D-A") {
        "0010011"
    } else if str_eq(comp, "A-D") {
        "0000111"
    } else if str_eq(comp, "D&A") {
        "0000000"
    } else if str_eq(comp, "D|A") {
        "0010101"
    } else if str_eq(comp, "M") {
        "1110000"
    } else if str_eq(comp, "!M") {
        "1110001"
    } else if str_eq(comp, "-M") {
        "1110011"
    } else if str_eq(comp, "M+1") {
        "1110111"
    } else if str_eq(comp, "M-1") {
        "1110010"
    } else if str_eq(comp, "D+M") {
        "1000010"
    } else if str_eq(comp, "D-M") {
        "1010011"
    } else if str_eq(comp, "M-D") {
        "1000111"
    } else if str_eq(comp, "D&M") {
        "1000000"
    } else if str_eq(comp, "D|M") {
        "1010101"
    } else {
        proof {
            reveal_strlit("");
            assert(""@ =~= Seq::<char>::empty());
        }
        ""
    }
}

pub(crate) fn jump_to_bin(jump: &str) -> (r: &str)
    ensures
        r@ == jump_to_bin_spec(jump@),
{
    if jump.is_empty() {
        "000"
    } else if str_eq(jump, "JGT") {
        "001"
    } else if str_eq(jump, "JEQ") {
        "010"
    } else if str_eq(jump, "JGE") {
        "011"
    } else if str_eq(jump, "JLT") {
        "100"
    } else if str_eq(jump, "JNE") {
        "101"
    } else if str_eq(jump, "JLE") {
        "110"
    } else if str_eq(jump, "JMP") {
        "111"
    } else {
        proof {
            reveal_strlit("");
            assert(""@ =~= Seq::<char>::empty());
        }
        ""
    }
}

/// Translate the three mnemonic fields of a compute instruction into its
/// 16-bit word; an unknown mnemonic contributes an empty bit-group.
pub fn to_bin(dest: &str, comp: &str, jump: &str) -> (r: String)
    ensures
        r@ == c_bits(dest@, comp@, jump@),
{
    let mut result = String::new();
    result.append("111");
    result.append(comp_to_bin(comp));
    result.append(dest_to_bin(dest));
    result.append(jump_to_bin(jump));
    proof {
        assert(result@ =~= c_bits(dest@, comp@, jump@));
    }
    result
}

/// `to_bin` over owned mnemonic fields, as a compute instruction carries them.
pub fn c_command_to_bin(dest: String, comp: String, jump: String) -> (r: String)
    ensures
        r@ == c_bits(dest@, comp@, jump@),
{
    to_bin(dest.as_str(), comp.as_str(), jump.as_str())
}

/// The 16-character binary rendering of `v`: bit 15 first, zero-extended.
pub open spec fn binary16(v: u16) -> Seq<char> {
    Seq::new(16, |i: int| if (v >> ((15 - i) as u16)) & 1u16 == 1u16 { '1' } else { '0' })
}

/// Render an address word as 16 binary digits, most significant bit first.
pub fn to_binary_string(v: u16) -> (r: String)
    ensures
        r@ == binary16(v),
{
    let mut result = String::new();
    proof {
        reveal_strlit("0");
        reveal_strlit("1");
    }
    let mut i: usize = 0;
    while i < 16
        invariant
            i <= 16,
            result@ =~= binary16(v).take(i as int),
        decreases 16 - i,
    {
        let shift: u16 = 15 - (i as u16);
        let bit: u16 = (v >> shift) & 1;
        if bit == 1 {
            result.append("1");
        } else {
            result.append("0");
        }
        proof {
            reveal_strlit("0");
            reveal_strlit("1");
            assert(binary16(v)[i as int] == (if bit == 1u16 {
                '1'
            } else {
                '0'
            }));
            assert(result@ =~= binary16(v).take(i as int + 1));
        }
        i = i + 1;
    }
    proof {
        assert(result@ =~= binary16(v));
    }
    result
}

} // verus!
