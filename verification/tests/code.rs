use hack_assembler::code::to_bin;
use hack_assembler::code::to_binary_string;

#[test]
fn test_to_bin() {
    assert_eq!("1110110000010000", to_bin("D", "A", ""));
    assert_eq!("1110000010010000", to_bin("D", "D+A", ""));
    assert_eq!("1110001100001000", to_bin("M", "D", ""));
    assert_eq!("1110001100000001", to_bin("", "D", "JGT"))
}

#[test]
fn test_to_bin_all_dest_masks() {
    assert_eq!("1110101010000111", to_bin("", "0", "JMP"));
    assert_eq!("1110101010001111", to_bin("M", "0", "JMP"));
    assert_eq!("1110101010010111", to_bin("D", "0", "JMP"));
    assert_eq!("1110101010011111", to_bin("MD", "0", "JMP"));
    assert_eq!("1110101010100111", to_bin("A", "0", "JMP"));
    assert_eq!("1110101010101111", to_bin("AM", "0", "JMP"));
    assert_eq!("1110101010110111", to_bin("AD", "0", "JMP"));
    assert_eq!("1110101010111111", to_bin("AMD", "0", "JMP"));
}

#[test]
fn test_to_bin_all_jump_codes() {
    assert_eq!("1110001100000000", to_bin("", "D", ""));
    assert_eq!("1110001100000001", to_bin("", "D", "JGT"));
    assert_eq!("1110001100000010", to_bin("", "D", "JEQ"));
    assert_eq!("1110001100000011", to_bin("", "D", "JGE"));
    assert_eq!("1110001100000100", to_bin("", "D", "JLT"));
    assert_eq!("1110001100000101", to_bin("", "D", "JNE"));
    assert_eq!("1110001100000110", to_bin("", "D", "JLE"));
    assert_eq!("1110001100000111", to_bin("", "D", "JMP"));
}

#[test]
fn test_to_bin_memory_comp_mnemonics() {
    assert_eq!("1111110000010000", to_bin("D", "M", ""));
    assert_eq!("1111110111001000", to_bin("M", "M+1", ""));
    assert_eq!("1111000010010000", to_bin("D", "D+M", ""));
    assert_eq!("1111010101001000", to_bin("M", "D|M", ""));
}

#[test]
fn test_to_bin_unknown_mnemonic_yields_empty_group() {
    // An unknown mnemonic contributes no bits at all: the word comes out
    // short.  The encoder rejects such instructions before emitting anything.
    assert_eq!("1110000010000", to_bin("X", "D+A", ""));
    assert_eq!("111010001", to_bin("D", "A+M", "JGT"));
}

#[test]
fn test_to_binary_string() {
    assert_eq!("0000000000000000", to_binary_string(0));
    assert_eq!("0000000000000010", to_binary_string(2));
    assert_eq!("0000000010000101", to_binary_string(133));
    assert_eq!("0111111111111111", to_binary_string(32767));
    assert_eq!("1111111111111111", to_binary_string(65535));
}
