use hack_assembler::instruction::AsmError;
use hack_assembler::instruction::Instruction;
use hack_assembler::parser::binary_code_from;
use hack_assembler::parser::build_instruction;
use hack_assembler::parser::build_symbol_table;
use hack_assembler::parser::code_to_bin;
use hack_assembler::parser::remove_all_white_space_and_comments;
use hack_assembler::symbol_table::SymbolTable;

#[test]
fn test_remove_all_white_space_and_comments() {
    let comments = vec![
        "// this",
        "\n\n",
        "// is",
        "// a comment.",
        "\n",
        "@2",
        "D=M",
        "    M=D+M  // i am here",
    ];
    let actual = remove_all_white_space_and_comments(comments);
    assert_eq!(actual, ["@2", "D=M", "M=D+M"]);
}

#[test]
fn test_compute_instruction() {
    assert_eq!(
        Instruction::Compute {
            dest: "D".into(),
            comp: "A".into(),
            jump: "".into(),
        },
        build_instruction("D=A").unwrap()
    );
    assert_eq!(
        Instruction::Compute {
            dest: "AM".into(),
            comp: "M-1".into(),
            jump: "".into(),
        },
        build_instruction("AM=M-1").unwrap()
    );
    assert_eq!(
        Instruction::Compute {
            dest: "".into(),
            comp: "0".into(),
            jump: "JEQ".into(),
        },
        build_instruction("0;JEQ").unwrap()
    );
}

#[test]
fn test_build_symbol_table() {
    let lines = vec!["@2", "@i", "@sum", "@R1"];
    let instructions: Vec<Instruction> = lines
        .iter()
        .map(|line| build_instruction(line).unwrap())
        .collect();
    let symbol_table = build_symbol_table(&instructions);
    assert_eq!(Some(16), symbol_table.get_address("i"));
    assert_eq!(Some(17), symbol_table.get_address("sum"));
    assert_eq!(Some(1), symbol_table.get_address("R1"));
}

#[test]
fn test_build_instruction() {
    let symbol_table = SymbolTable::new();
    assert_eq!(
        "0000000000000010",
        build_instruction("@2")
            .unwrap()
            .to_bin(&symbol_table)
            .unwrap()
            .unwrap()
    );
    assert_eq!(
        "0000000010000101",
        build_instruction("@133")
            .unwrap()
            .to_bin(&symbol_table)
            .unwrap()
            .unwrap()
    );
    assert_eq!(
        "1110110000010000",
        build_instruction("D=A")
            .unwrap()
            .to_bin(&symbol_table)
            .unwrap()
            .unwrap()
    );
    assert_eq!(
        "1110000010010000",
        build_instruction("D=D+A")
            .unwrap()
            .to_bin(&symbol_table)
            .unwrap()
            .unwrap()
    );
    assert_eq!(
        "1110001100001000",
        build_instruction("M=D")
            .unwrap()
            .to_bin(&symbol_table)
            .unwrap()
            .unwrap()
    );
    assert_eq!(
        "1110001100000001",
        build_instruction("D;JGT")
            .unwrap()
            .to_bin(&symbol_table)
            .unwrap()
            .unwrap()
    );
    assert_eq!(
        "0000000000000000",
        build_instruction("@SP")
            .unwrap()
            .to_bin(&symbol_table)
            .unwrap()
            .unwrap()
    );
    assert_eq!(
        "0000000000001111",
        build_instruction("@R15")
            .unwrap()
            .to_bin(&symbol_table)
            .unwrap()
            .unwrap()
    );
}

#[test]
fn test_binary_code_from_assembly_code() {
    let lines = vec![
        "// this",
        "\n\n",
        "// is",
        "// a comment.",
        "\n",
        "@2",
        "D=A",
        "@3",
        "D=D+A",
        "@0",
        "M=D",
    ];
    let expected = vec![
        "0000000000000010",
        "1110110000010000",
        "0000000000000011",
        "1110000010010000",
        "0000000000000000",
        "1110001100001000",
    ];

    let actual = binary_code_from(lines).unwrap();
    assert_eq!(expected, actual);
}

#[test]
fn test_binary_code_from_assembly_code_with_symbol() {
    let lines = vec![
        "// this",
        "\n\n",
        "// is",
        "// a comment.",
        "\n",
        "@0",
        "D=M",
        "@LOOP",
        "D;JLE",
        "(LOOP)",
        "M=D",
        "@counter",
    ];
    let expected = vec![
        "0000000000000000", // @0
        "1111110000010000", // D=M
        "0000000000000100", // @LOOP
        "1110001100000110", // D;JLE
        "1110001100001000", // M=D
        "0000000000010000", // @counter
    ];

    let actual = binary_code_from(lines).unwrap();
    assert_eq!(expected, actual);
}

#[test]
fn test_code_to_bin() {
    assert_eq!("0000000000000010", code_to_bin("@2"));
    assert_eq!("0000000010000101", code_to_bin("@133"));
    assert_eq!("1110110000010000", code_to_bin("D=A"));
    assert_eq!("1110000010010000", code_to_bin("D=D+A"));
    assert_eq!("1110001100001000", code_to_bin("M=D"));
    assert_eq!("1110001100000001", code_to_bin("D;JGT"));
}

#[test]
fn test_address_value_range() {
    assert_eq!("0000000000000000", code_to_bin("@0"));
    assert_eq!("0111111111111111", code_to_bin("@32767"));
}

#[test]
fn test_classify_address_forms() {
    assert_eq!(
        Instruction::AddressValue { value: 2 },
        build_instruction("@2").unwrap()
    );
    assert_eq!(
        Instruction::AddressSymbol { name: "counter".into() },
        build_instruction("@counter").unwrap()
    );
    // A non-numeric remainder is a symbol, whatever it holds.
    assert_eq!(
        Instruction::AddressSymbol { name: "12x".into() },
        build_instruction("@12x").unwrap()
    );
    assert_eq!(
        Instruction::AddressSymbol { name: "".into() },
        build_instruction("@").unwrap()
    );
    // Address literals are 15-bit unsigned: a sign makes the rest a name.
    assert_eq!(
        Instruction::AddressSymbol { name: "+5".into() },
        build_instruction("@+5").unwrap()
    );
    assert_eq!(
        Instruction::AddressSymbol { name: "-5".into() },
        build_instruction("@-5").unwrap()
    );
}

#[test]
fn test_classify_label_forms() {
    assert_eq!(
        Instruction::Label { name: "LOOP".into() },
        build_instruction("(LOOP)").unwrap()
    );
    // The bracketed text may be empty.
    assert_eq!(
        Instruction::Label { name: "".into() },
        build_instruction("()").unwrap()
    );
    // The name runs from the first `(` to the last `)`.
    assert_eq!(
        Instruction::Label { name: "b)c(d".into() },
        build_instruction("a(b)c(d)e").unwrap()
    );
    // An unclosed bracket is no label: the line falls through to the
    // compute form.
    assert_eq!(
        Instruction::Compute {
            dest: "".into(),
            comp: "(LOOP".into(),
            jump: "".into(),
        },
        build_instruction("(LOOP").unwrap()
    );
}

#[test]
fn test_classify_compute_forms() {
    // An `=` after a non-register prefix belongs to `comp`.
    assert_eq!(
        Instruction::Compute {
            dest: "".into(),
            comp: "X=D".into(),
            jump: "".into(),
        },
        build_instruction("X=D").unwrap()
    );
    // An empty `dest` may still be written out.
    assert_eq!(
        Instruction::Compute {
            dest: "".into(),
            comp: "D".into(),
            jump: "".into(),
        },
        build_instruction("=D").unwrap()
    );
    assert_eq!(
        Instruction::Compute {
            dest: "MD".into(),
            comp: "M+1".into(),
            jump: "JMP".into(),
        },
        build_instruction("MD=M+1;JMP").unwrap()
    );
}

#[test]
fn test_malformed_instruction_line() {
    assert_eq!(
        AsmError::MalformedInstruction { line: "D;J".to_string() },
        build_instruction("D;J").unwrap_err()
    );
    assert_eq!(
        AsmError::MalformedInstruction { line: "D;JGTX".to_string() },
        build_instruction("D;JGTX").unwrap_err()
    );
    let lines = vec!["@2", "D=A", "0;JM"];
    assert_eq!(
        AsmError::MalformedInstruction { line: "0;JM".to_string() },
        binary_code_from(lines).unwrap_err()
    );
}

#[test]
fn test_numeric_overflow_line() {
    assert_eq!(
        AsmError::NumericOverflow { line: "@32768".to_string() },
        build_instruction("@32768").unwrap_err()
    );
    assert_eq!(
        AsmError::NumericOverflow { line: "@99999999999999999999".to_string() },
        build_instruction("@99999999999999999999").unwrap_err()
    );
    let lines = vec!["@32768"];
    assert_eq!(
        AsmError::NumericOverflow { line: "@32768".to_string() },
        binary_code_from(lines).unwrap_err()
    );
}

#[test]
fn test_unknown_mnemonic_is_malformed() {
    // `AMD` alone has no `=`, so it is a `comp` field, and no such ALU
    // mnemonic exists: the encoder reports it instead of emitting a short
    // word.
    let symbol_table = SymbolTable::new();
    assert_eq!(
        AsmError::MalformedInstruction { line: "AMD".to_string() },
        build_instruction("AMD")
            .unwrap()
            .to_bin(&symbol_table)
            .unwrap_err()
    );
    // A doubled register in `dest` is outside the fixed table too.
    assert_eq!(
        AsmError::MalformedInstruction { line: "DD=1".to_string() },
        build_instruction("DD=1")
            .unwrap()
            .to_bin(&symbol_table)
            .unwrap_err()
    );
    let lines = vec!["@2", "D=A+M"];
    assert_eq!(
        AsmError::MalformedInstruction { line: "D=A+M".to_string() },
        binary_code_from(lines).unwrap_err()
    );
}

#[test]
fn test_undefined_symbol_when_encoding_alone() {
    // Encoding against a table that never saw the instruction sequence can
    // miss a symbol; the full pipeline never does.
    let symbol_table = SymbolTable::new();
    assert_eq!(
        AsmError::UndefinedSymbol { name: "nowhere".to_string() },
        Instruction::AddressSymbol { name: "nowhere".into() }
            .to_bin(&symbol_table)
            .unwrap_err()
    );
}

#[test]
fn test_labels_consume_no_rom_address() {
    let lines = vec!["@0", "D=M", "@LOOP", "D;JLE", "(LOOP)", "M=D", "@counter"];
    let instructions: Vec<Instruction> = lines
        .iter()
        .map(|line| build_instruction(line).unwrap())
        .collect();
    let symbol_table = build_symbol_table(&instructions);
    // The label marks the next real instruction: the fifth word, address 4.
    assert_eq!(Some(4), symbol_table.get_address("LOOP"));
    // The variable gets the first free RAM address.
    assert_eq!(Some(16), symbol_table.get_address("counter"));
    // One output line per non-label instruction, in source order.
    let output = binary_code_from(lines).unwrap();
    assert_eq!(6, output.len());
}

#[test]
fn test_variables_in_order_of_first_appearance() {
    let lines = vec!["@b", "@a", "(a)", "@b", "@c", "@R3", "@SCREEN"];
    let instructions: Vec<Instruction> = lines
        .iter()
        .map(|line| build_instruction(line).unwrap())
        .collect();
    let symbol_table = build_symbol_table(&instructions);
    assert_eq!(Some(16), symbol_table.get_address("b"));
    // `a` is claimed by the label first: ROM address 2.
    assert_eq!(Some(2), symbol_table.get_address("a"));
    assert_eq!(Some(17), symbol_table.get_address("c"));
    // Predefined names are never treated as variables.
    assert_eq!(Some(3), symbol_table.get_address("R3"));
    assert_eq!(Some(16384), symbol_table.get_address("SCREEN"));
}

#[test]
fn test_predefined_symbols_survive_any_source() {
    let lines = vec!["(SP)", "@SP", "@KBD", "(KBD)", "@R15"];
    let instructions: Vec<Instruction> = lines
        .iter()
        .map(|line| build_instruction(line).unwrap())
        .collect();
    let symbol_table = build_symbol_table(&instructions);
    assert_eq!(Some(0), symbol_table.get_address("SP"));
    assert_eq!(Some(24576), symbol_table.get_address("KBD"));
    assert_eq!(Some(15), symbol_table.get_address("R15"));
}

#[test]
fn test_preprocessing_is_idempotent() {
    let lines = vec!["  @2 // load", "", "// gone", "(LOOP)  ", "\tD=M"];
    let once = remove_all_white_space_and_comments(lines);
    let twice = remove_all_white_space_and_comments(once.clone());
    assert_eq!(once, twice);
}

#[test]
fn test_unicode_whitespace_is_trimmed() {
    let lines = vec!["\u{a0}@2\u{a0}", "\t D=A \u{2003}", " // only a comment "];
    let actual = remove_all_white_space_and_comments(lines);
    assert_eq!(actual, ["@2", "D=A"]);
}

#[test]
fn test_comment_marker_splits_mid_line() {
    let lines = vec!["@2//tail", "D=A// x // y", "//@3"];
    let actual = remove_all_white_space_and_comments(lines);
    assert_eq!(actual, ["@2", "D=A"]);
}

#[test]
fn test_pipeline_is_deterministic() {
    let lines = vec!["@0", "D=M", "@LOOP", "D;JLE", "(LOOP)", "M=D", "@counter"];
    let first = binary_code_from(lines.clone()).unwrap();
    let second = binary_code_from(lines).unwrap();
    assert_eq!(first, second);
}
