use hack_assembler::symbol_table::SymbolTable;

#[test]
fn test_symbol_table() {
    let mut symbol_table = SymbolTable::new();
    symbol_table.add_entry("EXIT", 0);

    assert_eq!(true, symbol_table.contains("EXIT"));
    assert_eq!(Some(0), symbol_table.get_address("EXIT"));

    assert_eq!(false, symbol_table.contains("ABC"));
    assert_eq!(None, symbol_table.get_address("ABC"));
}

#[test]
fn test_symbol_table_contains_predefined_symbols() {
    let symbol_table = SymbolTable::new();
    assert_eq!(Some(0), symbol_table.get_address("SP"));
    assert_eq!(Some(1), symbol_table.get_address("LCL"));
    assert_eq!(Some(2), symbol_table.get_address("ARG"));
    assert_eq!(Some(3), symbol_table.get_address("THIS"));
    assert_eq!(Some(4), symbol_table.get_address("THAT"));

    assert_eq!(Some(0), symbol_table.get_address("R0"));
    assert_eq!(Some(1), symbol_table.get_address("R1"));
    assert_eq!(Some(2), symbol_table.get_address("R2"));
    assert_eq!(Some(3), symbol_table.get_address("R3"));
    assert_eq!(Some(4), symbol_table.get_address("R4"));
    assert_eq!(Some(5), symbol_table.get_address("R5"));
    assert_eq!(Some(6), symbol_table.get_address("R6"));
    assert_eq!(Some(7), symbol_table.get_address("R7"));
    assert_eq!(Some(8), symbol_table.get_address("R8"));
    assert_eq!(Some(9), symbol_table.get_address("R9"));
    assert_eq!(Some(10), symbol_table.get_address("R10"));
    assert_eq!(Some(11), symbol_table.get_address("R11"));
    assert_eq!(Some(12), symbol_table.get_address("R12"));
    assert_eq!(Some(13), symbol_table.get_address("R13"));
    assert_eq!(Some(14), symbol_table.get_address("R14"));
    assert_eq!(Some(15), symbol_table.get_address("R15"));

    assert_eq!(Some(16384), symbol_table.get_address("SCREEN"));
    assert_eq!(Some(24576), symbol_table.get_address("KBD"));
}

#[test]
fn test_first_entry_wins() {
    let mut symbol_table = SymbolTable::new();
    symbol_table.add_entry("LOOP", 7);
    symbol_table.add_entry("LOOP", 9);
    assert_eq!(Some(7), symbol_table.get_address("LOOP"));

    // A predefined symbol can never be reassigned either.
    symbol_table.add_entry("SP", 42);
    assert_eq!(Some(0), symbol_table.get_address("SP"));
}
