use hack_assembler::instruction_parser::{assemble, parse_instructions, AsmError};
use hack_assembler::symbol_table::SymbolTable;

#[test]
fn predefined_symbols_have_their_addresses() {
    let mut table = SymbolTable::new();
    for n in 0..16usize {
        assert_eq!(table.get_address_of_symbol(format!("R{}", n)), n);
    }
    assert_eq!(table.get_address_of_symbol("SCREEN".to_string()), 16384);
    assert_eq!(table.get_address_of_symbol("KBD".to_string()), 24576);
    assert_eq!(table.get_address_of_symbol("SP".to_string()), 0);
    assert_eq!(table.get_address_of_symbol("LCL".to_string()), 1);
    assert_eq!(table.get_address_of_symbol("ARG".to_string()), 2);
    assert_eq!(table.get_address_of_symbol("THIS".to_string()), 3);
    assert_eq!(table.get_address_of_symbol("THAT".to_string()), 4);
    assert_eq!(table.next_free_address(), 16);
}

#[test]
fn default_is_the_table_of_the_predefined_symbols() {
    let table = SymbolTable::default();
    assert_eq!(table.lookup("KBD"), Some(24576));
    assert_eq!(table.lookup("kbd"), None);
    assert_eq!(table.next_free_address(), 16);
}

#[test]
fn screen_and_sp_whatever_the_text_holds() {
    assert_eq!(assemble("@SCREEN").unwrap(), vec!["0100000000000000"]);
    assert_eq!(assemble("@SP").unwrap(), vec!["0000000000000000"]);
    let words = assemble("(SCREEN)\n@x\n(SP)\nD=A\n@SCREEN\n@SP\n").unwrap();
    assert_eq!(words[2], "0100000000000000");
    assert_eq!(words[3], "0000000000000000");
}

#[test]
fn label_takes_no_slot() {
    let source = "(LOOP)\n@LOOP";
    let mut table = SymbolTable::from(source);
    assert_eq!(table.lookup("LOOP"), Some(0));
    assert_eq!(parse_instructions(source, &mut table).unwrap(), vec!["0000000000000000"]);
}

#[test]
fn label_is_the_index_of_the_next_instruction() {
    let source = "@1\n\n// note\n(A)\n(B)\nD=A\n  (C) // here\n0;JMP\n(END)";
    let table = SymbolTable::from(source);
    assert_eq!(table.lookup("A"), Some(1));
    assert_eq!(table.lookup("B"), Some(1));
    assert_eq!(table.lookup("C"), Some(2));
    assert_eq!(table.lookup("END"), Some(3));
    assert_eq!(table.next_free_address(), 16);
}

#[test]
fn forward_reference_resolves() {
    assert_eq!(
        assemble("@END\n0;JMP\n(END)\n@END").unwrap(),
        vec!["0000000000000010", "1110101010000111", "0000000000000010"]
    );
}

#[test]
fn variables_in_order_of_first_use() {
    let source = "@foo\n@bar\n@foo";
    let mut table = SymbolTable::from(source);
    assert_eq!(
        parse_instructions(source, &mut table).unwrap(),
        vec!["0000000000010000", "0000000000010001", "0000000000010000"]
    );
    assert_eq!(table.lookup("foo"), Some(16));
    assert_eq!(table.lookup("bar"), Some(17));
    assert_eq!(table.next_free_address(), 18);
}

#[test]
fn first_use_decides_not_the_alphabet() {
    let mut table = SymbolTable::new();
    assert_eq!(table.get_address_of_symbol("zeta".to_string()), 16);
    assert_eq!(table.get_address_of_symbol("alpha".to_string()), 17);
    assert_eq!(table.get_address_of_symbol("zeta".to_string()), 16);
    assert_eq!(table.get_address_of_symbol("alpha".to_string()), 17);
    assert_eq!(table.next_free_address(), 18);
}

#[test]
fn add_label_keeps_the_first_binding() {
    let mut table = SymbolTable::new();
    table.add_label("HERE".to_string(), 7);
    table.add_label("HERE".to_string(), 9);
    table.add_label("KBD".to_string(), 3);
    assert_eq!(table.lookup("HERE"), Some(7));
    assert_eq!(table.lookup("KBD"), Some(24576));
    assert_eq!(table.next_free_address(), 16);
}

#[test]
fn a_label_declared_twice_keeps_its_first_address() {
    let table = SymbolTable::from("(X)\n@0\n(X)\n@1");
    assert_eq!(table.lookup("X"), Some(0));
}

#[test]
fn symbols_are_case_sensitive() {
    assert_eq!(assemble("@screen").unwrap(), vec!["0000000000010000"]);
    assert_eq!(assemble("@r0\n@R0").unwrap(), vec!["0000000000010000", "0000000000000000"]);
}

#[test]
fn the_last_variable_is_at_32767() {
    let mut source = String::new();
    for n in 0..(32767 - 16 + 1) {
        source.push_str(&format!("@v{}\n", n));
    }
    let mut table = SymbolTable::from(&source);
    let words = parse_instructions(&source, &mut table).unwrap();
    assert_eq!(words.len(), 32752);
    assert_eq!(words[32751], "0111111111111111");
    assert_eq!(table.next_free_address(), 32768);
    let more = "@v0\n@one_more";
    assert_eq!(
        parse_instructions(more, &mut table),
        Err(AsmError::OutOfRangeAddress { line: "@one_more".to_string() })
    );
    assert_eq!(table.lookup("one_more"), None);
    assert_eq!(table.next_free_address(), 32768);
}

#[test]
fn a_label_behind_too_many_instructions_is_out_of_range() {
    let mut source = String::new();
    for _ in 0..32768 {
        source.push_str("D=A\n");
    }
    source.push_str("(FAR)\n@FAR\n");
    let table = SymbolTable::from(&source);
    assert_eq!(table.lookup("FAR"), Some(32768));
    assert_eq!(assemble(&source), Err(AsmError::OutOfRangeAddress { line: "@FAR".to_string() }));
}
