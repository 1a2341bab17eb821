use hack_assembler::instruction_parser::{
    assemble, parse_instruction, push_bits, AInstruction, AsmError, CInstruction, Instruction,
};
use hack_assembler::mnemonics::{lookup_comp, lookup_dest, lookup_jump};
use hack_assembler::symbol_table::SymbolTable;
use hack_assembler::text::{find, is_whitespace, remove_comments, split_lines, string_of, strip_spaces};

fn chars(s: &str) -> Vec<char> {
    s.chars().collect()
}

fn unknown(token: &str, line: &str) -> AsmError {
    AsmError::UnknownMnemonic { token: token.to_string(), line: line.to_string() }
}

#[test]
fn d_gets_a() {
    assert_eq!(assemble("D=A").unwrap(), vec!["1110110000010000"]);
    assert_eq!(
        CInstruction::parse(&chars("D=A")),
        Ok(CInstruction { dest: 0b010, comp: 0b0110000, jmp: 0b000 })
    );
}

#[test]
fn jump_only_line() {
    assert_eq!(assemble("0;JMP").unwrap(), vec!["1110101010000111"]);
}

#[test]
fn all_three_fields() {
    assert_eq!(assemble("ADM=D|M;JNE").unwrap(), vec!["1111010101111101"]);
    assert_eq!(assemble("AM=M-1;JLT").unwrap(), vec!["1111110010101100"]);
}

#[test]
fn comment_does_not_change_the_word() {
    assert_eq!(assemble("@5 // comment").unwrap(), assemble("@5").unwrap());
    assert_eq!(assemble("@5 // comment").unwrap(), vec!["0000000000000101"]);
    assert_eq!(assemble("D=A//x//y").unwrap(), vec!["1110110000010000"]);
}

#[test]
fn blank_and_comment_lines_give_no_word() {
    assert_eq!(assemble("").unwrap(), Vec::<String>::new());
    assert_eq!(assemble("\n\n   \n\t\n// only\n   // this\n").unwrap(), Vec::<String>::new());
    assert_eq!(
        assemble("\n// a\n(L)\n\n   \n@L\n// b\n(M)\n@M").unwrap(),
        vec!["0000000000000000", "0000000000000001"]
    );
}

#[test]
fn unknown_computation_fails() {
    assert_eq!(assemble("D=Q"), Err(unknown("Q", "D=Q")));
    assert_eq!(assemble("@1\nD=Q\n@2"), Err(unknown("Q", "D=Q")));
}

#[test]
fn unknown_destination_and_jump_fail() {
    assert_eq!(assemble("X=A"), Err(unknown("X", "X=A")));
    assert_eq!(assemble("MA=A"), Err(unknown("MA", "MA=A")));
    assert_eq!(assemble("D;JJJ"), Err(unknown("JJJ", "D;JJJ")));
    assert_eq!(assemble("X=Q;JJJ"), Err(unknown("X", "X=Q;JJJ")));
    assert_eq!(assemble("D=Q;JJJ"), Err(unknown("JJJ", "D=Q;JJJ")));
    assert_eq!(assemble("=A"), Err(unknown("", "=A")));
    assert_eq!(assemble("D;"), Err(unknown("", "D;")));
    assert_eq!(assemble("D="), Err(unknown("", "D=")));
    assert_eq!(assemble("D=A=M"), Err(unknown("A=M", "D=A=M")));
    assert_eq!(assemble("0;JMP;JMP"), Err(unknown("JMP;JMP", "0;JMP;JMP")));
    assert_eq!(assemble("d=a"), Err(unknown("d", "d=a")));
}

#[test]
fn the_first_failure_is_reported() {
    assert_eq!(assemble("D=A\nfoo\nbar"), Err(unknown("foo", "foo")));
}

#[test]
fn null_is_in_two_tables() {
    assert_eq!(assemble("null=D;null").unwrap(), vec!["1110001100000000"]);
    assert_eq!(assemble("null"), Err(unknown("null", "null")));
}

#[test]
fn white_space_inside_a_line_does_not_count() {
    assert_eq!(assemble("  M D = D + 1 ; J GT  ").unwrap(), vec!["1110011111011001"]);
    assert_eq!(assemble("D\u{a0}=\u{3000}A").unwrap(), vec!["1110110000010000"]);
}

#[test]
fn literal_addresses() {
    assert_eq!(assemble("@0").unwrap(), vec!["0000000000000000"]);
    assert_eq!(assemble("@007").unwrap(), vec!["0000000000000111"]);
    assert_eq!(assemble("@+5").unwrap(), vec!["0000000000000101"]);
    assert_eq!(assemble("@32767").unwrap(), vec!["0111111111111111"]);
    assert_eq!(assemble("@21845").unwrap(), vec!["0101010101010101"]);
}

#[test]
fn literal_above_fifteen_bits_is_refused() {
    let refused = |line: &str| Err(AsmError::OutOfRangeAddress { line: line.to_string() });
    assert_eq!(assemble("@32768"), refused("@32768"));
    assert_eq!(assemble("@65535"), refused("@65535"));
    assert_eq!(assemble("@65536"), refused("@65536"));
    assert_eq!(assemble("@99999999999999999999999999"), refused("@99999999999999999999999999"));
}

#[test]
fn what_is_no_literal_is_a_symbol() {
    assert_eq!(assemble("@-1").unwrap(), vec!["0000000000010000"]);
    assert_eq!(assemble("@+").unwrap(), vec!["0000000000010000"]);
    assert_eq!(assemble("@").unwrap(), vec!["0000000000010000"]);
    assert_eq!(assemble("@1a\n@1a\n@12").unwrap(), vec![
        "0000000000010000",
        "0000000000010000",
        "0000000000001100"
    ]);
}

#[test]
fn malformed_labels_fail() {
    let malformed = |line: &str| Err(AsmError::MalformedLabel { line: line.to_string() });
    assert_eq!(assemble("()"), malformed("()"));
    assert_eq!(assemble("(LOOP"), malformed("(LOOP"));
    assert_eq!(assemble("("), malformed("("));
    assert_eq!(assemble("@1\n  (LOOP // open\n@2"), malformed("(LOOP"));
    assert_eq!(assemble("LOOP)"), Err(unknown("LOOP)", "LOOP)")));
}

#[test]
fn parse_instruction_tells_the_two_forms_apart() {
    let mut table = SymbolTable::new();
    assert_eq!(
        parse_instruction(&chars("@KBD"), &mut table),
        Ok(Instruction::Address(AInstruction { address: 24576 }))
    );
    assert_eq!(
        parse_instruction(&chars("M=D"), &mut table),
        Ok(Instruction::Compute(CInstruction { dest: 1, comp: 0b0001100, jmp: 0 }))
    );
    assert_eq!(
        parse_instruction(&chars("(X)"), &mut table),
        Err(AsmError::MalformedLabel { line: "(X)".to_string() })
    );
    assert_eq!(parse_instruction(&chars(""), &mut table), Err(unknown("", "")));
    assert_eq!(table.next_free_address(), 16);
}

#[test]
fn address_instruction_allocates() {
    let mut table = SymbolTable::new();
    assert_eq!(AInstruction::parse(&chars("@i"), &mut table), Ok(AInstruction { address: 16 }));
    assert_eq!(AInstruction::parse(&chars("@j"), &mut table), Ok(AInstruction { address: 17 }));
    assert_eq!(AInstruction::parse(&chars("@i"), &mut table), Ok(AInstruction { address: 16 }));
    assert_eq!(AInstruction::parse(&chars("@100"), &mut table), Ok(AInstruction { address: 100 }));
    assert_eq!(table.next_free_address(), 18);
}

#[test]
fn words_of_instructions() {
    assert_eq!(AInstruction { address: 5 }.to_binary_string(), "0000000000000101");
    assert_eq!(AInstruction { address: 32767 }.to_binary_string(), "0111111111111111");
    assert_eq!(
        CInstruction { dest: 0b101, comp: 0b1010101, jmp: 0b010 }.to_binary_string(),
        "1111010101101010"
    );
    assert_eq!(
        Instruction::Compute(CInstruction { dest: 0, comp: 0, jmp: 0 }).to_binary_string(),
        "1110000000000000"
    );
    assert_eq!(
        Instruction::Address(AInstruction { address: 16384 }).to_binary_string(),
        "0100000000000000"
    );
}

#[test]
fn push_bits_writes_the_lowest_bits() {
    let mut out = vec!['x'];
    push_bits(&mut out, 0b1011, 6);
    assert_eq!(out, chars("x001011"));
    push_bits(&mut out, 0b1011, 2);
    assert_eq!(out, chars("x00101111"));
    push_bits(&mut out, 7, 0);
    assert_eq!(out, chars("x00101111"));
}

#[test]
fn every_computation_has_its_code() {
    let table: [(&str, u8); 28] = [
        ("0", 0b0101010),
        ("1", 0b0111111),
        ("-1", 0b0111010),
        ("D", 0b0001100),
        ("A", 0b0110000),
        ("!D", 0b0001101),
        ("!A", 0b0110001),
        ("-D", 0b0001111),
        ("-A", 0b0110011),
        ("D+1", 0b0011111),
        ("A+1", 0b0110111),
        ("D-1", 0b0001110),
        ("A-1", 0b0110010),
        ("D+A", 0b0000010),
        ("D-A", 0b0010011),
        ("A-D", 0b0000111),
        ("D&A", 0b0000000),
        ("D|A", 0b0010101),
        ("M", 0b1110000),
        ("!M", 0b1110001),
        ("-M", 0b1110011),
        ("M+1", 0b1110111),
        ("M-1", 0b1110010),
        ("D+M", 0b1000010),
        ("D-M", 0b1010011),
        ("M-D", 0b1000111),
        ("D&M", 0b1000000),
        ("D|M", 0b1010101),
    ];
    for (token, code) in table {
        assert_eq!(lookup_comp(&chars(token)), Some(code), "{}", token);
    }
    assert_eq!(lookup_comp(&chars("A+D")), None);
    assert_eq!(lookup_comp(&chars("M+D")), None);
    assert_eq!(lookup_comp(&chars("")), None);
    assert_eq!(lookup_comp(&chars("D+1 ")), None);
}

#[test]
fn every_destination_and_jump_has_its_code() {
    let dest: [(&str, u8); 9] = [
        ("null", 0),
        ("M", 1),
        ("D", 2),
        ("DM", 3),
        ("MD", 3),
        ("A", 4),
        ("AM", 5),
        ("AD", 6),
        ("ADM", 7),
    ];
    for (token, code) in dest {
        assert_eq!(lookup_dest(&chars(token)), Some(code), "{}", token);
    }
    assert_eq!(lookup_dest(&chars("MA")), None);
    assert_eq!(lookup_dest(&chars("AMD")), None);
    let jump: [(&str, u8); 8] = [
        ("null", 0),
        ("JGT", 1),
        ("JEQ", 2),
        ("JGE", 3),
        ("JLT", 4),
        ("JNE", 5),
        ("JLE", 6),
        ("JMP", 7),
    ];
    for (token, code) in jump {
        assert_eq!(lookup_jump(&chars(token)), Some(code), "{}", token);
    }
    assert_eq!(lookup_jump(&chars("jmp")), None);
}

#[test]
fn remove_comments_strips_and_trims() {
    assert_eq!(remove_comments(&chars("  @5   // comment")), chars("@5"));
    assert_eq!(remove_comments(&chars("@5")), chars("@5"));
    assert_eq!(remove_comments(&chars("// all")), chars(""));
    assert_eq!(remove_comments(&chars(" \t \r")), chars(""));
    assert_eq!(remove_comments(&chars("")), chars(""));
    assert_eq!(remove_comments(&chars("D = A / x")), chars("D = A / x"));
    assert_eq!(remove_comments(&chars("a/// b")), chars("a"));
    assert_eq!(remove_comments(&chars("/")), chars("/"));
    assert_eq!(remove_comments(&chars("\u{2003}D=A\u{85}")), chars("D=A"));
}

#[test]
fn normal_form_of_a_normal_form_is_itself() {
    for line in ["  @5   // comment", "D = A", "// x", "", " a / /b //c ", "(L) "] {
        let once = remove_comments(&chars(line));
        assert_eq!(remove_comments(&once), once);
    }
}

#[test]
fn split_lines_cuts_at_line_feeds() {
    assert_eq!(split_lines(""), vec![chars("")]);
    assert_eq!(split_lines("a"), vec![chars("a")]);
    assert_eq!(split_lines("a\n"), vec![chars("a"), chars("")]);
    assert_eq!(split_lines("a\r\n\nb c"), vec![chars("a\r"), chars(""), chars("b c")]);
}

#[test]
fn white_space_is_what_the_standard_says() {
    for n in 0..0x11000u32 {
        if let Some(c) = char::from_u32(n) {
            assert_eq!(is_whitespace(c), c.is_whitespace(), "{:x}", n);
        }
    }
}

#[test]
fn small_text_helpers() {
    assert_eq!(strip_spaces(&chars(" a b\tc "), 0, 7), chars("abc"));
    assert_eq!(strip_spaces(&chars(" a b\tc "), 2, 4), chars("b"));
    assert_eq!(find(&chars("a=b=c"), '=', 0), 1);
    assert_eq!(find(&chars("a=b=c"), '=', 2), 3);
    assert_eq!(find(&chars("a=b=c"), ';', 0), 5);
    assert_eq!(find(&chars("a=b=c"), '=', 9), 5);
    assert_eq!(string_of(&chars("h\u{e9}llo")), "h\u{e9}llo");
}

#[test]
fn failures_are_reported_with_their_line() {
    assert_eq!(unknown("Q", "D=Q").message(), "unknown mnemonic `Q` in line `D=Q`");
    assert_eq!(
        AsmError::OutOfRangeAddress { line: "@40000".to_string() }.message(),
        "address out of range in line `@40000`"
    );
    assert_eq!(
        AsmError::MalformedLabel { line: "(X".to_string() }.message(),
        "malformed label in line `(X`"
    );
    assert_eq!(assemble("@1\n M = Q // ?").unwrap_err().message(), "unknown mnemonic `Q` in line `M = Q`");
}
