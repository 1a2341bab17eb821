use hack_assembler::instruction_parser::{assemble, parse_instructions};
use hack_assembler::symbol_table::SymbolTable;

fn two_passes(source: &str) -> Vec<String> {
    let mut table = SymbolTable::from(source);
    parse_instructions(source, &mut table).unwrap()
}

const ADD: &str = "// Computes R0 = 2 + 3  (R0 refers to RAM[0])\n\n@2\nD=A\n@3\nD=D+A\n@0\nM=D\n";

const ADD_WORDS: [&str; 6] = [
    "0000000000000010",
    "1110110000010000",
    "0000000000000011",
    "1110000010010000",
    "0000000000000000",
    "1110001100001000",
];

const MAX: &str = "// Computes R2 = max(R0, R1)\r\n\r\n   @R0\r\n   D=M              // D = first number\r\n   @R1\r\n   D=D-M            // D = first number - second number\r\n   @OUTPUT_FIRST\r\n   D;JGT            // if D>0 (first is greater) goto output_first\r\n   @R1\r\n   D=M              // D = second number\r\n   @OUTPUT_D\r\n   0;JMP            // goto output_d\r\n(OUTPUT_FIRST)\r\n   @R0\r\n   D=M              // D = first number\r\n(OUTPUT_D)\r\n   @R2\r\n   M=D              // M[2] = D (greatest number)\r\n(INFINITE_LOOP)\r\n   @INFINITE_LOOP\r\n   0;JMP            // infinite loop\r\n";

const MAX_L: &str = "@0\nD=M\n@1\nD=D-M\n@10\nD;JGT\n@1\nD=M\n@12\n0;JMP\n@0\nD=M\n@2\nM=D\n@14\n0;JMP\n";

const MAX_WORDS: [&str; 16] = [
    "0000000000000000",
    "1111110000010000",
    "0000000000000001",
    "1111010011010000",
    "0000000000001010",
    "1110001100000001",
    "0000000000000001",
    "1111110000010000",
    "0000000000001100",
    "1110101010000111",
    "0000000000000000",
    "1111110000010000",
    "0000000000000010",
    "1110001100001000",
    "0000000000001110",
    "1110101010000111",
];

const RECT: &str = "// Draws a rectangle at the top-left corner of the screen.\n\n   @0\n   D=M\n   @INFINITE_LOOP\n   D;JLE \n   @counter\n   M=D\n   @SCREEN\n   D=A\n   @address\n   M=D\n(LOOP)\n   @address\n   A=M\n   M=-1\n   @address\n   D=M\n   @32\n   D=D+A\n   @address\n   M=D\n   @counter\n   MD=M-1\n   @LOOP\n   D;JGT\n(INFINITE_LOOP)\n   @INFINITE_LOOP\n   0;JMP\n";

const RECT_L: &str = "@0\nD=M\n@23\nD;JLE\n@16\nM=D\n@16384\nD=A\n@17\nM=D\n@17\nA=M\nM=-1\n@17\nD=M\n@32\nD=D+A\n@17\nM=D\n@16\nMD=M-1\n@10\nD;JGT\n@23\n0;JMP\n";

const RECT_WORDS: [&str; 25] = [
    "0000000000000000",
    "1111110000010000",
    "0000000000010111",
    "1110001100000110",
    "0000000000010000",
    "1110001100001000",
    "0100000000000000",
    "1110110000010000",
    "0000000000010001",
    "1110001100001000",
    "0000000000010001",
    "1111110000100000",
    "1110111010001000",
    "0000000000010001",
    "1111110000010000",
    "0000000000100000",
    "1110000010010000",
    "0000000000010001",
    "1110001100001000",
    "0000000000010000",
    "1111110010011000",
    "0000000000001010",
    "1110001100000001",
    "0000000000010111",
    "1110101010000111",
];

#[test]
fn test_add() {
    assert_eq!(two_passes(ADD), ADD_WORDS.to_vec());
    assert_eq!(assemble(ADD).unwrap(), ADD_WORDS.to_vec());
}

#[test]
fn test_max() {
    assert_eq!(two_passes(MAX), MAX_WORDS.to_vec());
    assert_eq!(assemble(MAX).unwrap(), MAX_WORDS.to_vec());
}

#[test]
fn test_max_l() {
    assert_eq!(two_passes(MAX_L), MAX_WORDS.to_vec());
}

#[test]
fn test_rect() {
    assert_eq!(two_passes(RECT), RECT_WORDS.to_vec());
    assert_eq!(assemble(RECT).unwrap(), RECT_WORDS.to_vec());
}

#[test]
fn test_rect_l() {
    assert_eq!(two_passes(RECT_L), RECT_WORDS.to_vec());
}

#[test]
fn joined_output_ends_each_word_with_a_line_break() {
    let words = assemble(ADD).unwrap();
    let text = words.join("\n") + "\n";
    assert_eq!(text.len(), 6 * 17);
    assert!(words.iter().all(|w| w.len() == 16));
}

#[test]
fn same_text_gives_same_words() {
    assert_eq!(assemble(RECT), assemble(RECT));
    assert_eq!(assemble("D=Q"), assemble("D=Q"));
}
