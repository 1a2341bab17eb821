//! The three fixed tables of the compute instruction.
use vstd::prelude::*;

verus! {

/// The code of a computation: its first bit tells whether the memory stands for `A`.
pub open spec fn comp_code(token: Seq<char>) -> Option<u8> {
    if token == seq!['0'] {
        Some(0b0101010u8)
    } else if token == seq!['1'] {
        Some(0b0111111u8)
    } else if token == seq!['-', '1'] {
        Some(0b0111010u8)
    } else if token == seq!['D'] {
        Some(0b0001100u8)
    } else if token == seq!['A'] {
        Some(0b0110000u8)
    } else if token == seq!['!', 'D'] {
        Some(0b0001101u8)
    } else if token == seq!['!', 'A'] {
        Some(0b0110001u8)
    } else if token == seq!['-', 'D'] {
        Some(0b0001111u8)
    } else if token == seq!['-', 'A'] {
        Some(0b0110011u8)
    } else if token == seq!['D', '+', '1'] {
        Some(0b0011111u8)
    } else if token == seq!['A', '+', '1'] {
        Some(0b0110111u8)
    } else if token == seq!['D', '-', '1'] {
        Some(0b0001110u8)
    } else if token == seq!['A', '-', '1'] {
        Some(0b0110010u8)
    } else if token == seq!['D', '+', 'A'] {
        Some(0b0000010u8)
    } else if token == seq!['D', '-', 'A'] {
        Some(0b0010011u8)
    } else if token == seq!['A', '-', 'D'] {
        Some(0b0000111u8)
    } else if token == seq!['D', '&', 'A'] {
        Some(0b0000000u8)
    } else if token == seq!['D', '|', 'A'] {
        Some(0b0010101u8)
    } else if token == seq!['M'] {
        Some(0b1110000u8)
    } else if token == seq!['!', 'M'] {
        Some(0b1110001u8)
    } else if token == seq!['-', 'M'] {
        Some(0b1110011u8)
    } else if token == seq!['M', '+', '1'] {
        Some(0b1110111u8)
    } else if token == seq!['M', '-', '1'] {
        Some(0b1110010u8)
    } else if token == seq!['D', '+', 'M'] {
        Some(0b1000010u8)
    } else if token == seq!['D', '-', 'M'] {
        Some(0b1010011u8)
    } else if token == seq!['M', '-', 'D'] {
        Some(0b1000111u8)
    } else if token == seq!['D', '&', 'M'] {
        Some(0b1000000u8)
    } else if token == seq!['D', '|', 'M'] {
        Some(0b1010101u8)
    } else {
        None
    }
}

/// The code of a destination.
pub open spec fn dest_code(token: Seq<char>) -> Option<u8> {
    if token == seq!['n', 'u', 'l', 'l'] {
        Some(0b000u8)
    } else if token == seq!['M'] {
        Some(0b001u8)
    } else if token == seq!['D'] {
        Some(0b010u8)
    } else if token == seq!['D', 'M'] {
        Some(0b011u8)
    } else if token == seq!['M', 'D'] {
        Some(0b011u8)
    } else if token == seq!['A'] {
        Some(0b100u8)
    } else if token == seq!['A', 'M'] {
        Some(0b101u8)
    } else if token == seq!['A', 'D'] {
        Some(0b110u8)
    } else if token == seq!['A', 'D', 'M'] {
        Some(0b111u8)
    } else {
        None
    }
}

/// The code of a jump.
pub open spec fn jump_code(token: Seq<char>) -> Option<u8> {
    if token == seq!['n', 'u', 'l', 'l'] {
        Some(0b000u8)
    } else if token == seq!['J', 'G', 'T'] {
        Some(0b001u8)
    } else if token == seq!['J', 'E', 'Q'] {
        Some(0b010u8)
    } else if token == seq!['J', 'G', 'E'] {
        Some(0b011u8)
    } else if token == seq!['J', 'L', 'T'] {
        Some(0b100u8)
    } else if token == seq!['J', 'N', 'E'] {
        Some(0b101u8)
    } else if token == seq!['J', 'L', 'E'] {
        Some(0b110u8)
    } else if token == seq!['J', 'M', 'P'] {
        Some(0b111u8)
    } else {
        None
    }
}

/// Tells whether `token` is the given character.
fn is_token1(token: &[char], c0: char) -> (r: bool)
    ensures
        r == (token@ == seq![c0]),
{
    let r: bool = token.len() == 1 && token[0] == c0;
    proof {
        if r {
            assert(token@ =~= seq![c0]);
        }
    }
    r
}

/// Tells whether `token` is the given 2 characters.
fn is_token2(token: &[char], c0: char, c1: char) -> (r: bool)
    ensures
        r == (token@ == seq![c0, c1]),
{
    let r: bool = token.len() == 2 && token[0] == c0 && token[1] == c1;
    proof {
        if r {
            assert(token@ =~= seq![c0, c1]);
        }
    }
    r
}

/// Tells whether `token` is the given 3 characters.
fn is_token3(token: &[char], c0: char, c1: char, c2: char) -> (r: bool)
    ensures
        r == (token@ == seq![c0, c1, c2]),
{
    let r: bool = token.len() == 3 && token[0] == c0 && token[1] == c1 && token[2] == c2;
    proof {
        if r {
            assert(token@ =~= seq![c0, c1, c2]);
        }
    }
    r
}

/// Tells whether `token` is the given 4 characters.
fn is_token4(token: &[char], c0: char, c1: char, c2: char, c3: char) -> (r: bool)
    ensures
        r == (token@ == seq![c0, c1, c2, c3]),
{
    let r: bool = token.len() == 4 && token[0] == c0 && token[1] == c1 && token[2] == c2 && token[3] == c3;
    proof {
        if r {
            assert(token@ =~= seq![c0, c1, c2, c3]);
        }
    }
    r
}

/// Looks a computation up.
pub fn lookup_comp(token: &[char]) -> (r: Option<u8>)
    ensures
        r == comp_code(token@),
{
    if is_token1(token, '0') {
        Some(0b0101010)
    } else if is_token1(token, '1') {
        Some(0b0111111)
    } else if is_token2(token, '-', '1') {
        Some(0b0111010)
    } else if is_token1(token, 'D') {
        Some(0b0001100)
    } else if is_token1(token, 'A') {
        Some(0b0110000)
    } else if is_token2(token, '!', 'D') {
        Some(0b0001101)
    } else if is_token2(token, '!', 'A') {
        Some(0b0110001)
    } else if is_token2(token, '-', 'D') {
        Some(0b0001111)
    } else if is_token2(token, '-', 'A') {
        Some(0b0110011)
    } else if is_token3(token, 'D', '+', '1') {
        Some(0b0011111)
    } else if is_token3(token, 'A', '+', '1') {
        Some(0b0110111)
    } else if is_token3(token, 'D', '-', '1') {
        Some(0b0001110)
    } else if is_token3(token, 'A', '-', '1') {
        Some(0b0110010)
    } else if is_token3(token, 'D', '+', 'A') {
        Some(0b0000010)
    } else if is_token3(token, 'D', '-', 'A') {
        Some(0b0010011)
    } else if is_token3(token, 'A', '-', 'D') {
        Some(0b0000111)
    } else if is_token3(token, 'D', '&', 'A') {
        Some(0b0000000)
    } else if is_token3(token, 'D', '|', 'A') {
        Some(0b0010101)
    } else if is_token1(token, 'M') {
        Some(0b1110000)
    } else if is_token2(token, '!', 'M') {
        Some(0b1110001)
    } else if is_token2(token, '-', 'M') {
        Some(0b1110011)
    } else if is_token3(token, 'M', '+', '1') {
        Some(0b1110111)
    } else if is_token3(token, 'M', '-', '1') {
        Some(0b1110010)
    } else if is_token3(token, 'D', '+', 'M') {
        Some(0b1000010)
    } else if is_token3(token, 'D', '-', 'M') {
        Some(0b1010011)
    } else if is_token3(token, 'M', '-', 'D') {
        Some(0b1000111)
    } else if is_token3(token, 'D', '&', 'M') {
        Some(0b1000000)
    } else if is_token3(token, 'D', '|', 'M') {
        Some(0b1010101)
    } else {
        None
    }
}

/// Looks a destination up.
pub fn lookup_dest(token: &[char]) -> (r: Option<u8>)
    ensures
        r == dest_code(token@),
{
    if is_token4(token, 'n', 'u', 'l', 'l') {
        Some(0b000)
    } else if is_token1(token, 'M') {
        Some(0b001)
    } else if is_token1(token, 'D') {
        Some(0b010)
    } else if is_token2(token, 'D', 'M') {
        Some(0b011)
    } else if is_token2(token, 'M', 'D') {
        Some(0b011)
    } else if is_token1(token, 'A') {
        Some(0b100)
    } else if is_token2(token, 'A', 'M') {
        Some(0b101)
    } else if is_token2(token, 'A', 'D') {
        Some(0b110)
    } else if is_token3(token, 'A', 'D', 'M') {
        Some(0b111)
    } else {
        None
    }
}

/// Looks a jump up.
pub fn lookup_jump(token: &[char]) -> (r: Option<u8>)
    ensures
        r == jump_code(token@),
{
    if is_token4(token, 'n', 'u', 'l', 'l') {
        Some(0b000)
    } else if is_token3(token, 'J', 'G', 'T') {
        Some(0b001)
    } else if is_token3(token, 'J', 'E', 'Q') {
        Some(0b010)
    } else if is_token3(token, 'J', 'G', 'E') {
        Some(0b011)
    } else if is_token3(token, 'J', 'L', 'T') {
        Some(0b100)
    } else if is_token3(token, 'J', 'N', 'E') {
        Some(0b101)
    } else if is_token3(token, 'J', 'L', 'E') {
        Some(0b110)
    } else if is_token3(token, 'J', 'M', 'P') {
        Some(0b111)
    } else {
        None
    }
}

} // verus!
