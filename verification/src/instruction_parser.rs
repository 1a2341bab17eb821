//! The second pass: from source lines to binary words.
use crate::mnemonics::{comp_code, dest_code, jump_code, lookup_comp, lookup_dest, lookup_jump};
use crate::symbol_table::{
    collect_labels, declares_label, is_label, SymbolTable, TableView, MAX_ADDRESS,
};
use crate::text::{
    copy_range, find, lines, lines_view, normalize, position, remove_comments, split_lines,
    string_of, strip_spaces, without_spaces,
};
use vstd::prelude::*;
use vstd::string::StringExecFns;

verus! {

/// Why the assembler stopped.
#[derive(Debug, Clone, PartialEq, Eq)]
pub enum AsmError {
    /// `token` stands where a destination, a computation or a jump is expected,
    /// and is none.
    UnknownMnemonic { token: String, line: String },
    /// The address of `line` does not fit in fifteen bits.
    OutOfRangeAddress { line: String },
    /// `line` opens a bracket and declares no label.
    MalformedLabel { line: String },
}

/// An [`AsmError`] as contracts speak of it.
pub enum Failure {
    UnknownMnemonic { token: Seq<char>, line: Seq<char> },
    OutOfRangeAddress { line: Seq<char> },
    MalformedLabel { line: Seq<char> },
}

impl View for AsmError {
    type V = Failure;

    open spec fn view(&self) -> Failure {
        match self {
            AsmError::UnknownMnemonic { token, line } => Failure::UnknownMnemonic {
                token: token@,
                line: line@,
            },
            AsmError::OutOfRangeAddress { line } => Failure::OutOfRangeAddress { line: line@ },
            AsmError::MalformedLabel { line } => Failure::MalformedLabel { line: line@ },
        }
    }
}

/// What a failure is reported as.
pub open spec fn message_of(failure: Failure) -> Seq<char> {
    match failure {
        Failure::UnknownMnemonic { token, line } => "unknown mnemonic `"@ + token
            + "` in line `"@ + line + "`"@,
        Failure::OutOfRangeAddress { line } => "address out of range in line `"@ + line + "`"@,
        Failure::MalformedLabel { line } => "malformed label in line `"@ + line + "`"@,
    }
}

impl AsmError {
    /// The report of the failure, which names the line and, for an unknown
    /// mnemonic, the token.
    pub fn message(&self) -> (r: String)
        ensures
            r@ == message_of(self@),
    {
        match self {
            AsmError::UnknownMnemonic { token, line } => {
                let mut out: String = "unknown mnemonic `".to_owned();
                out.append(token.as_str());
                out.append("` in line `");
                out.append(line.as_str());
                out.append("`");
                out
            },
            AsmError::OutOfRangeAddress { line } => {
                let mut out: String = "address out of range in line `".to_owned();
                out.append(line.as_str());
                out.append("`");
                out
            },
            AsmError::MalformedLabel { line } => {
                let mut out: String = "malformed label in line `".to_owned();
                out.append(line.as_str());
                out.append("`");
                out
            },
        }
    }
}

/// The binary digits of the `width` lowest bits of `value`, the highest first.
pub open spec fn bits(value: nat, width: nat) -> Seq<char>
    decreases width,
{
    if width == 0 {
        Seq::<char>::empty()
    } else {
        bits(value / 2, (width - 1) as nat).push(
            if value % 2 == 1 {
                '1'
            } else {
                '0'
            },
        )
    }
}

/// A field of `width` bits has `width` digits.
pub proof fn lemma_bits_len(value: nat, width: nat)
    ensures
        bits(value, width).len() == width,
    decreases width,
{
    if width > 0 {
        lemma_bits_len(value / 2, (width - 1) as nat);
    }
}

/// Adds the binary digits of the `width` lowest bits of `value` to `out`.
pub fn push_bits(out: &mut Vec<char>, value: u16, width: usize)
    ensures
        final(out)@ == old(out)@ + bits(value as nat, width as nat),
{
    let mut digits: Vec<char> = Vec::new();
    let mut k: usize = 0;
    while k < width
        invariant
            k <= width,
            digits@.len() == k,
        decreases width - k,
    {
        digits.push('0');
        k += 1;
    }
    let mut rest: u16 = value;
    while k > 0
        invariant
            k <= width,
            digits@.len() == width,
            bits(value as nat, width as nat) == bits(rest as nat, k as nat) + digits@.subrange(
                k as int,
                width as int,
            ),
        decreases k,
    {
        let ghost before = digits@;
        k -= 1;
        let digit: char = if rest % 2 == 1 {
            '1'
        } else {
            '0'
        };
        digits.set(k, digit);
        proof {
            assert(digits@.subrange(k as int, width as int) =~= seq![digit] + before.subrange(
                k + 1,
                width as int,
            ));
            assert(bits(rest as nat, (k + 1) as nat) + before.subrange(k + 1, width as int)
                =~= bits((rest / 2) as nat, k as nat) + digits@.subrange(k as int, width as int));
        }
        rest = rest / 2;
    }
    let mut i: usize = 0;
    while i < width
        invariant
            i <= width == digits@.len(),
            out@ == old(out)@ + digits@.take(i as int),
        decreases width - i,
    {
        out.push(digits[i]);
        i += 1;
        proof {
            assert(out@ =~= old(out)@ + digits@.take(i as int));
        }
    }
    proof {
        assert(digits@.take(width as int) =~= digits@);
        assert(digits@.subrange(0, width as int) =~= digits@);
    }
}

/// An instruction that loads an address.
#[derive(Debug, Clone, Copy, PartialEq, Eq)]
pub struct AInstruction {
    pub address: u16,
}

/// An instruction that computes, stores and jumps.
#[derive(Debug, Clone, Copy, PartialEq, Eq)]
pub struct CInstruction {
    pub dest: u8,
    pub comp: u8,
    pub jmp: u8,
}

/// An instruction of either form.
#[derive(Debug, Clone, Copy, PartialEq, Eq)]
pub enum Instruction {
    Address(AInstruction),
    Compute(CInstruction),
}

/// The position at which the digits of an operand start: behind a leading `+`.
pub open spec fn digits_start(operand: Seq<char>) -> int {
    if operand.len() > 0 && operand[0] == '+' {
        1
    } else {
        0
    }
}

/// `c` is one of the ten decimal digits.
pub open spec fn is_digit(c: char) -> bool {
    0x30 <= c as u32 <= 0x39
}

/// An operand is a literal where it is one or more decimal digits, with or
/// without a `+` before them.
pub open spec fn is_literal(operand: Seq<char>) -> bool {
    &&& digits_start(operand) < operand.len()
    &&& forall|i: int| digits_start(operand) <= i < operand.len() ==> is_digit(#[trigger] operand[i])
}

/// The number that a sequence of decimal digits writes.
pub open spec fn decimal_value(digits: Seq<char>) -> nat
    decreases digits.len(),
{
    if digits.len() == 0 {
        0
    } else {
        10 * decimal_value(digits.drop_last()) + (digits.last() as u32 - 0x30) as nat
    }
}

/// The number that a literal operand writes.
pub open spec fn literal_value(operand: Seq<char>) -> nat {
    decimal_value(operand.subrange(digits_start(operand), operand.len() as int))
}

/// What an address line, `@` and an operand, is encoded as against `table`,
/// and the table after it. A literal is its own address. Any other operand is a
/// symbol, which is resolved, as a new variable if need be. An address above
/// [`MAX_ADDRESS`] is refused, and the table is then left as it was.
pub open spec fn address_of(line: Seq<char>, table: TableView) -> (
    Result<AInstruction, Failure>,
    TableView,
) {
    let operand = line.skip(1);
    let refused = Err::<AInstruction, Failure>(Failure::OutOfRangeAddress { line });
    if is_literal(operand) {
        if literal_value(operand) <= MAX_ADDRESS {
            (Ok(AInstruction { address: literal_value(operand) as u16 }), table)
        } else {
            (refused, table)
        }
    } else {
        let (address, after) = table.resolve(operand);
        if address <= MAX_ADDRESS {
            (Ok(AInstruction { address: address as u16 }), after)
        } else {
            (refused, table)
        }
    }
}

/// Tells whether `operand` is a literal.
fn reads_as_literal(operand: &[char]) -> (r: bool)
    ensures
        r == is_literal(operand@),
{
    let n: usize = operand.len();
    let start: usize = if n > 0 && operand[0] == '+' {
        1
    } else {
        0
    };
    if start >= n {
        return false;
    }
    let mut i: usize = start;
    while i < n
        invariant
            start <= i <= n == operand@.len(),
            start == digits_start(operand@),
            forall|j: int| start <= j < i ==> is_digit(#[trigger] operand@[j]),
        decreases n - i,
    {
        let code: u32 = operand[i] as u32;
        if code < 0x30 || code > 0x39 {
            return false;
        }
        i += 1;
    }
    true
}

/// The value of a literal operand, unless it is above [`MAX_ADDRESS`].
fn read_literal(operand: &[char]) -> (r: Option<u16>)
    requires
        is_literal(operand@),
    ensures
        r is Some == (literal_value(operand@) <= MAX_ADDRESS),
        r is Some ==> r->0 as nat == literal_value(operand@),
{
    let n: usize = operand.len();
    let start: usize = if operand[0] == '+' {
        1
    } else {
        0
    };
    let mut value: u32 = 0;
    let mut over: bool = false;
    let mut i: usize = start;
    proof {
        assert(operand@.subrange(start as int, start as int) =~= Seq::<char>::empty());
    }
    while i < n
        invariant
            start <= i <= n == operand@.len(),
            start == digits_start(operand@),
            is_literal(operand@),
            over ==> decimal_value(operand@.subrange(start as int, i as int)) > MAX_ADDRESS,
            !over ==> value == decimal_value(operand@.subrange(start as int, i as int)) && value
                <= MAX_ADDRESS,
        decreases n - i,
    {
        proof {
            assert(operand@.subrange(start as int, i + 1).drop_last() =~= operand@.subrange(
                start as int,
                i as int,
            ));
            assert(is_digit(operand@[i as int]));
        }
        if !over {
            value = value * 10 + (operand[i] as u32 - 0x30);
            if value > 32767 {
                over = true;
            }
        }
        i += 1;
    }
    if over {
        None
    } else {
        Some(value as u16)
    }
}

/// What a compute line, `dest=comp;jump` with `dest=` and `;jump` optional, is
/// encoded as. The destination stands before the first `=`, the jump behind
/// the first `;` that follows, the computation between them; white space inside
/// a token does not count. The first of destination, jump and computation that
/// its table does not hold is reported.
pub open spec fn compute_of(line: Seq<char>) -> Result<CInstruction, Failure> {
    let equals = position(line, '=', 0);
    let start = if equals < line.len() {
        equals + 1
    } else {
        0
    };
    let semicolon = position(line, ';', start);
    let dest_token = without_spaces(line.subrange(0, equals));
    let comp_token = without_spaces(line.subrange(start, semicolon));
    let jump_token = without_spaces(line.subrange(semicolon + 1, line.len() as int));
    if equals < line.len() && dest_code(dest_token) is None {
        Err(Failure::UnknownMnemonic { token: dest_token, line })
    } else if semicolon < line.len() && jump_code(jump_token) is None {
        Err(Failure::UnknownMnemonic { token: jump_token, line })
    } else if comp_code(comp_token) is None {
        Err(Failure::UnknownMnemonic { token: comp_token, line })
    } else {
        Ok(
            CInstruction {
                dest: if equals < line.len() {
                    dest_code(dest_token)->0
                } else {
                    0
                },
                comp: comp_code(comp_token)->0,
                jmp: if semicolon < line.len() {
                    jump_code(jump_token)->0
                } else {
                    0
                },
            },
        )
    }
}

/// The error for a token that its table does not hold.
fn unknown(token: &[char], line: &[char]) -> (e: AsmError)
    ensures
        e@ == (Failure::UnknownMnemonic { token: token@, line: line@ }),
{
    AsmError::UnknownMnemonic { token: string_of(token), line: string_of(line) }
}

impl AInstruction {
    /// The address fits in fifteen bits.
    pub open spec fn wf(self) -> bool {
        self.address <= MAX_ADDRESS
    }

    /// The word of the instruction: a `0` and the fifteen bits of the address.
    pub open spec fn word(self) -> Seq<char> {
        seq!['0'] + bits(self.address as nat, 15)
    }

    /// Encodes an address line against `symbol_table`, in which a symbol
    /// without an address becomes a variable.
    pub fn parse(file_line: &[char], symbol_table: &mut SymbolTable) -> (r: Result<
        AInstruction,
        AsmError,
    >)
        requires
            file_line@.len() > 0,
            file_line@[0] == '@',
        ensures
            r is Ok ==> address_of(file_line@, old(symbol_table)@).0 == Ok::<
                AInstruction,
                Failure,
            >(r->Ok_0) && r->Ok_0.wf(),
            r is Err ==> address_of(file_line@, old(symbol_table)@).0 == Err::<
                AInstruction,
                Failure,
            >(r->Err_0@),
            final(symbol_table)@ == address_of(file_line@, old(symbol_table)@).1,
            final(symbol_table)@.extends(old(symbol_table)@),
    {
        let operand: Vec<char> = copy_range(file_line, 1, file_line.len());
        proof {
            assert(operand@ =~= file_line@.skip(1));
        }
        if reads_as_literal(operand.as_slice()) {
            match read_literal(operand.as_slice()) {
                Some(address) => Ok(AInstruction { address }),
                None => Err(AsmError::OutOfRangeAddress { line: string_of(file_line) }),
            }
        } else {
            let name: String = string_of(operand.as_slice());
            match symbol_table.lookup(name.as_str()) {
                Some(address) => {
                    if address <= MAX_ADDRESS {
                        Ok(AInstruction { address: address as u16 })
                    } else {
                        Err(AsmError::OutOfRangeAddress { line: string_of(file_line) })
                    }
                },
                None => {
                    if symbol_table.next_free_address() <= MAX_ADDRESS {
                        let address: usize = symbol_table.get_address_of_symbol(name);
                        Ok(AInstruction { address: address as u16 })
                    } else {
                        Err(AsmError::OutOfRangeAddress { line: string_of(file_line) })
                    }
                },
            }
        }
    }

    /// The word of the instruction, as sixteen binary digits.
    pub fn to_binary_string(&self) -> (r: String)
        requires
            self.wf(),
        ensures
            r@ == self.word(),
            r@.len() == 16,
    {
        let mut word: Vec<char> = Vec::new();
        word.push('0');
        push_bits(&mut word, self.address, 15);
        proof {
            lemma_bits_len(self.address as nat, 15);
            assert(word@ =~= self.word());
        }
        string_of(word.as_slice())
    }
}

impl CInstruction {
    /// The computation fits in seven bits, destination and jump in three each.
    pub open spec fn wf(self) -> bool {
        self.comp < 128 && self.dest < 8 && self.jmp < 8
    }

    /// The word of the instruction: `111`, then the seven bits of the
    /// computation, the three of the destination and the three of the jump.
    pub open spec fn word(self) -> Seq<char> {
        seq!['1', '1', '1'] + bits(self.comp as nat, 7) + bits(self.dest as nat, 3) + bits(
            self.jmp as nat,
            3,
        )
    }

    /// Encodes a compute line.
    pub fn parse(file_line: &[char]) -> (r: Result<CInstruction, AsmError>)
        ensures
            r is Ok ==> compute_of(file_line@) == Ok::<CInstruction, Failure>(r->Ok_0)
                && r->Ok_0.wf(),
            r is Err ==> compute_of(file_line@) == Err::<CInstruction, Failure>(r->Err_0@),
    {
        let n: usize = file_line.len();
        let equals: usize = find(file_line, '=', 0);
        let start: usize = if equals < n {
            equals + 1
        } else {
            0
        };
        let semicolon: usize = find(file_line, ';', start);
        let mut dest: u8 = 0;
        if equals < n {
            let token: Vec<char> = strip_spaces(file_line, 0, equals);
            match lookup_dest(token.as_slice()) {
                Some(code) => {
                    dest = code;
                },
                None => {
                    return Err(unknown(token.as_slice(), file_line));
                },
            }
        }
        let mut jmp: u8 = 0;
        if semicolon < n {
            let token: Vec<char> = strip_spaces(file_line, semicolon + 1, n);
            match lookup_jump(token.as_slice()) {
                Some(code) => {
                    jmp = code;
                },
                None => {
                    return Err(unknown(token.as_slice(), file_line));
                },
            }
        }
        let token: Vec<char> = strip_spaces(file_line, start, semicolon);
        match lookup_comp(token.as_slice()) {
            Some(comp) => Ok(CInstruction { dest, comp, jmp }),
            None => Err(unknown(token.as_slice(), file_line)),
        }
    }

    /// The word of the instruction, as sixteen binary digits.
    pub fn to_binary_string(&self) -> (r: String)
        requires
            self.wf(),
        ensures
            r@ == self.word(),
            r@.len() == 16,
    {
        let mut word: Vec<char> = Vec::new();
        word.push('1');
        word.push('1');
        word.push('1');
        push_bits(&mut word, self.comp as u16, 7);
        push_bits(&mut word, self.dest as u16, 3);
        push_bits(&mut word, self.jmp as u16, 3);
        proof {
            lemma_bits_len(self.comp as nat, 7);
            lemma_bits_len(self.dest as nat, 3);
            lemma_bits_len(self.jmp as nat, 3);
            assert(word@ =~= self.word());
        }
        string_of(word.as_slice())
    }
}

impl Instruction {
    /// The fields of the instruction fit in their bits.
    pub open spec fn wf(self) -> bool {
        match self {
            Instruction::Address(a) => a.wf(),
            Instruction::Compute(c) => c.wf(),
        }
    }

    /// The word of the instruction.
    pub open spec fn word(self) -> Seq<char> {
        match self {
            Instruction::Address(a) => a.word(),
            Instruction::Compute(c) => c.word(),
        }
    }

    /// The word of the instruction, as sixteen binary digits.
    pub fn to_binary_string(&self) -> (r: String)
        requires
            self.wf(),
        ensures
            r@ == self.word(),
            r@.len() == 16,
    {
        match self {
            Instruction::Address(a) => a.to_binary_string(),
            Instruction::Compute(c) => c.to_binary_string(),
        }
    }
}

/// What a normalized line that is taken for an instruction is encoded as
/// against `table`, and the table after it. A line that opens a bracket is
/// refused; a line that starts with `@` is an address line; any other is a
/// compute line.
pub open spec fn instruction_of(line: Seq<char>, table: TableView) -> (
    Result<Instruction, Failure>,
    TableView,
) {
    if line.len() > 0 && line[0] == '(' {
        (Err(Failure::MalformedLabel { line }), table)
    } else if line.len() > 0 && line[0] == '@' {
        match address_of(line, table).0 {
            Ok(a) => (Ok(Instruction::Address(a)), address_of(line, table).1),
            Err(e) => (Err(e), address_of(line, table).1),
        }
    } else {
        match compute_of(line) {
            Ok(c) => (Ok(Instruction::Compute(c)), table),
            Err(e) => (Err(e), table),
        }
    }
}

/// The second pass passes over a normalized line where it is empty or declares a
/// label with a name.
pub open spec fn is_passed_over(line: Seq<char>) -> bool {
    line.len() == 0 || (is_label(line) && line.len() > 2)
}

/// The second pass over `source`, a sequence of raw lines, which starts with
/// `table`: the words of the instructions in their order, or the failure of the
/// first line that has one, and the table where the pass ended.
pub open spec fn encode(source: Seq<Seq<char>>, table: TableView) -> (
    Result<Seq<Seq<char>>, Failure>,
    TableView,
)
    decreases source.len(),
{
    if source.len() == 0 {
        (Ok(Seq::<Seq<char>>::empty()), table)
    } else {
        let before = encode(source.drop_last(), table);
        let line = normalize(source.last());
        match before.0 {
            Err(e) => before,
            Ok(words) => if is_passed_over(line) {
                before
            } else {
                match instruction_of(line, before.1).0 {
                    Ok(instruction) => (
                        Ok(words.push(instruction.word())),
                        instruction_of(line, before.1).1,
                    ),
                    Err(e) => (Err(e), instruction_of(line, before.1).1),
                }
            },
        }
    }
}

/// The words of a whole text: the first pass binds its labels, the second
/// encodes its instructions against them.
pub open spec fn assembled(text: Seq<char>) -> Result<Seq<Seq<char>>, Failure> {
    encode(lines(text), collect_labels(lines(text))).0
}

/// Once a line has failed, the lines behind it change nothing.
pub proof fn lemma_failure_ends(source: Seq<Seq<char>>, table: TableView, n: int)
    requires
        0 <= n <= source.len(),
        encode(source.take(n), table).0 is Err,
    ensures
        encode(source, table) == encode(source.take(n), table),
    decreases source.len(),
{
    if n == source.len() {
        assert(source.take(n) =~= source);
    } else {
        assert(source.drop_last().take(n) =~= source.take(n));
        lemma_failure_ends(source.drop_last(), table, n);
    }
}

/// Encodes one normalized line that holds an instruction.
pub fn parse_instruction(file_line: &[char], symbol_table: &mut SymbolTable) -> (r: Result<
    Instruction,
    AsmError,
>)
    ensures
        r is Ok ==> instruction_of(file_line@, old(symbol_table)@).0 == Ok::<
            Instruction,
            Failure,
        >(r->Ok_0) && r->Ok_0.wf(),
        r is Err ==> instruction_of(file_line@, old(symbol_table)@).0 == Err::<
            Instruction,
            Failure,
        >(r->Err_0@),
        final(symbol_table)@ == instruction_of(file_line@, old(symbol_table)@).1,
        final(symbol_table)@.extends(old(symbol_table)@),
{
    if file_line.len() > 0 && file_line[0] == '(' {
        Err(AsmError::MalformedLabel { line: string_of(file_line) })
    } else if file_line.len() > 0 && file_line[0] == '@' {
        match AInstruction::parse(file_line, symbol_table) {
            Ok(a) => Ok(Instruction::Address(a)),
            Err(e) => Err(e),
        }
    } else {
        match CInstruction::parse(file_line) {
            Ok(c) => Ok(Instruction::Compute(c)),
            Err(e) => Err(e),
        }
    }
}

/// The second pass: encodes the instructions of `contents` in their order,
/// each to a word of sixteen binary digits, and stops at the first line that
/// fails. Variables get their addresses in `symbol_table` as they first occur.
pub fn parse_instructions(contents: &str, symbol_table: &mut SymbolTable) -> (r: Result<
    Vec<String>,
    AsmError,
>)
    ensures
        r is Ok ==> encode(lines(contents@), old(symbol_table)@).0 == Ok::<
            Seq<Seq<char>>,
            Failure,
        >(words_view(r->Ok_0@)),
        r is Err ==> encode(lines(contents@), old(symbol_table)@).0 == Err::<
            Seq<Seq<char>>,
            Failure,
        >(r->Err_0@),
        final(symbol_table)@ == encode(lines(contents@), old(symbol_table)@).1,
        final(symbol_table)@.extends(old(symbol_table)@),
{
    let source: Vec<Vec<char>> = split_lines(contents);
    let ghost all = lines_view(source@);
    let ghost start = symbol_table@;
    let mut result: Vec<String> = Vec::new();
    let mut i: usize = 0;
    proof {
        assert(words_view(result@) =~= Seq::<Seq<char>>::empty());
    }
    while i < source.len()
        invariant
            i <= source@.len(),
            all == lines_view(source@),
            all == lines(contents@),
            start == old(symbol_table)@,
            encode(all.take(i as int), start) == (
                Ok::<Seq<Seq<char>>, Failure>(words_view(result@)),
                symbol_table@,
            ),
            symbol_table@.extends(start),
        decreases source@.len() - i,
    {
        proof {
            assert(all.take(i + 1).drop_last() =~= all.take(i as int));
            assert(all.take(i + 1).last() == source@[i as int]@);
        }
        let line: Vec<char> = remove_comments(source[i].as_slice());
        let passed_over: bool = line.len() == 0 || (declares_label(line.as_slice()) && line.len()
            > 2);
        if !passed_over {
            match parse_instruction(line.as_slice(), symbol_table) {
                Ok(instruction) => {
                    let ghost before = words_view(result@);
                    result.push(instruction.to_binary_string());
                    proof {
                        assert(words_view(result@) =~= before.push(instruction.word()));
                    }
                },
                Err(e) => {
                    proof {
                        lemma_failure_ends(all, start, i + 1);
                    }
                    return Err(e);
                },
            }
        }
        i += 1;
    }
    proof {
        assert(all.take(source@.len() as int) =~= all);
    }
    Ok(result)
}

/// The strings of a vector, as sequences of characters.
pub open spec fn words_view(words: Seq<String>) -> Seq<Seq<char>> {
    Seq::new(words.len(), |i: int| words[i]@)
}

/// `result` is what assembling `text` may return.
pub open spec fn is_result_for(result: Result<Vec<String>, AsmError>, text: Seq<char>) -> bool {
    match result {
        Ok(words) => assembled(text) == Ok::<Seq<Seq<char>>, Failure>(words_view(words@)),
        Err(e) => assembled(text) == Err::<Seq<Seq<char>>, Failure>(e@),
    }
}

/// Assembles a source text: both passes, from the table of the predefined
/// symbols. The result depends on the characters of `contents` alone.
pub fn assemble(contents: &str) -> (r: Result<Vec<String>, AsmError>)
    ensures
        is_result_for(r, contents@),
{
    let mut symbol_table: SymbolTable = SymbolTable::from(contents);
    parse_instructions(contents, &mut symbol_table)
}

} // verus!
