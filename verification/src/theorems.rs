//! What holds of every run of the assembler.
use crate::instruction_parser::{
    bits, encode, instruction_of, is_digit, is_literal, is_passed_over, is_result_for,
    lemma_bits_len, lemma_failure_ends, words_view, AInstruction, AsmError, Failure, Instruction,
};
use crate::symbol_table::{
    collect_labels, initial_table, instruction_count, is_label, label_name, predefined,
    predefined_addresses, TableView, FIRST_VARIABLE, MAX_ADDRESS,
};
use crate::text::{comment_start, is_comment_at, is_space, normalize, trim_end, trim_start};
use vstd::prelude::*;

verus! {

/// The result is determined by the text: two runs on the same text
/// both succeed with the same words, or both fail with the same failure.
pub proof fn same_text_same_result(
    first: Result<Vec<String>, AsmError>,
    second: Result<Vec<String>, AsmError>,
    text: Seq<char>,
)
    requires
        is_result_for(first, text),
        is_result_for(second, text),
    ensures
        first is Ok <==> second is Ok,
        first is Ok ==> words_view(first->Ok_0@) == words_view(second->Ok_0@),
        first is Err ==> first->Err_0@ == second->Err_0@,
{
}

/// A symbol that is looked up a second time has the address of the first time,
/// and the second lookup changes nothing.
pub proof fn resolve_twice(table: TableView, symbol: Seq<char>)
    ensures
        table.resolve(symbol).1.resolve(symbol) == (
            table.resolve(symbol).0,
            table.resolve(symbol).1,
        ),
        table.resolve(symbol).1.extends(table),
{
}

/// A binding never changes an address that the table holds.
pub proof fn bind_keeps_addresses(table: TableView, label: Seq<char>, address: nat)
    ensures
        table.bind(label, address).extends(table),
        table.bind(label, address).next_free == table.next_free,
{
}

/// The first pass keeps the predefined symbols at their addresses and allocates
/// no variable.
pub proof fn first_pass_keeps_predefined(source: Seq<Seq<char>>)
    ensures
        collect_labels(source).extends(initial_table()),
        collect_labels(source).next_free == FIRST_VARIABLE,
    decreases source.len(),
{
    if source.len() > 0 {
        first_pass_keeps_predefined(source.drop_last());
    }
}

/// New variables get consecutive addresses in the order in which they are first
/// looked up.
pub proof fn variables_in_order_of_first_use(
    table: TableView,
    first: Seq<char>,
    second: Seq<char>,
)
    requires
        !table.addresses.contains_key(first),
        !table.addresses.contains_key(second),
        first != second,
    ensures
        table.resolve(first).0 == table.next_free,
        table.resolve(first).1.resolve(second).0 == table.next_free + 1,
        table.resolve(first).1.resolve(second).1.resolve(first).0 == table.next_free,
        table.resolve(first).1.resolve(second).1.next_free == table.next_free + 2,
{
}

/// The first pass never changes an address once it is bound: the table of a
/// longer text holds every symbol of the table of its beginning, at the same
/// address.
pub proof fn first_pass_keeps_addresses(before: Seq<Seq<char>>, after: Seq<Seq<char>>)
    ensures
        collect_labels(before + after).extends(collect_labels(before)),
    decreases after.len(),
{
    if after.len() == 0 {
        assert(before + after =~= before);
    } else {
        first_pass_keeps_addresses(before, after.drop_last());
        assert((before + after).drop_last() =~= before + after.drop_last());
    }
}

/// A label that is declared for the first time is bound to the number of
/// instructions before its declaration, which is the index of the instruction
/// that follows it, whatever comes after.
pub proof fn label_is_index_of_next_instruction(
    before: Seq<Seq<char>>,
    line: Seq<char>,
    after: Seq<Seq<char>>,
)
    requires
        is_label(normalize(line)),
        !collect_labels(before).addresses.contains_key(label_name(normalize(line))),
    ensures
        collect_labels(before.push(line) + after).addresses.contains_key(
            label_name(normalize(line)),
        ),
        collect_labels(before.push(line) + after).addresses[label_name(normalize(line))]
            == instruction_count(before),
        instruction_count(before.push(line)) == instruction_count(before),
{
    assert(before.push(line).drop_last() =~= before);
    assert(before.push(line).last() == line);
    let name = label_name(normalize(line));
    assert(collect_labels(before.push(line)).addresses.contains_key(name));
    first_pass_keeps_addresses(before.push(line), after);
}

/// The second pass never changes an address that the table holds, whether it
/// succeeds or fails.
pub proof fn second_pass_keeps_addresses(source: Seq<Seq<char>>, table: TableView)
    ensures
        encode(source, table).1.extends(table),
    decreases source.len(),
{
    if source.len() > 0 {
        second_pass_keeps_addresses(source.drop_last(), table);
    }
}

/// The address line of a predefined symbol is encoded as the address of the
/// symbol, against every table that a run can reach (one that holds the
/// predefined symbols at their addresses), and leaves the table as it is.
pub proof fn predefined_symbol_is_fixed(name: Seq<char>, table: TableView)
    requires
        predefined().contains_key(name),
        table.extends(initial_table()),
    ensures
        predefined()[name] <= MAX_ADDRESS,
        instruction_of(seq!['@'] + name, table) == (
            Ok::<Instruction, Failure>(
                Instruction::Address(AInstruction { address: predefined()[name] as u16 }),
            ),
            table,
        ),
{
    predefined_addresses();
    let line = seq!['@'] + name;
    assert(line.skip(1) =~= name);
    assert(initial_table().addresses.contains_key(name));
    assert(!is_literal(name)) by {
        assert(!is_digit(name[0]));
    }
}

/// Wherever the address line of a predefined symbol stands in a text, and
/// whatever labels the text declares, the line gives the word of the symbol's
/// address: if the lines `before` it are encoded as `words`, then with the
/// line they are encoded as `words` and that word, and the table is the same.
pub proof fn predefined_symbol_in_any_text(
    text: Seq<Seq<char>>,
    before: Seq<Seq<char>>,
    line: Seq<char>,
    name: Seq<char>,
)
    requires
        predefined().contains_key(name),
        normalize(line) == seq!['@'] + name,
        encode(before, collect_labels(text)).0 is Ok,
    ensures
        predefined()[name] <= MAX_ADDRESS,
        encode(before.push(line), collect_labels(text)) == (
            Ok::<Seq<Seq<char>>, Failure>(
                encode(before, collect_labels(text)).0->Ok_0.push(
                    (AInstruction { address: predefined()[name] as u16 }).word(),
                ),
            ),
            encode(before, collect_labels(text)).1,
        ),
{
    let start = collect_labels(text);
    first_pass_keeps_predefined(text);
    second_pass_keeps_addresses(before, start);
    let reached = encode(before, start).1;
    assert(reached.extends(initial_table()));
    predefined_symbol_is_fixed(name, reached);
    assert(before.push(line).drop_last() =~= before);
    assert(before.push(line).last() == line);
    assert(normalize(line)[0] == '@');
}

/// `@SCREEN` is the word of address 16384 and `@SP` the word of address 0,
/// whatever else the text holds.
pub proof fn screen_and_sp_are_fixed(table: TableView)
    requires
        table.extends(initial_table()),
    ensures
        instruction_of("@SCREEN"@, table) == (
            Ok::<Instruction, Failure>(Instruction::Address(AInstruction { address: 16384 })),
            table,
        ),
        instruction_of("@SP"@, table) == (
            Ok::<Instruction, Failure>(Instruction::Address(AInstruction { address: 0 })),
            table,
        ),
        (AInstruction { address: 16384 }).word() == "0100000000000000"@,
        (AInstruction { address: 0 }).word() == "0000000000000000"@,
{
    predefined_addresses();
    predefined_symbol_is_fixed("SCREEN"@, table);
    predefined_symbol_is_fixed("SP"@, table);
    reveal_strlit("@SCREEN");
    reveal_strlit("@SP");
    reveal_strlit("SCREEN");
    reveal_strlit("SP");
    reveal_strlit("0100000000000000");
    reveal_strlit("0000000000000000");
    assert("@SCREEN"@ =~= seq!['@'] + "SCREEN"@);
    assert("@SP"@ =~= seq!['@'] + "SP"@);
    reveal_with_fuel(bits, 16);
    assert((AInstruction { address: 16384 }).word() =~= "0100000000000000"@);
    assert((AInstruction { address: 0 }).word() =~= "0000000000000000"@);
}

/// A line that is blank or holds only a comment gives no word, wherever it
/// stands, and changes neither the count of instructions nor the address of any
/// label.
pub proof fn blank_line_changes_nothing(
    before: Seq<Seq<char>>,
    line: Seq<char>,
    after: Seq<Seq<char>>,
    table: TableView,
)
    requires
        normalize(line).len() == 0,
    ensures
        encode(before + seq![line] + after, table) == encode(before + after, table),
        instruction_count(before + seq![line] + after) == instruction_count(before + after),
        collect_labels(before + seq![line] + after) == collect_labels(before + after),
    decreases after.len(),
{
    let with = before + seq![line] + after;
    let without = before + after;
    if after.len() == 0 {
        assert(with.drop_last() =~= before);
        assert(without =~= before);
        assert(with.last() == line);
    } else {
        blank_line_changes_nothing(before, line, after.drop_last(), table);
        assert(with.drop_last() =~= before + seq![line] + after.drop_last());
        assert(without.drop_last() =~= before + after.drop_last());
        assert(with.last() == without.last());
    }
}

/// A pass that succeeds gives one word for each instruction, and each
/// word has sixteen digits.
pub proof fn one_word_for_each_instruction(source: Seq<Seq<char>>, table: TableView)
    requires
        encode(source, table).0 is Ok,
    ensures
        encode(source, table).0->Ok_0.len() == instruction_count(source),
        forall|i: int|
            0 <= i < instruction_count(source) ==> (#[trigger] encode(
                source,
                table,
            ).0->Ok_0[i]).len() == 16,
    decreases source.len(),
{
    if source.len() > 0 {
        let reached = encode(source.drop_last(), table).1;
        one_word_for_each_instruction(source.drop_last(), table);
        let line = normalize(source.last());
        if !is_passed_over(line) {
            let instruction = instruction_of(line, reached).0->Ok_0;
            match instruction {
                Instruction::Address(a) => {
                    lemma_bits_len(a.address as nat, 15);
                },
                Instruction::Compute(c) => {
                    lemma_bits_len(c.comp as nat, 7);
                    lemma_bits_len(c.dest as nat, 3);
                    lemma_bits_len(c.jmp as nat, 3);
                },
            }
        }
    }
}

/// A pass that fails gives no word at all: a failure stands in place of
/// the words, and the lines behind the failing one are not looked at.
pub proof fn failure_gives_no_word(source: Seq<Seq<char>>, more: Seq<Seq<char>>, table: TableView)
    requires
        encode(source, table).0 is Err,
    ensures
        encode(source + more, table) == encode(source, table),
{
    assert((source + more).take(source.len() as int) =~= source);
    lemma_failure_ends(source + more, table, source.len() as int);
}

/// The first comment marker stands at or after `from`, and no marker stands
/// between `from` and it.
pub proof fn lemma_comment_start(line: Seq<char>, from: int)
    requires
        0 <= from <= line.len(),
    ensures
        from <= comment_start(line, from) <= line.len(),
        comment_start(line, from) < line.len() ==> is_comment_at(line, comment_start(line, from)),
        forall|j: int| from <= j < comment_start(line, from) ==> !is_comment_at(line, j),
    decreases line.len() - from,
{
    if from < line.len() && !is_comment_at(line, from) {
        lemma_comment_start(line, from + 1);
    }
}

/// A line without a comment marker is searched to its end.
pub proof fn lemma_no_comment(line: Seq<char>, from: int)
    requires
        0 <= from <= line.len(),
        forall|j: int| from <= j < line.len() ==> !is_comment_at(line, j),
    ensures
        comment_start(line, from) == line.len(),
    decreases line.len() - from,
{
    if from < line.len() {
        lemma_no_comment(line, from + 1);
    }
}

/// Trimming at the start stops within its bounds, before a character that is
/// no white space.
pub proof fn lemma_trim_start(line: Seq<char>, lo: int, hi: int)
    requires
        0 <= lo <= hi <= line.len(),
    ensures
        lo <= trim_start(line, lo, hi) <= hi,
        trim_start(line, lo, hi) < hi ==> !is_space(line[trim_start(line, lo, hi)]),
    decreases hi - lo,
{
    if lo < hi && is_space(line[lo]) {
        lemma_trim_start(line, lo + 1, hi);
    }
}

/// Trimming at the end stops within its bounds, behind a character that is no
/// white space.
pub proof fn lemma_trim_end(line: Seq<char>, lo: int, hi: int)
    requires
        0 <= lo <= hi <= line.len(),
    ensures
        lo <= trim_end(line, lo, hi) <= hi,
        lo < trim_end(line, lo, hi) ==> !is_space(line[trim_end(line, lo, hi) - 1]),
    decreases hi - lo,
{
    if lo < hi && is_space(line[hi - 1]) {
        lemma_trim_end(line, lo, hi - 1);
    }
}

/// A normal form holds no comment and starts and ends with no white space.
pub proof fn normal_form_is_clean(line: Seq<char>)
    ensures
        forall|j: int| !is_comment_at(normalize(line), j),
        normalize(line).len() > 0 ==> !is_space(normalize(line).first()) && !is_space(
            normalize(line).last(),
        ),
{
    let end = comment_start(line, 0);
    lemma_comment_start(line, 0);
    let lo = trim_start(line, 0, end);
    lemma_trim_start(line, 0, end);
    let hi = trim_end(line, lo, end);
    lemma_trim_end(line, lo, end);
    let normal = normalize(line);
    assert forall|j: int| !is_comment_at(normal, j) by {
        if is_comment_at(normal, j) {
            assert(is_comment_at(line, lo + j));
        }
    }
}

/// Normalizing is idempotent: the normal form of a normal form is itself.
pub proof fn normalize_twice(line: Seq<char>)
    ensures
        normalize(normalize(line)) == normalize(line),
{
    let normal = normalize(line);
    normal_form_is_clean(line);
    lemma_no_comment(normal, 0);
    let n = normal.len() as int;
    assert(trim_start(normal, 0, n) == 0);
    assert(trim_end(normal, 0, n) == n);
    assert(normal.subrange(0, n) =~= normal);
}

/// The first comment marker at or after `from` stands where a marker stands
/// that has none before it.
pub proof fn lemma_comment_found(line: Seq<char>, from: int, at: int)
    requires
        0 <= from <= at,
        is_comment_at(line, at),
        forall|j: int| from <= j < at ==> !is_comment_at(line, j),
    ensures
        comment_start(line, from) == at,
    decreases at - from,
{
    if from < at {
        lemma_comment_found(line, from + 1, at);
    }
}

/// Trimming looks only at the characters between its bounds.
pub proof fn lemma_trim_same(a: Seq<char>, b: Seq<char>, lo: int, hi: int)
    requires
        0 <= lo <= hi <= a.len(),
        hi <= b.len(),
        forall|i: int| lo <= i < hi ==> a[i] == b[i],
    ensures
        trim_start(a, lo, hi) == trim_start(b, lo, hi),
        trim_end(a, lo, hi) == trim_end(b, lo, hi),
    decreases hi - lo,
{
    if lo < hi {
        if is_space(a[lo]) {
            lemma_trim_same(a, b, lo + 1, hi);
        }
        if is_space(a[hi - 1]) {
            lemma_trim_same(a, b, lo, hi - 1);
        }
    }
}

/// Two lines that agree before their first comment marker have the same normal
/// form: what a comment says does not count.
pub proof fn comment_text_does_not_count(a: Seq<char>, b: Seq<char>)
    requires
        comment_start(a, 0) == comment_start(b, 0),
        a.take(comment_start(a, 0)) == b.take(comment_start(b, 0)),
    ensures
        normalize(a) == normalize(b),
{
    let end = comment_start(a, 0);
    lemma_comment_start(a, 0);
    lemma_comment_start(b, 0);
    assert forall|i: int| 0 <= i < end implies a[i] == b[i] by {
        assert(a.take(end)[i] == b.take(end)[i]);
    }
    lemma_trim_same(a, b, 0, end);
    let lo = trim_start(a, 0, end);
    lemma_trim_start(a, 0, end);
    lemma_trim_same(a, b, lo, end);
    lemma_trim_end(a, lo, end);
    assert(normalize(a) =~= normalize(b));
}

/// A comment behind a line does not change its normal form, where the line
/// holds no comment marker itself and does not end with a slash, which would
/// open the marker one character earlier.
pub proof fn comment_can_be_left_out(code: Seq<char>, comment: Seq<char>)
    requires
        forall|j: int| !is_comment_at(code, j),
        code.len() > 0 ==> code.last() != '/',
    ensures
        normalize(code + seq!['/', '/'] + comment) == normalize(code),
{
    let line = code + seq!['/', '/'] + comment;
    let n = code.len() as int;
    assert(is_comment_at(line, n));
    assert forall|j: int| 0 <= j < n implies !is_comment_at(line, j) by {
        if j + 1 < n {
            assert(!is_comment_at(code, j));
        }
    }
    lemma_comment_found(line, 0, n);
    lemma_no_comment(code, 0);
    assert(line.take(n) =~= code.take(n));
    comment_text_does_not_count(line, code);
}

} // verus!
