//! The symbol table and the first pass, which binds the labels of a source text.
use crate::text::{lines, lines_view, normalize, remove_comments, split_lines, string_of};
use vstd::hash_map::StringHashMap;
use vstd::prelude::*;

verus! {

/// The largest address that an instruction can hold: fifteen bits.
pub const MAX_ADDRESS: usize = 32767;

/// The address that the first variable gets.
pub const FIRST_VARIABLE: usize = 16;

/// What a symbol table holds: the address of every symbol, and the address that
/// the next new variable gets.
pub struct TableView {
    pub addresses: Map<Seq<char>, nat>,
    pub next_free: nat,
}

impl TableView {
    /// Binds a label. A symbol that has an address keeps it: the first binding of
    /// a name wins, and a predefined symbol is never bound anew.
    pub open spec fn bind(self, label: Seq<char>, address: nat) -> TableView {
        if self.addresses.contains_key(label) {
            self
        } else {
            TableView { addresses: self.addresses.insert(label, address), ..self }
        }
    }

    /// The address of `symbol`, and the table after the lookup: a symbol without
    /// an address is a new variable, which gets the next free address.
    pub open spec fn resolve(self, symbol: Seq<char>) -> (nat, TableView) {
        if self.addresses.contains_key(symbol) {
            (self.addresses[symbol], self)
        } else {
            (
                self.next_free,
                TableView {
                    addresses: self.addresses.insert(symbol, self.next_free),
                    next_free: self.next_free + 1,
                },
            )
        }
    }

    /// Every symbol of `earlier` is in `self`, at the same address.
    pub open spec fn extends(self, earlier: TableView) -> bool {
        forall|s: Seq<char>| #[trigger]
            earlier.addresses.contains_key(s) ==> self.addresses.contains_key(s)
                && self.addresses[s] == earlier.addresses[s]
    }
}

/// The predefined symbols: the sixteen registers, the screen, the keyboard and
/// the five pointers.
pub open spec fn predefined() -> Map<Seq<char>, nat> {
    Map::<Seq<char>, nat>::empty().insert("R0"@, 0).insert("R1"@, 1).insert("R2"@, 2).insert(
        "R3"@,
        3,
    ).insert("R4"@, 4).insert("R5"@, 5).insert("R6"@, 6).insert("R7"@, 7).insert("R8"@, 8).insert(
        "R9"@,
        9,
    ).insert("R10"@, 10).insert("R11"@, 11).insert("R12"@, 12).insert("R13"@, 13).insert(
        "R14"@,
        14,
    ).insert("R15"@, 15).insert("SCREEN"@, 16384).insert("KBD"@, 24576).insert("SP"@, 0).insert(
        "LCL"@,
        1,
    ).insert("ARG"@, 2).insert("THIS"@, 3).insert("THAT"@, 4)
}

/// The length and the first characters of a name, by which the predefined
/// symbols differ from each other.
pub open spec fn first_three(name: Seq<char>) -> (nat, char, char, char) {
    (name.len(), name[0], name[1], name[2])
}

/// Each predefined symbol has its address: no two of the names are the same.
pub proof fn predefined_addresses()
    ensures
        predefined().contains_key("R0"@) && predefined()["R0"@] == 0,
        predefined().contains_key("R1"@) && predefined()["R1"@] == 1,
        predefined().contains_key("R2"@) && predefined()["R2"@] == 2,
        predefined().contains_key("R3"@) && predefined()["R3"@] == 3,
        predefined().contains_key("R4"@) && predefined()["R4"@] == 4,
        predefined().contains_key("R5"@) && predefined()["R5"@] == 5,
        predefined().contains_key("R6"@) && predefined()["R6"@] == 6,
        predefined().contains_key("R7"@) && predefined()["R7"@] == 7,
        predefined().contains_key("R8"@) && predefined()["R8"@] == 8,
        predefined().contains_key("R9"@) && predefined()["R9"@] == 9,
        predefined().contains_key("R10"@) && predefined()["R10"@] == 10,
        predefined().contains_key("R11"@) && predefined()["R11"@] == 11,
        predefined().contains_key("R12"@) && predefined()["R12"@] == 12,
        predefined().contains_key("R13"@) && predefined()["R13"@] == 13,
        predefined().contains_key("R14"@) && predefined()["R14"@] == 14,
        predefined().contains_key("R15"@) && predefined()["R15"@] == 15,
        predefined().contains_key("SCREEN"@) && predefined()["SCREEN"@] == 16384,
        predefined().contains_key("KBD"@) && predefined()["KBD"@] == 24576,
        predefined().contains_key("SP"@) && predefined()["SP"@] == 0,
        predefined().contains_key("LCL"@) && predefined()["LCL"@] == 1,
        predefined().contains_key("ARG"@) && predefined()["ARG"@] == 2,
        predefined().contains_key("THIS"@) && predefined()["THIS"@] == 3,
        predefined().contains_key("THAT"@) && predefined()["THAT"@] == 4,
        forall|name: Seq<char>| #[trigger]
            predefined().contains_key(name) ==> name.len() >= 2 && 0x41 <= name[0] as u32 <= 0x5A
                && predefined()[name] <= 24576,
{
    reveal_strlit("R0");
    reveal_strlit("R1");
    reveal_strlit("R2");
    reveal_strlit("R3");
    reveal_strlit("R4");
    reveal_strlit("R5");
    reveal_strlit("R6");
    reveal_strlit("R7");
    reveal_strlit("R8");
    reveal_strlit("R9");
    reveal_strlit("R10");
    reveal_strlit("R11");
    reveal_strlit("R12");
    reveal_strlit("R13");
    reveal_strlit("R14");
    reveal_strlit("R15");
    reveal_strlit("SCREEN");
    reveal_strlit("KBD");
    reveal_strlit("SP");
    reveal_strlit("LCL");
    reveal_strlit("ARG");
    reveal_strlit("THIS");
    reveal_strlit("THAT");
    assert(first_three("R0"@) == (2 as nat, 'R', '0', "R0"@[2]));
    assert(first_three("R1"@) == (2 as nat, 'R', '1', "R1"@[2]));
    assert(first_three("R2"@) == (2 as nat, 'R', '2', "R2"@[2]));
    assert(first_three("R3"@) == (2 as nat, 'R', '3', "R3"@[2]));
    assert(first_three("R4"@) == (2 as nat, 'R', '4', "R4"@[2]));
    assert(first_three("R5"@) == (2 as nat, 'R', '5', "R5"@[2]));
    assert(first_three("R6"@) == (2 as nat, 'R', '6', "R6"@[2]));
    assert(first_three("R7"@) == (2 as nat, 'R', '7', "R7"@[2]));
    assert(first_three("R8"@) == (2 as nat, 'R', '8', "R8"@[2]));
    assert(first_three("R9"@) == (2 as nat, 'R', '9', "R9"@[2]));
    assert(first_three("R10"@) == (3 as nat, 'R', '1', '0'));
    assert(first_three("R11"@) == (3 as nat, 'R', '1', '1'));
    assert(first_three("R12"@) == (3 as nat, 'R', '1', '2'));
    assert(first_three("R13"@) == (3 as nat, 'R', '1', '3'));
    assert(first_three("R14"@) == (3 as nat, 'R', '1', '4'));
    assert(first_three("R15"@) == (3 as nat, 'R', '1', '5'));
    assert(first_three("SCREEN"@) == (6 as nat, 'S', 'C', 'R'));
    assert(first_three("KBD"@) == (3 as nat, 'K', 'B', 'D'));
    assert(first_three("SP"@) == (2 as nat, 'S', 'P', "SP"@[2]));
    assert(first_three("LCL"@) == (3 as nat, 'L', 'C', 'L'));
    assert(first_three("ARG"@) == (3 as nat, 'A', 'R', 'G'));
    assert(first_three("THIS"@) == (4 as nat, 'T', 'H', 'I'));
    assert(first_three("THAT"@) == (4 as nat, 'T', 'H', 'A'));
}

/// The table that every run starts from.
pub open spec fn initial_table() -> TableView {
    TableView { addresses: predefined(), next_free: FIRST_VARIABLE as nat }
}

/// A normalized line declares a label where it starts with `(` and ends with `)`.
pub open spec fn is_label(line: Seq<char>) -> bool {
    line.len() > 0 && line[0] == '(' && line.last() == ')'
}

/// The name that a label declaration declares: what stands between the brackets.
pub open spec fn label_name(line: Seq<char>) -> Seq<char> {
    line.subrange(1, line.len() - 1)
}

/// A normalized line holds an instruction where it is neither empty nor a label
/// declaration.
pub open spec fn is_instruction(line: Seq<char>) -> bool {
    line.len() > 0 && !is_label(line)
}

/// The number of instructions among `source`, a sequence of raw lines.
pub open spec fn instruction_count(source: Seq<Seq<char>>) -> nat
    decreases source.len(),
{
    if source.len() == 0 {
        0
    } else if is_instruction(normalize(source.last())) {
        instruction_count(source.drop_last()) + 1
    } else {
        instruction_count(source.drop_last())
    }
}

/// The table after the first pass over `source`, a sequence of raw lines: each
/// label is bound to the number of instructions that stand before it.
pub open spec fn collect_labels(source: Seq<Seq<char>>) -> TableView
    decreases source.len(),
{
    if source.len() == 0 {
        initial_table()
    } else {
        let table = collect_labels(source.drop_last());
        let line = normalize(source.last());
        if is_label(line) {
            table.bind(label_name(line), instruction_count(source.drop_last()))
        } else {
            table
        }
    }
}

/// Tells whether a normalized line declares a label.
pub fn declares_label(line: &[char]) -> (r: bool)
    ensures
        r == is_label(line@),
{
    line.len() > 0 && line[0] == '(' && line[line.len() - 1] == ')'
}

/// The addresses of the symbols of one source text.
pub struct SymbolTable {
    table: StringHashMap<usize>,
    next_address: usize,
}

impl View for SymbolTable {
    type V = TableView;

    closed spec fn view(&self) -> TableView {
        TableView {
            addresses: Map::new(
                |s: Seq<char>| self.table@.contains_key(s),
                |s: Seq<char>| self.table@[s] as nat,
            ),
            next_free: self.next_address as nat,
        }
    }
}

impl Default for SymbolTable {
    /// The table of the predefined symbols.
    fn default() -> (r: SymbolTable)
        ensures
            r@ == initial_table(),
    {
        let mut table: StringHashMap<usize> = StringHashMap::new();
        table.insert("R0".to_owned(), 0);
        table.insert("R1".to_owned(), 1);
        table.insert("R2".to_owned(), 2);
        table.insert("R3".to_owned(), 3);
        table.insert("R4".to_owned(), 4);
        table.insert("R5".to_owned(), 5);
        table.insert("R6".to_owned(), 6);
        table.insert("R7".to_owned(), 7);
        table.insert("R8".to_owned(), 8);
        table.insert("R9".to_owned(), 9);
        table.insert("R10".to_owned(), 10);
        table.insert("R11".to_owned(), 11);
        table.insert("R12".to_owned(), 12);
        table.insert("R13".to_owned(), 13);
        table.insert("R14".to_owned(), 14);
        table.insert("R15".to_owned(), 15);
        table.insert("SCREEN".to_owned(), 16384);
        table.insert("KBD".to_owned(), 24576);
        table.insert("SP".to_owned(), 0);
        table.insert("LCL".to_owned(), 1);
        table.insert("ARG".to_owned(), 2);
        table.insert("THIS".to_owned(), 3);
        table.insert("THAT".to_owned(), 4);
        let r = SymbolTable { table, next_address: FIRST_VARIABLE };
        proof {
            assert(r@.addresses =~= predefined());
        }
        r
    }
}

impl SymbolTable {
    /// The table of the predefined symbols.
    pub fn new() -> (r: SymbolTable)
        ensures
            r@ == initial_table(),
    {
        Default::default()
    }

    /// The first pass: the predefined symbols and the labels that `contents`
    /// declares, each bound to the index of the instruction that follows it. A
    /// label that is declared twice keeps its first address, and no label takes
    /// the name of a predefined symbol away. No variable is allocated yet.
    pub fn from(contents: &str) -> (r: SymbolTable)
        ensures
            r@ == collect_labels(lines(contents@)),
            r@.extends(initial_table()),
            r@.next_free == FIRST_VARIABLE,
    {
        let source: Vec<Vec<char>> = split_lines(contents);
        let mut table = SymbolTable::new();
        let mut count: usize = 0;
        let mut i: usize = 0;
        let ghost all = lines_view(source@);
        while i < source.len()
            invariant
                i <= source@.len(),
                all == lines_view(source@),
                count == instruction_count(all.take(i as int)),
                count <= i,
                table@ == collect_labels(all.take(i as int)),
                table@.extends(initial_table()),
                table@.next_free == FIRST_VARIABLE,
            decreases source@.len() - i,
        {
            proof {
                assert(all.take(i + 1).drop_last() =~= all.take(i as int));
                assert(all.take(i + 1).last() == source@[i as int]@);
            }
            let line: Vec<char> = remove_comments(source[i].as_slice());
            if declares_label(line.as_slice()) {
                let name: Vec<char> = crate::text::copy_range(line.as_slice(), 1, line.len() - 1);
                table.add_label(string_of(name.as_slice()), count);
            } else if line.len() > 0 {
                count += 1;
            }
            i += 1;
        }
        proof {
            assert(all.take(source@.len() as int) =~= all);
        }
        table
    }

    /// Binds `label` to `address`, unless the name has an address already.
    pub fn add_label(&mut self, label: String, address: usize)
        ensures
            final(self)@ == old(self)@.bind(label@, address as nat),
            final(self)@.extends(old(self)@),
    {
        if !self.table.contains_key(label.as_str()) {
            self.table.insert(label, address);
            proof {
                assert(self@.addresses =~= old(self)@.addresses.insert(label@, address as nat));
            }
        }
    }

    /// Gives the new variable `symbol` the next free address.
    fn add_symbol(&mut self, symbol: String) -> (address: usize)
        requires
            !old(self)@.addresses.contains_key(symbol@),
            old(self)@.next_free < usize::MAX,
        ensures
            (address as nat, final(self)@) == old(self)@.resolve(symbol@),
    {
        let address: usize = self.next_address;
        self.table.insert(symbol, address);
        self.next_address += 1;
        proof {
            assert(self@.addresses =~= old(self)@.addresses.insert(symbol@, address as nat));
        }
        address
    }

    /// The address of `symbol`, if it has one.
    pub fn lookup(&self, symbol: &str) -> (r: Option<usize>)
        ensures
            r is Some == self@.addresses.contains_key(symbol@),
            r is Some ==> r->0 as nat == self@.addresses[symbol@],
    {
        match self.table.get(symbol) {
            Some(address) => Some(*address),
            None => None,
        }
    }

    /// The address that the next new variable gets.
    pub fn next_free_address(&self) -> (r: usize)
        ensures
            r as nat == self@.next_free,
    {
        self.next_address
    }

    /// The address of `symbol`. A symbol that has none becomes a variable at the
    /// next free address; asked again, it has that address.
    pub fn get_address_of_symbol(&mut self, symbol: String) -> (address: usize)
        requires
            old(self)@.addresses.contains_key(symbol@) || old(self)@.next_free < usize::MAX,
        ensures
            (address as nat, final(self)@) == old(self)@.resolve(symbol@),
            final(self)@.extends(old(self)@),
    {
        match self.lookup(symbol.as_str()) {
            Some(address) => address,
            None => self.add_symbol(symbol),
        }
    }
}

} // verus!
