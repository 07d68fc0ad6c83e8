//! The symbol table: a mapping from symbol names to 15-bit addresses,
//! pre-populated with the fixed predefined symbols.  Once a symbol is set its
//! address is never reassigned — a later entry for the same name is ignored —
//! so the table's view is a first-entry-wins map.

use vstd::prelude::*;

use crate::text::str_eq;

verus! {

/// The map an entry list denotes: the first entry for a name wins.
pub open spec fn map_of(entries: Seq<(String, u16)>) -> Map<Seq<char>, u16>
    decreases entries.len(),
{
    if entries.len() == 0 {
        Map::empty()
    } else {
        map_of(entries.drop_first()).insert(entries[0].0@, entries[0].1)
    }
}

/// The fixed predefined symbols present before any source-derived symbol.
pub open spec fn predefined_map() -> Map<Seq<char>, u16> {
    Map::empty().insert("SP"@, 0).insert("LCL"@, 1).insert("ARG"@, 2).insert("THIS"@, 3).insert(
        "THAT"@,
        4,
    ).insert("R0"@, 0).insert("R1"@, 1).insert("R2"@, 2).insert("R3"@, 3).insert("R4"@, 4).insert(
        "R5"@,
        5,
    ).insert("R6"@, 6).insert("R7"@, 7).insert("R8"@, 8).insert("R9"@, 9).insert(
        "R10"@,
        10,
    ).insert("R11"@, 11).insert("R12"@, 12).insert("R13"@, 13).insert("R14"@, 14).insert(
        "R15"@,
        15,
    ).insert("SCREEN"@, 16384).insert("KBD"@, 24576)
}

/// A name is in the map exactly when some entry carries it.
proof fn lemma_map_of_contains(entries: Seq<(String, u16)>, name: Seq<char>)
    ensures
        map_of(entries).dom().contains(name) <==> (exists|i: int|
            0 <= i < entries.len() && entries[i].0@ == name),
    decreases entries.len(),
{
    if entries.len() > 0 {
        lemma_map_of_contains(entries.drop_first(), name);
        if entries[0].0@ != name && map_of(entries).dom().contains(name) {
            let j = choose|j: int|
                0 <= j < entries.drop_first().len() && entries.drop_first()[j].0@ == name;
            assert(entries[j + 1].0@ == name);
        }
        if exists|i: int| 0 <= i < entries.len() && entries[i].0@ == name {
            let i = choose|i: int| 0 <= i < entries.len() && entries[i].0@ == name;
            if i > 0 {
                assert(entries.drop_first()[i - 1].0@ == name);
            }
        }
    }
}

/// The first entry for a name gives the name's address.
proof fn lemma_map_of_first(entries: Seq<(String, u16)>, i: int)
    requires
        0 <= i < entries.len(),
        forall|j: int| 0 <= j < i ==> entries[j].0@ != entries[i].0@,
    ensures
        map_of(entries).dom().contains(entries[i].0@),
        map_of(entries)[entries[i].0@] == entries[i].1,
    decreases entries.len(),
{
    if i > 0 {
        assert(entries.drop_first()[i - 1] == entries[i]);
        assert(forall|j: int|
            0 <= j < i - 1 ==> #[trigger] entries.drop_first()[j] == entries[j + 1]
                && entries.drop_first()[j].0@ != entries.drop_first()[i - 1].0@);
        lemma_map_of_first(entries.drop_first(), i - 1);
    }
}

/// Appending an entry binds its name only when the name is still free.
proof fn lemma_map_of_push(entries: Seq<(String, u16)>, entry: (String, u16))
    ensures
        map_of(entries.push(entry)) == if map_of(entries).dom().contains(entry.0@) {
            map_of(entries)
        } else {
            map_of(entries).insert(entry.0@, entry.1)
        },
    decreases entries.len(),
{
    if entries.len() == 0 {
        assert(entries.push(entry).drop_first() =~= Seq::<(String, u16)>::empty());
        assert(entries.push(entry)[0] == entry);
        assert(map_of(entries.push(entry).drop_first()) =~= Map::<Seq<char>, u16>::empty());
        assert(map_of(entries.push(entry)) =~= Map::empty().insert(entry.0@, entry.1));
        assert(map_of(entries).insert(entry.0@, entry.1) =~= Map::empty().insert(
            entry.0@,
            entry.1,
        ));
    } else {
        assert(entries.push(entry).drop_first() =~= entries.drop_first().push(entry));
        assert(entries.push(entry)[0] == entries[0]);
        lemma_map_of_push(entries.drop_first(), entry);
        lemma_map_of_contains(entries.drop_first(), entry.0@);
        lemma_map_of_contains(entries, entry.0@);
        if map_of(entries.drop_first()).dom().contains(entry.0@) {
            assert(map_of(entries).dom().contains(entry.0@));
        } else if entry.0@ == entries[0].0@ {
            assert(map_of(entries.push(entry)) =~= map_of(entries));
        } else {
            assert(map_of(entries.push(entry)) =~= map_of(entries).insert(entry.0@, entry.1));
        }
    }
}

/// A mapping from symbol names to addresses.  Each symbol resolves to exactly
/// one address for the lifetime of the table: entries are never reassigned.
pub struct SymbolTable {
    entries: Vec<(String, u16)>,
}

impl View for SymbolTable {
    type V = Map<Seq<char>, u16>;

    closed spec fn view(&self) -> Map<Seq<char>, u16> {
        map_of(self.entries@)
    }
}

impl SymbolTable {
    /// A fresh table holding exactly the predefined symbols.
    pub fn new() -> (r: SymbolTable)
        ensures
            r@ == predefined_map(),
    {
        let mut symbol_table = SymbolTable { entries: Vec::new() };
        proof {
            assert(symbol_table@ =~= Map::<Seq<char>, u16>::empty());
        }
        symbol_table.add_predefined_symbols();
        symbol_table
    }

    fn add_predefined_symbols(&mut self)
        requires
            old(self)@ == Map::<Seq<char>, u16>::empty(),
        ensures
            final(self)@ == predefined_map(),
    {
        proof {
            reveal_strlit("SP");
            reveal_strlit("LCL");
            reveal_strlit("ARG");
            reveal_strlit("THIS");
            reveal_strlit("THAT");
            reveal_strlit("R0");
            reveal_strlit("R1");
            reveal_strlit("R2");
            reveal_strlit("R3");
            reveal_strlit("R4");
            reveal_strlit("R5");
            reveal_strlit("R6");
            reveal_strlit("R7");
            reveal_strlit("R8");
            reveal_strlit("R9");
            reveal_strlit("R10");
            reveal_strlit("R11");
            reveal_strlit("R12");
            reveal_strlit("R13");
            reveal_strlit("R14");
            reveal_strlit("R15");
            reveal_strlit("SCREEN");
            reveal_strlit("KBD");
            assert("SP"@.len() == 2 && "SP"@[0] == 'S' && "SP"@[1] == 'P');
            assert("LCL"@.len() == 3 && "LCL"@[0] == 'L' && "LCL"@[1] == 'C');
            assert("ARG"@.len() == 3 && "ARG"@[0] == 'A' && "ARG"@[1] == 'R');
            assert("THIS"@.len() == 4 && "THIS"@[0] == 'T' && "THIS"@[2] == 'I');
            assert("THAT"@.len() == 4 && "THAT"@[0] == 'T' && "THAT"@[2] == 'A');
            assert("R0"@.len() == 2 && "R0"@[0] == 'R' && "R0"@[1] == '0');
            assert("R1"@.len() == 2 && "R1"@[0] == 'R' && "R1"@[1] == '1');
            assert("R2"@.len() == 2 && "R2"@[0] == 'R' && "R2"@[1] == '2');
            assert("R3"@.len() == 2 && "R3"@[0] == 'R' && "R3"@[1] == '3');
            assert("R4"@.len() == 2 && "R4"@[0] == 'R' && "R4"@[1] == '4');
            assert("R5"@.len() == 2 && "R5"@[0] == 'R' && "R5"@[1] == '5');
            assert("R6"@.len() == 2 && "R6"@[0] == 'R' && "R6"@[1] == '6');
            assert("R7"@.len() == 2 && "R7"@[0] == 'R' && "R7"@[1] == '7');
            assert("R8"@.len() == 2 && "R8"@[0] == 'R' && "R8"@[1] == '8');
            assert("R9"@.len() == 2 && "R9"@[0] == 'R' && "R9"@[1] == '9');
            assert("R10"@.len() == 3 && "R10"@[0] == 'R' && "R10"@[1] == '1' && "R10"@[2] == '0');
            assert("R11"@.len() == 3 && "R11"@[0] == 'R' && "R11"@[1] == '1' && "R11"@[2] == '1');
            assert("R12"@.len() == 3 && "R12"@[0] == 'R' && "R12"@[1] == '1' && "R12"@[2] == '2');
            assert("R13"@.len() == 3 && "R13"@[0] == 'R' && "R13"@[1] == '1' && "R13"@[2] == '3');
            assert("R14"@.len() == 3 && "R14"@[0] == 'R' && "R14"@[1] == '1' && "R14"@[2] == '4');
            assert("R15"@.len() == 3 && "R15"@[0] == 'R' && "R15"@[1] == '1' && "R15"@[2] == '5');
            assert("SCREEN"@.len() == 6 && "SCREEN"@[0] == 'S');
            assert("KBD"@.len() == 3 && "KBD"@[0] == 'K');
        }
        assert(!self@.dom().contains("SP"@));
        self.add_entry("SP", 0);
        assert(!self@.dom().contains("LCL"@));
        self.add_entry("LCL", 1);
        assert(!self@.dom().contains("ARG"@));
        self.add_entry("ARG", 2);
        assert(!self@.dom().contains("THIS"@));
        self.add_entry("THIS", 3);
        assert(!self@.dom().contains("THAT"@));
        self.add_entry("THAT", 4);
        assert(!self@.dom().contains("R0"@));
        self.add_entry("R0", 0);
        assert(!self@.dom().contains("R1"@));
        self.add_entry("R1", 1);
        assert(!self@.dom().contains("R2"@));
        self.add_entry("R2", 2);
        assert(!self@.dom().contains("R3"@));
        self.add_entry("R3", 3);
        assert(!self@.dom().contains("R4"@));
        self.add_entry("R4", 4);
        assert(!self@.dom().contains("R5"@));
        self.add_entry("R5", 5);
        assert(!self@.dom().contains("R6"@));
        self.add_entry("R6", 6);
        assert(!self@.dom().contains("R7"@));
        self.add_entry("R7", 7);
        assert(!self@.dom().contains("R8"@));
        self.add_entry("R8", 8);
        assert(!self@.dom().contains("R9"@));
        self.add_entry("R9", 9);
        assert(!self@.dom().contains("R10"@));
        self.add_entry("R10", 10);
        assert(!self@.dom().contains("R11"@));
        self.add_entry("R11", 11);
        assert(!self@.dom().contains("R12"@));
        self.add_entry("R12", 12);
        assert(!self@.dom().contains("R13"@));
        self.add_entry("R13", 13);
        assert(!self@.dom().contains("R14"@));
        self.add_entry("R14", 14);
        assert(!self@.dom().contains("R15"@));
        self.add_entry("R15", 15);
        assert(!self@.dom().contains("SCREEN"@));
        self.add_entry("SCREEN", 16384);
        assert(!self@.dom().contains("KBD"@));
        self.add_entry("KBD", 24576);
    }

    /// Bind `symbol` to `address` unless the symbol is already bound: the
    /// first definition wins and an address is never reassigned.
    pub fn add_entry(&mut self, symbol: &str, address: u16)
        ensures
            final(self)@ == if old(self)@.dom().contains(symbol@) {
                old(self)@
            } else {
                old(self)@.insert(symbol@, address)
            },
    {
        if !self.contains(symbol) {
            let entry = (String::from_str(symbol), address);
            let ghost ghost_entry = entry;
            proof {
                lemma_map_of_push(self.entries@, ghost_entry);
            }
            self.entries.push(entry);
        }
    }

    /// Whether `symbol` is bound in the table.
    pub fn contains(&self, symbol: &str) -> (r: bool)
        ensures
            r == self@.dom().contains(symbol@),
    {
        let n = self.entries.len();
        let mut i: usize = 0;
        while i < n
            invariant
                n == self.entries@.len(),
                i <= n,
                forall|j: int| 0 <= j < i ==> self.entries@[j].0@ != symbol@,
            decreases n - i,
        {
            if str_eq(self.entries[i].0.as_str(), symbol) {
                proof {
                    lemma_map_of_contains(self.entries@, symbol@);
                }
                return true;
            }
            i = i + 1;
        }
        proof {
            lemma_map_of_contains(self.entries@, symbol@);
        }
        false
    }

    /// The address `symbol` is bound to, or `None` when it is unbound.
    pub fn get_address(&self, symbol: &str) -> (r: Option<u16>)
        ensures
            r == if self@.dom().contains(symbol@) {
                Some(self@[symbol@])
            } else {
                None::<u16>
            },
    {
        let n = self.entries.len();
        let mut i: usize = 0;
        while i < n
            invariant
                n == self.entries@.len(),
                i <= n,
                forall|j: int| 0 <= j < i ==> self.entries@[j].0@ != symbol@,
            decreases n - i,
        {
            if str_eq(self.entries[i].0.as_str(), symbol) {
                proof {
                    lemma_map_of_first(self.entries@, i as int);
                }
                return Some(self.entries[i].1);
            }
            i = i + 1;
        }
        proof {
            lemma_map_of_contains(self.entries@, symbol@);
        }
        None
    }
}

} // verus!
