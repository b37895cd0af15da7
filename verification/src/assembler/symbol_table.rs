//! The symbol table the assembler resolves names against.
use vstd::prelude::*;

verus! {

/// Where a symbol points: an instruction address or a data address.
#[derive(Clone, Copy, PartialEq, Eq, Hash, Debug, Structural)]
pub enum Address {
    Rom(u16),
    Ram(u16),
}

impl Address {
    /// The address's number.
    pub open spec fn number(self) -> u16 {
        match self {
            Address::Ram(x) | Address::Rom(x) => x,
        }
    }

    /// The address's number, whatever memory it is in.
    pub fn unwrap(&self) -> (n: u16)
        ensures
            n == self.number(),
    {
        match self {
            Self::Ram(x) | Self::Rom(x) => *x,
        }
    }
}

/// The symbols every Hack program starts with, and the data addresses they name.
pub open spec fn predefined_symbols() -> Seq<(Seq<char>, u16)> {
    seq![
        ("R0"@, 0u16), ("R1"@, 1u16), ("R2"@, 2u16), ("R3"@, 3u16), ("R4"@, 4u16),
        ("R5"@, 5u16), ("R6"@, 6u16), ("R7"@, 7u16), ("R8"@, 8u16), ("R9"@, 9u16),
        ("R10"@, 10u16), ("R11"@, 11u16), ("R12"@, 12u16), ("R13"@, 13u16), ("R14"@, 14u16),
        ("R15"@, 15u16), ("SP"@, 0u16), ("LCL"@, 1u16), ("ARG"@, 2u16), ("THIS"@, 3u16),
        ("THAT"@, 4u16), ("SCREEN"@, 0x4000u16), ("KBD"@, 0x6000u16),
    ]
}

/// The predefined symbols, in the order [`predefined_symbols`] lists them.
pub fn symbols() -> (v: Vec<(String, u16)>)
    ensures
        v@.len() == predefined_symbols().len(),
        forall|i: int|
            0 <= i < v@.len() ==> (#[trigger] v@[i]).0@ == predefined_symbols()[i].0 && v@[i].1
                == predefined_symbols()[i].1,
{
    let v = vec![
        (String::from_str("R0"), 0u16), (String::from_str("R1"), 1u16),
        (String::from_str("R2"), 2u16), (String::from_str("R3"), 3u16),
        (String::from_str("R4"), 4u16), (String::from_str("R5"), 5u16),
        (String::from_str("R6"), 6u16), (String::from_str("R7"), 7u16),
        (String::from_str("R8"), 8u16), (String::from_str("R9"), 9u16),
        (String::from_str("R10"), 10u16), (String::from_str("R11"), 11u16),
        (String::from_str("R12"), 12u16), (String::from_str("R13"), 13u16),
        (String::from_str("R14"), 14u16), (String::from_str("R15"), 15u16),
        (String::from_str("SP"), 0u16), (String::from_str("LCL"), 1u16),
        (String::from_str("ARG"), 2u16), (String::from_str("THIS"), 3u16),
        (String::from_str("THAT"), 4u16), (String::from_str("SCREEN"), 0x4000u16),
        (String::from_str("KBD"), 0x6000u16),
    ];
    v
}

/// The map an association list denotes: later entries override earlier ones.
pub open spec fn assoc_map(s: Seq<(String, Address)>) -> Map<Seq<char>, Address>
    decreases s.len(),
{
    if s.len() == 0 {
        Map::empty()
    } else {
        assoc_map(s.drop_last()).insert(s.last().0@, s.last().1)
    }
}

/// The map of the first `n` predefined symbols to their data addresses.
pub open spec fn predefined_prefix_map(n: int) -> Map<Seq<char>, Address>
    decreases n,
{
    if n <= 0 {
        Map::empty()
    } else {
        predefined_prefix_map(n - 1).insert(
            predefined_symbols()[n - 1].0,
            Address::Ram(predefined_symbols()[n - 1].1),
        )
    }
}

/// The table a fresh [`SymbolTable`] holds: each predefined symbol names its data address.
pub open spec fn predefined_map() -> Map<Seq<char>, Address> {
    predefined_prefix_map(23)
}

/// The first `n` predefined symbols map the `i`-th name to its address when no later one of
/// them has that name.
proof fn lemma_prefix_lookup(n: int, i: int)
    requires
        0 <= i < n <= 23,
        forall|j: int| i < j < n ==> predefined_symbols()[j].0 != predefined_symbols()[i].0,
    ensures
        predefined_prefix_map(n).contains_key(predefined_symbols()[i].0),
        predefined_prefix_map(n)[predefined_symbols()[i].0] == Address::Ram(predefined_symbols()[i].1),
    decreases n,
{
    if i < n - 1 {
        lemma_prefix_lookup(n - 1, i);
    }
}

/// No two predefined symbols share a name.
proof fn lemma_predefined_names_distinct()
    ensures
        forall|i: int, j: int| 0 <= i < j < 23 ==> predefined_symbols()[i].0 != predefined_symbols()[j].0,
{
    reveal_strlit("R0");
    reveal_strlit("R1");
    reveal_strlit("R2");
    reveal_strlit("R3");
    reveal_strlit("R4");
    reveal_strlit("R5");
    reveal_strlit("R6");
    reveal_strlit("R7");
    reveal_strlit("R8");
    reveal_strlit("R9");
    reveal_strlit("R10");
    reveal_strlit("R11");
    reveal_strlit("R12");
    reveal_strlit("R13");
    reveal_strlit("R14");
    reveal_strlit("R15");
    reveal_strlit("SP");
    reveal_strlit("LCL");
    reveal_strlit("ARG");
    reveal_strlit("THIS");
    reveal_strlit("THAT");
    reveal_strlit("SCREEN");
    reveal_strlit("KBD");
    let p = predefined_symbols();
    assert forall|i: int, j: int| 0 <= i < j < 23 implies p[i].0 != p[j].0 by {
        if p[i].0 == p[j].0 {
            assert(p[i].0.len() == p[j].0.len());
            assert(p[i].0[0] == p[j].0[0]);
            assert(p[i].0[1] == p[j].0[1]);
            if p[i].0.len() > 2 {
                assert(p[i].0[2] == p[j].0[2]);
            }
            if p[i].0.len() > 3 {
                assert(p[i].0[3] == p[j].0[3]);
            }
        }
    }
}

/// The Hack platform's predefined symbols, as a fresh symbol table holds them: `R0` to `R15`
/// name data words 0 to 15; `SP`, `LCL`, `ARG`, `THIS` and `THAT` name words 0 to 4;
/// `SCREEN` names 0x4000 and `KBD` 0x6000.
pub proof fn lemma_predefined_addresses()
    ensures
        predefined_map().contains_key("R0"@) && predefined_map()["R0"@] == Address::Ram(0),
        predefined_map().contains_key("R1"@) && predefined_map()["R1"@] == Address::Ram(1),
        predefined_map().contains_key("R2"@) && predefined_map()["R2"@] == Address::Ram(2),
        predefined_map().contains_key("R3"@) && predefined_map()["R3"@] == Address::Ram(3),
        predefined_map().contains_key("R4"@) && predefined_map()["R4"@] == Address::Ram(4),
        predefined_map().contains_key("R5"@) && predefined_map()["R5"@] == Address::Ram(5),
        predefined_map().contains_key("R6"@) && predefined_map()["R6"@] == Address::Ram(6),
        predefined_map().contains_key("R7"@) && predefined_map()["R7"@] == Address::Ram(7),
        predefined_map().contains_key("R8"@) && predefined_map()["R8"@] == Address::Ram(8),
        predefined_map().contains_key("R9"@) && predefined_map()["R9"@] == Address::Ram(9),
        predefined_map().contains_key("R10"@) && predefined_map()["R10"@] == Address::Ram(10),
        predefined_map().contains_key("R11"@) && predefined_map()["R11"@] == Address::Ram(11),
        predefined_map().contains_key("R12"@) && predefined_map()["R12"@] == Address::Ram(12),
        predefined_map().contains_key("R13"@) && predefined_map()["R13"@] == Address::Ram(13),
        predefined_map().contains_key("R14"@) && predefined_map()["R14"@] == Address::Ram(14),
        predefined_map().contains_key("R15"@) && predefined_map()["R15"@] == Address::Ram(15),
        predefined_map().contains_key("SP"@) && predefined_map()["SP"@] == Address::Ram(0),
        predefined_map().contains_key("LCL"@) && predefined_map()["LCL"@] == Address::Ram(1),
        predefined_map().contains_key("ARG"@) && predefined_map()["ARG"@] == Address::Ram(2),
        predefined_map().contains_key("THIS"@) && predefined_map()["THIS"@] == Address::Ram(3),
        predefined_map().contains_key("THAT"@) && predefined_map()["THAT"@] == Address::Ram(4),
        predefined_map().contains_key("SCREEN"@) && predefined_map()["SCREEN"@] == Address::Ram(0x4000),
        predefined_map().contains_key("KBD"@) && predefined_map()["KBD"@] == Address::Ram(0x6000),
{
    reveal_strlit("R0");
    reveal_strlit("R1");
    reveal_strlit("R2");
    reveal_strlit("R3");
    reveal_strlit("R4");
    reveal_strlit("R5");
    reveal_strlit("R6");
    reveal_strlit("R7");
    reveal_strlit("R8");
    reveal_strlit("R9");
    reveal_strlit("R10");
    reveal_strlit("R11");
    reveal_strlit("R12");
    reveal_strlit("R13");
    reveal_strlit("R14");
    reveal_strlit("R15");
    reveal_strlit("SP");
    reveal_strlit("LCL");
    reveal_strlit("ARG");
    reveal_strlit("THIS");
    reveal_strlit("THAT");
    reveal_strlit("SCREEN");
    reveal_strlit("KBD");
    lemma_predefined_names_distinct();
    lemma_prefix_lookup(23, 0);
    lemma_prefix_lookup(23, 1);
    lemma_prefix_lookup(23, 2);
    lemma_prefix_lookup(23, 3);
    lemma_prefix_lookup(23, 4);
    lemma_prefix_lookup(23, 5);
    lemma_prefix_lookup(23, 6);
    lemma_prefix_lookup(23, 7);
    lemma_prefix_lookup(23, 8);
    lemma_prefix_lookup(23, 9);
    lemma_prefix_lookup(23, 10);
    lemma_prefix_lookup(23, 11);
    lemma_prefix_lookup(23, 12);
    lemma_prefix_lookup(23, 13);
    lemma_prefix_lookup(23, 14);
    lemma_prefix_lookup(23, 15);
    lemma_prefix_lookup(23, 16);
    lemma_prefix_lookup(23, 17);
    lemma_prefix_lookup(23, 18);
    lemma_prefix_lookup(23, 19);
    lemma_prefix_lookup(23, 20);
    lemma_prefix_lookup(23, 21);
    lemma_prefix_lookup(23, 22);
}

/// The addresses a fresh [`SymbolTable`] counts as in use.
pub open spec fn predefined_values() -> Set<Address> {
    Set::new(|a: Address| exists|i: int| 0 <= i < 23 && a == Address::Ram(#[trigger] predefined_symbols()[i].1))
}

proof fn lemma_assoc_last(s: Seq<(String, Address)>, k: Seq<char>, i: int)
    requires
        0 <= i < s.len(),
        s[i].0@ == k,
        forall|j: int| i < j < s.len() ==> (#[trigger] s[j]).0@ != k,
    ensures
        assoc_map(s).contains_key(k),
        assoc_map(s)[k] == s[i].1,
    decreases s.len(),
{
    if i < s.len() - 1 {
        lemma_assoc_last(s.drop_last(), k, i);
    }
}

proof fn lemma_assoc_absent(s: Seq<(String, Address)>, k: Seq<char>)
    requires
        forall|j: int| 0 <= j < s.len() ==> (#[trigger] s[j]).0@ != k,
    ensures
        !assoc_map(s).contains_key(k),
    decreases s.len(),
{
    if s.len() > 0 {
        lemma_assoc_absent(s.drop_last(), k);
    }
}

/// The symbol table: names and their addresses, the set of addresses in use, and where the
/// search for free data memory resumes.
pub struct SymbolTable {
    value_set: Vec<Address>,
    map: Vec<(String, Address)>,
    next_ram: u16,
}

/// Whether data address `a` is not in use.
pub open spec fn ram_free(values: Set<Address>, a: int) -> bool {
    !values.contains(Address::Ram(a as u16))
}

/// The first free data address at or after `a`.
pub open spec fn free_from(values: Set<Address>, a: int) -> Option<u16>
    decreases 0x10000 - a,
{
    if a < 0 || a > 0xffff {
        None
    } else if ram_free(values, a) {
        Some(a as u16)
    } else {
        free_from(values, a + 1)
    }
}

/// The data address a search starting at `start` finds: the first free one at or after
/// `start`, else the first free one from zero.
pub open spec fn next_free(values: Set<Address>, start: u16) -> Option<u16> {
    match free_from(values, start as int) {
        Some(a) => Some(a),
        None => free_from(values, 0),
    }
}

/// The abstract state of a symbol table.
pub struct TableV {
    pub symbols: Map<Seq<char>, Address>,
    pub values: Set<Address>,
    pub next_ram: u16,
}

impl SymbolTable {
    /// The abstract state of the table.
    pub open spec fn state(&self) -> TableV {
        TableV { symbols: self.symbols(), values: self.values(), next_ram: self.next_ram() }
    }

    /// The names the table knows and their addresses.
    pub closed spec fn symbols(&self) -> Map<Seq<char>, Address> {
        assoc_map(self.map@)
    }

    /// The addresses in use.
    pub closed spec fn values(&self) -> Set<Address> {
        self.value_set@.to_set()
    }

    /// Where the next search for free data memory starts.
    pub closed spec fn next_ram(&self) -> u16 {
        self.next_ram
    }

    /// The table with the predefined symbols (R0-R15, SP, LCL, ARG, THIS, THAT, SCREEN, KBD).
    pub fn new() -> (t: Self)
        ensures
            t.symbols() == predefined_map(),
            t.values() == predefined_values(),
            t.next_ram() == 0,
    {
        let syms = symbols();
        let mut map: Vec<(String, Address)> = Vec::new();
        let mut value_set: Vec<Address> = Vec::new();
        let mut i: usize = 0;
        while i < syms.len()
            invariant
                i <= syms@.len(),
                syms@.len() == 23,
                forall|j: int|
                    0 <= j < syms@.len() ==> (#[trigger] syms@[j]).0@ == predefined_symbols()[j].0
                        && syms@[j].1 == predefined_symbols()[j].1,
                map@.len() == i,
                forall|j: int|
                    0 <= j < i ==> (#[trigger] map@[j]).0@ == predefined_symbols()[j].0 && map@[j].1
                        == Address::Ram(predefined_symbols()[j].1),
                value_set@ == map@.map_values(|p: (String, Address)| p.1),
            decreases syms@.len() - i,
        {
            let name = syms[i].0.clone();
            let addr = Address::Ram(syms[i].1);
            map.push((name, addr));
            value_set.push(addr);
            proof {
                assert(value_set@ =~= map@.map_values(|p: (String, Address)| p.1));
            }
            i += 1;
        }
        let t = Self { map, value_set, next_ram: 0 };
        proof {
            Self::lemma_new_map(map@, 23);
            assert(map@.take(23) =~= map@);
            assert forall|a: Address| value_set@.to_set().contains(a) <==> #[trigger] predefined_values().contains(a) by {
                if predefined_values().contains(a) {
                    let i = choose|i: int| 0 <= i < 23 && a == Address::Ram(#[trigger] predefined_symbols()[i].1);
                    assert(value_set@[i] == a);
                }
            }
            assert(value_set@.to_set() =~= predefined_values());
        }
        t
    }

    /// The address `k` names, if any.
    pub fn get(&mut self, k: &str) -> (r: Option<&Address>)
        ensures
            *final(self) == *old(self),
            r matches Some(a) ==> old(self).symbols().contains_key(k@) && old(self).symbols()[k@] == *a,
            r is None ==> !old(self).symbols().contains_key(k@),
    {
        self.lookup(k)
    }

    /// The address `k` names, if any (shared access).
    pub fn lookup(&self, k: &str) -> (r: Option<&Address>)
        ensures
            r matches Some(a) ==> self.symbols().contains_key(k@) && self.symbols()[k@] == *a,
            r is None ==> !self.symbols().contains_key(k@),
    {
        let mut i = self.map.len();
        while i > 0
            invariant
                i <= self.map@.len(),
                forall|j: int| i <= j < self.map@.len() ==> (#[trigger] self.map@[j]).0@ != k@,
            decreases i,
        {
            i -= 1;
            if crate::text::str_eq(self.map[i].0.as_str(), k) {
                proof {
                    lemma_assoc_last(self.map@, k@, i as int);
                }
                return Some(&self.map[i].1);
            }
        }
        proof {
            lemma_assoc_absent(self.map@, k@);
        }
        None
    }

    /// Where the next search for free data memory starts.
    pub fn search_start(&self) -> (n: u16)
        ensures
            n == self.next_ram(),
    {
        self.next_ram
    }

    /// Whether `value` is in use.
    pub fn contains_value(&self, value: &Address) -> (b: bool)
        ensures
            b == self.values().contains(*value),
    {
        let mut i: usize = 0;
        while i < self.value_set.len()
            invariant
                i <= self.value_set@.len(),
                forall|j: int| 0 <= j < i ==> self.value_set@[j] != *value,
            decreases self.value_set@.len() - i,
        {
            if self.value_set[i] == *value {
                return true;
            }
            i += 1;
        }
        false
    }

    /// Names `index` by `value`, marking `value` in use; returns what `index` named before.
    pub fn insert(&mut self, index: String, value: Address) -> (r: Option<Address>)
        ensures
            final(self).symbols() == old(self).symbols().insert(index@, value),
            final(self).values() == old(self).values().insert(value),
            final(self).next_ram() == old(self).next_ram(),
            r matches Some(a) ==> old(self).symbols().contains_key(index@) && old(self).symbols()[index@] == a,
            r is None ==> !old(self).symbols().contains_key(index@),
    {
        let prev = match self.lookup(index.as_str()) {
            Some(a) => Some(*a),
            None => None,
        };
        if !self.contains_value(&value) {
            self.value_set.push(value);
        }
        proof {
            assert forall|a: Address| #[trigger] self.value_set@.to_set().contains(a) <==> old(self).value_set@.to_set().insert(value).contains(a) by {
                if a == value && old(self).value_set@.to_set().contains(a) {
                } else if a == value {
                    assert(self.value_set@[self.value_set@.len() - 1] == a);
                } else if old(self).value_set@.to_set().contains(a) {
                    let j = choose|j: int| 0 <= j < old(self).value_set@.len() && old(self).value_set@[j] == a;
                    assert(self.value_set@[j] == a);
                }
            }
            assert(self.value_set@.to_set() =~= old(self).value_set@.to_set().insert(value));
        }
        self.map.push((index, value));
        proof {
            assert(self.map@.drop_last() =~= old(self).map@);
        }
        prev
    }

    /// Finds a data address not in use, searching from where the last search stopped and
    /// wrapping around once; the search resumes from the address found.
    pub fn available_ram(&mut self) -> (r: Option<Address>)
        ensures
            final(self).symbols() == old(self).symbols(),
            final(self).values() == old(self).values(),
            r == (match next_free(old(self).values(), old(self).next_ram()) {
                Some(a) => Some(Address::Ram(a)),
                None => None,
            }),
            final(self).next_ram() == (match next_free(old(self).values(), old(self).next_ram()) {
                Some(a) => a,
                None => 0xffffu16,
            }),
    {
        let ghost vals = self.values();
        let ghost start = self.next_ram as int;
        let mut second_chance = false;
        while self.contains_value(&Address::Ram(self.next_ram))
            invariant
                self.values() == vals,
                vals == old(self).values(),
                start == old(self).next_ram() as int,
                self.symbols() == old(self).symbols(),
                self.value_set == old(self).value_set,
                self.map == old(self).map,
                !second_chance ==> free_from(vals, start) == free_from(vals, self.next_ram as int),
                !second_chance ==> start <= self.next_ram,
                second_chance ==> free_from(vals, start) is None,
                second_chance ==> free_from(vals, 0) == free_from(vals, self.next_ram as int),
            decreases (if second_chance { 0int } else { 0x10000int }) + 0xffff - self.next_ram,
        {
            assert(!ram_free(vals, self.next_ram as int));
            assert(free_from(vals, self.next_ram as int) == free_from(vals, self.next_ram + 1));
            if self.next_ram < 0xffff {
                self.next_ram = self.next_ram + 1;
            } else {
                assert(free_from(vals, 0x10000) is None);
                if second_chance {
                    return None;
                }
                second_chance = true;
                self.next_ram = 0;
            }
        }
        Some(Address::Ram(self.next_ram))
    }

    /// Gives `name` a data address not in use and records it; fails when `name` names an
    /// instruction address, when no data address is free, or when `name` was named already.
    pub fn assign_available_ram(&mut self, name: String) -> (r: Result<Address, String>)
        ensures
            old(self).symbols().contains_key(name@) && old(self).symbols()[name@] is Rom ==> {
                &&& *final(self) == *old(self)
                &&& r matches Err(m) && m@ == "The given name is associated with a ROM address"@
            },
            !(old(self).symbols().contains_key(name@) && old(self).symbols()[name@] is Rom) ==> {
                match next_free(old(self).values(), old(self).next_ram()) {
                    None => {
                        &&& final(self).symbols() == old(self).symbols()
                        &&& final(self).values() == old(self).values()
                        &&& final(self).next_ram() == 0xffff
                        &&& r matches Err(m) && m@ == "Could not detect any available RAM"@
                    },
                    Some(a) => {
                        &&& final(self).symbols() == old(self).symbols().insert(name@, Address::Ram(a))
                        &&& final(self).values() == old(self).values().insert(Address::Ram(a))
                        &&& final(self).next_ram() == a
                        &&& if old(self).symbols().contains_key(name@) {
                            r matches Err(m) && m@ == "Could not detect any available RAM"@
                        } else {
                            r == Ok::<Address, String>(Address::Ram(a))
                        }
                    },
                }
            },
    {
        if let Some(Address::Rom(_)) = self.lookup(name.as_str()) {
            return Err(String::from_str("The given name is associated with a ROM address"));
        }
        match self.available_ram() {
            Some(address) => {
                if self.insert(name, address).is_some() {
                    Err(String::from_str("Could not detect any available RAM"))
                } else {
                    Ok(address)
                }
            },
            None => Err(String::from_str("Could not detect any available RAM")),
        }
    }

    proof fn lemma_new_map(m: Seq<(String, Address)>, n: int)
        requires
            0 <= n <= m.len() <= 23,
            forall|j: int|
                0 <= j < m.len() ==> (#[trigger] m[j]).0@ == predefined_symbols()[j].0 && m[j].1
                    == Address::Ram(predefined_symbols()[j].1),
        ensures
            assoc_map(m.take(n)) == predefined_prefix_map(n),
        decreases n,
    {
        if n > 0 {
            Self::lemma_new_map(m, n - 1);
            assert(m.take(n).drop_last() =~= m.take(n - 1));
        }
    }
}

} // verus!
