//! The first symbol table of the assembler, which searches for free data memory only at
//! its starting address.
use vstd::prelude::*;
use super::symbol_table as current;

verus! {

/// Where a symbol points: an instruction address or a data address.
#[derive(Clone, Copy, PartialEq, Eq, Hash, Debug, Structural)]
pub enum Address {
    Rom(u16),
    Ram(u16),
}

/// The same address in the current table's terms.
pub open spec fn current_of(a: Address) -> current::Address {
    match a {
        Address::Rom(x) => current::Address::Rom(x),
        Address::Ram(x) => current::Address::Ram(x),
    }
}

fn to_current(a: Address) -> (r: current::Address)
    ensures
        r == current_of(a),
{
    match a {
        Address::Rom(x) => current::Address::Rom(x),
        Address::Ram(x) => current::Address::Ram(x),
    }
}

fn from_current(a: current::Address) -> (r: Address)
    ensures
        current_of(r) == a,
{
    match a {
        current::Address::Rom(x) => Address::Rom(x),
        current::Address::Ram(x) => Address::Ram(x),
    }
}

/// Names and their addresses, the addresses in use, and the one data address it offers.
pub struct SymbolTable {
    inner: current::SymbolTable,
}

impl SymbolTable {
    /// The names and the addresses they name.
    pub closed spec fn symbols(&self) -> Map<Seq<char>, current::Address> {
        self.inner.symbols()
    }

    /// The addresses in use.
    pub closed spec fn values(&self) -> Set<current::Address> {
        self.inner.values()
    }

    /// The data address this table offers when it is free.
    pub closed spec fn next_ram(&self) -> u16 {
        self.inner.next_ram()
    }

    /// The table with the predefined symbols (R0-R15, SP, LCL, ARG, THIS, THAT, SCREEN, KBD).
    pub fn new() -> (t: Self)
        ensures
            t.symbols() == current::predefined_map(),
            t.values() == current::predefined_values(),
            t.next_ram() == 0,
    {
        SymbolTable { inner: current::SymbolTable::new() }
    }

    /// Names `index` by `value` and marks `value` in use.
    pub fn set(&mut self, index: String, value: Address)
        ensures
            final(self).symbols() == old(self).symbols().insert(index@, current_of(value)),
            final(self).values() == old(self).values().insert(current_of(value)),
            final(self).next_ram() == old(self).next_ram(),
    {
        let _ = self.inner.insert(index, to_current(value));
    }

    /// Whether `value` is in use.
    pub fn contains(&self, value: &Address) -> (b: bool)
        ensures
            b == self.values().contains(current_of(*value)),
    {
        self.inner.contains_value(&to_current(*value))
    }

    /// The data address the table offers, when it is free; `None` when it is in use and is
    /// the last data address. (When it is in use and is not the last address, the search
    /// never ends, so that case is excluded.)
    pub fn available_ram(&mut self) -> (r: Option<Address>)
        requires
            !(old(self).values().contains(current::Address::Ram(old(self).next_ram())) && old(self).next_ram() != 0xffff),
        ensures
            *final(self) == *old(self),
            r == if old(self).values().contains(current::Address::Ram(old(self).next_ram())) {
                None
            } else {
                Some(Address::Ram(old(self).next_ram()))
            },
    {
        let next = self.inner.search_start();
        if self.inner.contains_value(&current::Address::Ram(next)) {
            None
        } else {
            Some(Address::Ram(next))
        }
    }

    /// Gives `name`, which must be known, the data address the table offers; fails when
    /// `name` names an instruction address or the address is not free.
    pub fn assign_available_ram(&mut self, name: String) -> (r: Result<(), String>)
        requires
            old(self).symbols().contains_key(name@),
            old(self).symbols()[name@] is Ram ==> !(old(self).values().contains(current::Address::Ram(old(self).next_ram()))
                && old(self).next_ram() != 0xffff),
        ensures
            old(self).symbols()[name@] is Rom ==> *final(self) == *old(self)
                && (r matches Err(m) && m@ == "The given name is associated with a ROM address"@),
            old(self).symbols()[name@] is Ram && old(self).values().contains(current::Address::Ram(old(self).next_ram()))
                ==> *final(self) == *old(self) && (r matches Err(m) && m@ == "Could not detect any available RAM"@),
            old(self).symbols()[name@] is Ram && !old(self).values().contains(current::Address::Ram(old(self).next_ram())) ==> {
                &&& r is Ok
                &&& final(self).symbols() == old(self).symbols().insert(name@, current::Address::Ram(old(self).next_ram()))
                &&& final(self).values() == old(self).values().insert(current::Address::Ram(old(self).next_ram()))
                &&& final(self).next_ram() == old(self).next_ram()
            },
    {
        if let Some(current::Address::Rom(_)) = self.inner.lookup(name.as_str()) {
            return Err(String::from_str("The given name is associated with a ROM address"));
        }
        match self.available_ram() {
            Some(index) => {
                self.set(name, index);
                Ok(())
            },
            None => Err(String::from_str("Could not detect any available RAM")),
        }
    }

    /// The address `name` names; `name` must be known.
    pub fn index(&self, name: &str) -> (a: Address)
        requires
            self.symbols().contains_key(name@),
        ensures
            current_of(a) == self.symbols()[name@],
    {
        match self.inner.lookup(name) {
            Some(a) => from_current(*a),
            None => {
                assert(false);
                Address::Ram(0)
            },
        }
    }
}

} // verus!
