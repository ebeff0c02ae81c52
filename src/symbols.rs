//! The symbol table: label names bound to 16-bit addresses.
use vstd::prelude::*;

use crate::error::ErrorKind;

verus! {

/// The value bound to `name` by the latest entry that binds it.
pub open spec fn lookup_in(entries: Seq<(Seq<char>, u16)>, name: Seq<char>) -> Option<u16>
    decreases entries.len(),
{
    if entries.len() == 0 {
        None
    } else if entries.last().0 == name {
        Some(entries.last().1)
    } else {
        lookup_in(entries.drop_last(), name)
    }
}

/// A mapping from case-sensitive label names to addresses; each name is
/// bound at most once.
#[derive(Debug)]
pub struct SymbolTable {
    entries: Vec<(String, u16)>,
}

impl SymbolTable {
    /// The bindings, in the order they were made.
    pub closed spec fn entries(&self) -> Seq<(Seq<char>, u16)> {
        self.entries@.map_values(|e: (String, u16)| (e.0@, e.1))
    }

    /// The table as a map from names to addresses.
    pub open spec fn view(&self) -> Map<Seq<char>, u16> {
        Map::new(
            |k: Seq<char>| lookup_in(self.entries(), k) is Some,
            |k: Seq<char>| lookup_in(self.entries(), k)->Some_0,
        )
    }

    /// An empty table.
    pub fn new() -> (r: SymbolTable)
        ensures
            r@ == Map::<Seq<char>, u16>::empty(),
    {
        let r = SymbolTable { entries: Vec::new() };
        assert(r.entries() =~= Seq::empty());
        assert(r@ =~= Map::<Seq<char>, u16>::empty());
        r
    }

    /// The address bound to `name`, if any.
    pub fn get(&self, name: &String) -> (r: Option<u16>)
        ensures
            r == (if self@.contains_key(name@) { Some(self@[name@]) } else { None::<u16> }),
    {
        let mut i = self.entries.len();
        assert(self.entries().take(i as int) =~= self.entries());
        while i > 0
            invariant
                i <= self.entries@.len(),
                self.entries().len() == self.entries@.len(),
                lookup_in(self.entries().take(i as int), name@) == lookup_in(self.entries(), name@),
            decreases i,
        {
            assert(self.entries().take(i as int).drop_last() =~= self.entries().take(i - 1));
            if self.entries[i - 1].0 == *name {
                return Some(self.entries[i - 1].1);
            }
            i = i - 1;
        }
        assert(self.entries().take(0) =~= Seq::empty());
        None
    }

    /// Whether `name` is bound.
    pub fn contains(&self, name: &String) -> (r: bool)
        ensures
            r == self@.contains_key(name@),
    {
        self.get(name).is_some()
    }

    /// Binds `name` to `value`, which must not be bound yet.
    pub fn insert(&mut self, name: String, value: u16)
        requires
            !old(self)@.contains_key(name@),
        ensures
            final(self)@ == old(self)@.insert(name@, value),
    {
        let ghost before = self.entries();
        self.entries.push((name, value));
        assert(self.entries().drop_last() =~= before);
        assert(self@ =~= old(self)@.insert(name@, value));
    }
}

/// Binds `key` to `value`; binding a name that is already bound is an error
/// and leaves the table as it was.
pub fn add_symbol(symbol_table: &mut SymbolTable, key: String, value: u16) -> (r: Result<(), ErrorKind>)
    ensures
        old(symbol_table)@.contains_key(key@) ==> r == Err::<(), ErrorKind>(ErrorKind::DuplicateLabel(key))
            && final(symbol_table)@ == old(symbol_table)@,
        !old(symbol_table)@.contains_key(key@) ==> r == Ok::<(), ErrorKind>(())
            && final(symbol_table)@ == old(symbol_table)@.insert(key@, value),
{
    if symbol_table.contains(&key) {
        Err(ErrorKind::DuplicateLabel(key))
    } else {
        symbol_table.insert(key, value);
        Ok(())
    }
}

} // verus!
