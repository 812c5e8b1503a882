//! The interface directory: an injected snapshot of the host's network
//! interfaces, mapping names to OS indices and back. The surrounding
//! program fills it from the system; every lookup treats the snapshot as
//! immutable.
use crate::socket::IfAddr;
use vstd::prelude::*;

verus! {

/// One known network interface: its name, its OS index, and its
/// addresses.
#[derive(Debug, Clone)]
pub struct InterfaceEntry {
    pub name: String,
    pub index: u32,
    pub addresses: Vec<IfAddr>,
}

/// A snapshot of the host's interfaces. Lookups return the first entry
/// that matches, and fail rather than guess when none does: a vanished
/// interface is skipped, never fatal.
#[derive(Debug, Clone)]
pub struct InterfaceDirectory {
    pub entries: Vec<InterfaceEntry>,
}

/// The index of the first entry called `name`, if any.
pub open spec fn spec_name_to_index(entries: Seq<InterfaceEntry>, name: Seq<char>) -> Option<u32>
    decreases entries.len(),
{
    if entries.len() == 0 {
        None
    } else if entries[0].name@ == name {
        Some(entries[0].index)
    } else {
        spec_name_to_index(entries.drop_first(), name)
    }
}

/// The name of the first entry with index `index`, if any.
pub open spec fn spec_index_to_name(entries: Seq<InterfaceEntry>, index: u32) -> Option<Seq<char>>
    decreases entries.len(),
{
    if entries.len() == 0 {
        None
    } else if entries[0].index == index {
        Some(entries[0].name@)
    } else {
        spec_index_to_name(entries.drop_first(), index)
    }
}

impl InterfaceDirectory {
    /// A directory over the given snapshot.
    pub fn new(entries: Vec<InterfaceEntry>) -> (d: InterfaceDirectory)
        ensures
            d.entries@ == entries@,
    {
        InterfaceDirectory { entries }
    }

    /// The OS index of the interface called `name`, or `None` when the
    /// snapshot does not know it.
    pub fn name_to_index(&self, name: &String) -> (r: Option<u32>)
        ensures
            r == spec_name_to_index(self.entries@, name@),
    {
        let mut i: usize = 0;
        proof {
            assert(self.entries@.skip(0) =~= self.entries@);
        }
        while i < self.entries.len()
            invariant
                i <= self.entries@.len(),
                spec_name_to_index(self.entries@, name@) == spec_name_to_index(
                    self.entries@.skip(i as int),
                    name@,
                ),
            decreases self.entries@.len() - i,
        {
            proof {
                assert(self.entries@.skip(i as int).drop_first() =~= self.entries@.skip(i + 1));
                assert(self.entries@.skip(i as int)[0] == self.entries@[i as int]);
            }
            if self.entries[i].name.eq(name) {
                return Some(self.entries[i].index);
            }
            i = i + 1;
        }
        None
    }

    /// The name of the interface with OS index `index`, or `None` when the
    /// snapshot does not know it.
    pub fn index_to_name(&self, index: u32) -> (r: Option<String>)
        ensures
            match spec_index_to_name(self.entries@, index) {
                Some(n) => r matches Some(s) && s@ == n,
                None => r is None,
            },
    {
        let mut i: usize = 0;
        proof {
            assert(self.entries@.skip(0) =~= self.entries@);
        }
        while i < self.entries.len()
            invariant
                i <= self.entries@.len(),
                spec_index_to_name(self.entries@, index) == spec_index_to_name(
                    self.entries@.skip(i as int),
                    index,
                ),
            decreases self.entries@.len() - i,
        {
            proof {
                assert(self.entries@.skip(i as int).drop_first() =~= self.entries@.skip(i + 1));
                assert(self.entries@.skip(i as int)[0] == self.entries@[i as int]);
            }
            if self.entries[i].index == index {
                return Some(self.entries[i].name.clone());
            }
            i = i + 1;
        }
        None
    }
}

} // verus!
