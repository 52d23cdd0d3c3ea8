//! Hash collections of the engine's utility library, as the rest of the
//! crate sees them: what each holds is a mathematical set or map, and every
//! operation is described by what it does to that set or map.

use vstd::prelude::*;

verus! {

/// A set of names, kept in a `bevy::utils::HashSet<String>`.
#[verifier::external_body]
pub struct NameSet {
    names: bevy::utils::HashSet<String>,
}

/// The names a `NameSet` holds, each as its sequence of characters.
pub uninterp spec fn name_set_contents(set: NameSet) -> Set<Seq<char>>;

impl View for NameSet {
    type V = Set<Seq<char>>;

    open spec fn view(&self) -> Set<Seq<char>> {
        name_set_contents(*self)
    }
}

impl NameSet {
    /// `HashSet::default`: a set that holds nothing.
    #[verifier::external_body]
    pub(crate) fn new() -> (set: NameSet)
        ensures
            name_set_contents(set) == Set::<Seq<char>>::empty(),
    {
        NameSet { names: bevy::utils::HashSet::default() }
    }

    /// `HashSet::insert`: the name is in the set afterwards, nothing else
    /// changes, and the result tells whether the name was absent before.
    #[verifier::external_body]
    pub(crate) fn insert(&mut self, name: String) -> (fresh: bool)
        ensures
            name_set_contents(*final(self)) == name_set_contents(*old(self)).insert(name@),
            fresh == !name_set_contents(*old(self)).contains(name@),
    {
        self.names.insert(name)
    }
}

/// A map from model names to positions, kept in a
/// `bevy::utils::HashMap<String, usize>`.
#[verifier::external_body]
pub struct NameIndex {
    positions: bevy::utils::HashMap<String, usize>,
}

/// The entries a `NameIndex` holds, keyed by the name's characters.
pub uninterp spec fn name_index_contents(index: NameIndex) -> Map<Seq<char>, usize>;

impl View for NameIndex {
    type V = Map<Seq<char>, usize>;

    open spec fn view(&self) -> Map<Seq<char>, usize> {
        name_index_contents(*self)
    }
}

impl NameIndex {
    /// `HashMap::default`: a map without entries.
    #[verifier::external_body]
    pub(crate) fn new() -> (made: NameIndex)
        ensures
            name_index_contents(made) == (Map::<Seq<char>, usize>::empty()),
    {
        NameIndex { positions: bevy::utils::HashMap::default() }
    }

    /// `HashMap::insert`: the name maps to `position` afterwards, replacing
    /// what it mapped to before; other entries stay.
    #[verifier::external_body]
    pub(crate) fn insert(&mut self, name: String, position: usize)
        ensures
            name_index_contents(*final(self)) == name_index_contents(*old(self)).insert(
                name@,
                position,
            ),
    {
        self.positions.insert(name, position);
    }

    /// `HashMap::get`: the position stored under the name, if there is one.
    #[verifier::external_body]
    pub(crate) fn get(&self, name: &String) -> (position: Option<usize>)
        ensures
            position == (if name_index_contents(*self).contains_key(name@) {
                Some(name_index_contents(*self)[name@])
            } else {
                None
            }),
    {
        self.positions.get(name).copied()
    }
}

} // verus!

verus! {

/// The translucent materials of a palette: for each palette index that lets
/// light through, the bit pattern of its refractive index. Kept in a
/// `bevy::utils::HashMap<u8, u32>`.
#[verifier::external_body]
pub struct RefractionTable {
    indices: bevy::utils::HashMap<u8, u32>,
}

/// The entries a `RefractionTable` holds.
pub uninterp spec fn refraction_table_contents(table: RefractionTable) -> Map<u8, u32>;

impl View for RefractionTable {
    type V = Map<u8, u32>;

    open spec fn view(&self) -> Map<u8, u32> {
        refraction_table_contents(*self)
    }
}

/// The map a list of entries describes: a later entry for the same palette
/// index replaces an earlier one.
pub open spec fn entries_map(entries: Seq<(u8, u32)>) -> Map<u8, u32>
    decreases entries.len(),
{
    if entries.len() == 0 {
        Map::empty()
    } else {
        entries_map(entries.drop_last()).insert(entries.last().0, entries.last().1)
    }
}

impl RefractionTable {
    /// `HashMap::default`: a map without entries.
    #[verifier::external_body]
    fn empty() -> (made: RefractionTable)
        ensures
            refraction_table_contents(made) == (Map::<u8, u32>::empty()),
    {
        RefractionTable { indices: bevy::utils::HashMap::default() }
    }

    /// `HashMap::insert`: the palette index maps to `bits` afterwards,
    /// replacing what it mapped to before; other entries stay.
    #[verifier::external_body]
    fn put(&mut self, index: u8, bits: u32)
        ensures
            refraction_table_contents(*final(self)) == refraction_table_contents(
                *old(self),
            ).insert(index, bits),
    {
        self.indices.insert(index, bits);
    }

    /// `HashMap::get`: the bits stored under the palette index, if any.
    #[verifier::external_body]
    pub(crate) fn find(&self, index: u8) -> (bits: Option<u32>)
        ensures
            bits == (if refraction_table_contents(*self).contains_key(index) {
                Some(refraction_table_contents(*self)[index])
            } else {
                None
            }),
    {
        self.indices.get(&index).copied()
    }

    /// The table that the entries describe, read in order.
    pub fn from_entries(entries: &Vec<(u8, u32)>) -> (table: RefractionTable)
        ensures
            table@ == entries_map(entries@),
    {
        let mut table = RefractionTable::empty();
        let mut i: usize = 0;
        while i < entries.len()
            invariant
                i <= entries.len(),
                table@ == entries_map(entries@.take(i as int)),
            decreases entries.len() - i,
        {
            let entry = entries[i];
            table.put(entry.0, entry.1);
            assert(entries@.take(i + 1).drop_last() == entries@.take(i as int));
            i += 1;
        }
        assert(entries@.take(i as int) == entries@);
        table
    }
}

} // verus!
