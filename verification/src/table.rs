//! A lookup table from names to texts in which a later entry for a name
//! replaces an earlier one.

use vstd::prelude::*;

verus! {

/// The text that the last entry for `key` holds, if any entry has that key.
pub open spec fn lookup_in(entries: Seq<(String, String)>, key: Seq<char>) -> Option<Seq<char>>
    decreases entries.len(),
{
    if entries.len() == 0 {
        None
    } else if entries.last().0@ == key {
        Some(entries.last().1@)
    } else {
        lookup_in(entries.drop_last(), key)
    }
}

/// Names mapped to texts (paths or file contents).
pub struct Table {
    entries: Vec<(String, String)>,
}

impl View for Table {
    type V = Map<Seq<char>, Seq<char>>;

    closed spec fn view(&self) -> Map<Seq<char>, Seq<char>> {
        Map::new(
            |key: Seq<char>| lookup_in(self.entries@, key) is Some,
            |key: Seq<char>| lookup_in(self.entries@, key)->0,
        )
    }
}

impl Table {
    /// The empty table.
    pub fn new() -> (table: Table)
        ensures
            table@ == Map::<Seq<char>, Seq<char>>::empty(),
    {
        let table = Table { entries: Vec::new() };
        assert(table@ =~= Map::<Seq<char>, Seq<char>>::empty());
        table
    }

    /// Binds `key` to `value`; an earlier binding of `key` is lost.
    pub fn insert(&mut self, key: String, value: String)
        ensures
            final(self)@ == old(self)@.insert(key@, value@),
    {
        let ghost before = self.entries@;
        self.entries.push((key, value));
        proof {
            assert(self.entries@.drop_last() =~= before);
            assert(self@ =~= old(self)@.insert(key@, value@));
        }
    }

    /// The text bound to `key`.
    pub fn get(&self, key: &str) -> (found: Option<&String>)
        ensures
            found is Some <==> self@.contains_key(key@),
            found matches Some(text) ==> text@ == self@[key@],
    {
        let wanted = String::from_str(key);
        let mut i: usize = self.entries.len();
        assert(self.entries@.subrange(0, i as int) =~= self.entries@);
        while i > 0
            invariant
                i <= self.entries@.len(),
                wanted@ == key@,
                lookup_in(self.entries@, key@) == lookup_in(
                    self.entries@.subrange(0, i as int),
                    key@,
                ),
            decreases i,
        {
            let ghost prefix = self.entries@.subrange(0, i as int);
            proof {
                assert(prefix.drop_last() =~= self.entries@.subrange(0, i - 1));
                assert(prefix.last() == self.entries@[i - 1]);
            }
            i = i - 1;
            if self.entries[i].0 == wanted {
                return Some(&self.entries[i].1);
            }
        }
        None
    }
}

} // verus!
