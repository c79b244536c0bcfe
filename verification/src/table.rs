//! A table keyed twice: by chip identity, then by a second key such as a
//! fan index or a channel name.

use vstd::prelude::*;

use crate::assoc::{AssocMap, MapKey};

verus! {

/// Values per chip key and a second key (a fan index, a channel key).
pub struct KeyedTable<K, V> {
    chips: AssocMap<String, AssocMap<K, V>>,
}

impl<K: MapKey, V> KeyedTable<K, V> {
    pub closed spec fn wf(&self) -> bool {
        &&& self.chips.wf()
        &&& forall|k: Seq<char>| #[trigger] self.chips@.contains_key(k) ==> self.chips@[k].wf()
    }

    /// Whether the table has an entry (possibly empty) for the chip.
    pub closed spec fn has_chip(&self, chip: Seq<char>) -> bool {
        self.chips@.contains_key(chip)
    }

    /// The value stored for a chip's fan.
    pub closed spec fn entry(&self, chip: Seq<char>, fan: K::V) -> Option<V> {
        if self.chips@.contains_key(chip) && self.chips@[chip]@.contains_key(fan) {
            Some(self.chips@[chip]@[fan])
        } else {
            None
        }
    }

    /// The chip tables as stored.
    pub closed spec fn chip_pairs(&self) -> Seq<(String, AssocMap<K, V>)> {
        self.chips.pairs()
    }

    /// The fans stored for a chip.
    pub closed spec fn fans(&self, chip: Seq<char>) -> Map<K::V, V> {
        self.chips@[chip]@
    }

    /// Whether a chip's table holds no fan.
    pub closed spec fn chip_empty(&self, chip: Seq<char>) -> bool {
        self.chips@.contains_key(chip) && self.chips@[chip]@ == Map::<K::V, V>::empty()
    }

    pub fn new() -> (r: Self)
        ensures
            r.wf(),
            forall|c: Seq<char>| !r.has_chip(c),
            forall|c: Seq<char>| !r.chip_empty(c),
            forall|c: Seq<char>, f: K::V| r.entry(c, f) is None,
    {
        KeyedTable { chips: AssocMap::new() }
    }

    pub fn get(&self, chip: &String, fan: &K) -> (r: Option<&V>)
        requires
            self.wf(),
        ensures
            match r {
                Some(v) => self.entry(chip@, fan@) == Some(*v),
                None => self.entry(chip@, fan@) is None,
            },
    {
        match self.chips.get(chip) {
            Some(fans) => {
                assert(self.chips@.contains_key(chip@));
                fans.get(fan)
            },
            None => None,
        }
    }

    /// Stores `value` for the chip's fan, creating the chip's table if
    /// needed.
    pub fn set(&mut self, chip: &String, fan: K, value: V)
        requires
            old(self).wf(),
        ensures
            final(self).wf(),
            final(self).entry(chip@, fan@) == Some(value),
            forall|c: Seq<char>, f: K::V|
                !(c == chip@ && f == fan@) ==> #[trigger] final(self).entry(c, f) == old(self).entry(c, f),
            forall|c: Seq<char>| #[trigger] final(self).has_chip(c) == (old(self).has_chip(c) || c == chip@),
            forall|c: Seq<char>| c != chip@ ==> #[trigger] final(self).chip_empty(c) == old(self).chip_empty(c),
            !final(self).chip_empty(chip@),
    {
        let mut fans = match self.chips.remove(chip) {
            Some(fans) => fans,
            None => AssocMap::new(),
        };
        let ghost fk = fan@;
        fans.insert(fan, value);
        let ghost inner = fans@;
        assert(inner.contains_key(fk));
        self.chips.insert(chip.key_clone(), fans);
        assert(self.chips@[chip@]@ == inner);
        assert(inner != Map::<K::V, V>::empty()) by {
            assert(!Map::<K::V, V>::empty().contains_key(fk));
        }
    }

    /// Removes the chip's fan; the chip's table stays even when it becomes
    /// empty. Hands back the removed value.
    pub fn remove(&mut self, chip: &String, fan: &K) -> (r: Option<V>)
        requires
            old(self).wf(),
        ensures
            final(self).wf(),
            r == old(self).entry(chip@, fan@),
            final(self).entry(chip@, fan@) is None,
            forall|c: Seq<char>, f: K::V|
                !(c == chip@ && f == fan@) ==> #[trigger] final(self).entry(c, f) == old(self).entry(c, f),
            forall|c: Seq<char>| #[trigger] final(self).has_chip(c) == old(self).has_chip(c),
            forall|c: Seq<char>| c != chip@ ==> #[trigger] final(self).chip_empty(c) == old(self).chip_empty(c),
            old(self).has_chip(chip@) ==> (final(self).chip_empty(chip@) <==> old(self).fans(
                chip@,
            ).remove(fan@) == Map::<K::V, V>::empty()),
    {
        match self.chips.remove(chip) {
            Some(mut fans) => {
                let r = fans.remove(fan);
                self.chips.insert(chip.key_clone(), fans);
                r
            },
            None => None,
        }
    }

    /// Removes the chip's whole table.
    pub fn remove_chip(&mut self, chip: &String)
        requires
            old(self).wf(),
        ensures
            final(self).wf(),
            !final(self).has_chip(chip@),
            !final(self).chip_empty(chip@),
            forall|f: K::V| #[trigger] final(self).entry(chip@, f) is None,
            forall|c: Seq<char>, f: K::V| c != chip@ ==> #[trigger] final(self).entry(c, f) == old(self).entry(c, f),
            forall|c: Seq<char>| c != chip@ ==> #[trigger] final(self).has_chip(c) == old(self).has_chip(c),
            forall|c: Seq<char>| c != chip@ ==> #[trigger] final(self).chip_empty(c) == old(self).chip_empty(c),
    {
        let _ = self.chips.remove(chip);
    }

    /// Whether the chip's table exists and holds no fan.
    pub fn is_chip_empty(&self, chip: &String) -> (r: bool)
        requires
            self.wf(),
        ensures
            r == self.chip_empty(chip@),
            r ==> forall|f: K::V| #[trigger] self.entry(chip@, f) is None,
    {
        match self.chips.get(chip) {
            Some(fans) => {
                assert(self.chips@.contains_key(chip@));
                fans.is_empty()
            },
            None => false,
        }
    }

    /// The chip tables as stored, one pair per chip.
    pub fn chip_tables(&self) -> (r: &Vec<(String, AssocMap<K, V>)>)
        ensures
            r@ == self.chip_pairs(),
    {
        self.chips.entries()
    }
}

} // verus!
