//! A write-once-in-practice, index-keyed store.
//!
//! The vault's configuration families (tokens, ratios, strategies) are dense,
//! zero-based arrays in intent, but an index may be written at any position
//! and a read of an index that was never written must be distinguishable from
//! a read of a stored value.  `SlotMap` therefore models a partial map from
//! `u32` indices to values: its view is the `Map` of exactly the indices that
//! were set, with the last write at an index winning.

use vstd::prelude::*;

verus! {

pub struct SlotMap<V> {
    entries: Vec<(u32, V)>,
}

/// The map described by a journal of writes, later writes overriding
/// earlier ones.
spec fn map_of<V>(entries: Seq<(u32, V)>) -> Map<u32, V>
    decreases entries.len(),
{
    if entries.len() == 0 {
        Map::empty()
    } else {
        map_of(entries.drop_last()).insert(entries.last().0, entries.last().1)
    }
}

impl<V> View for SlotMap<V> {
    type V = Map<u32, V>;

    closed spec fn view(&self) -> Map<u32, V> {
        map_of(self.entries@)
    }
}

impl<V> SlotMap<V> {
    pub fn new() -> (r: SlotMap<V>)
        ensures
            r@ == Map::<u32, V>::empty(),
    {
        SlotMap { entries: Vec::new() }
    }

    /// Store `value` at `index`, replacing whatever the index held.
    pub fn set(&mut self, index: u32, value: V)
        ensures
            final(self)@ == old(self)@.insert(index, value),
    {
        self.entries.push((index, value));
        proof {
            assert(self.entries@.drop_last() =~= old(self).entries@);
            assert(self.entries@.last() == (index, value));
        }
    }

    /// Look up the value stored at `index`; `None` when the index was
    /// never written.
    pub fn get(&self, index: u32) -> (r: Option<&V>)
        ensures
            match r {
                Some(v) => self@.contains_key(index) && *v == self@[index],
                None => !self@.contains_key(index),
            },
    {
        let entries = &self.entries;
        proof {
            assert(entries@.take(entries@.len() as int) =~= entries@);
        }
        let mut i: usize = entries.len();
        while i > 0
            invariant
                entries@ == self.entries@,
                i <= entries@.len(),
                map_of(entries@).contains_key(index) == map_of(entries@.take(i as int)).contains_key(
                    index,
                ),
                map_of(entries@).contains_key(index) ==> map_of(entries@)[index] == map_of(
                    entries@.take(i as int),
                )[index],
            decreases i,
        {
            i = i - 1;
            let entry = &entries[i];
            proof {
                assert(entries@.take(i + 1).drop_last() =~= entries@.take(i as int));
                assert(entries@.take(i + 1).last() == entries@[i as int]);
                assert(map_of(entries@.take(i + 1)) == map_of(entries@.take(i as int)).insert(
                    entries@[i as int].0,
                    entries@[i as int].1,
                ));
            }
            if entry.0 == index {
                proof {
                    assert(map_of(entries@.take(i + 1)).contains_key(index));
                    assert(map_of(entries@.take(i + 1))[index] == entries@[i as int].1);
                }
                return Some(&entry.1);
            }
        }
        proof {
            assert(entries@.take(0) =~= Seq::<(u32, V)>::empty());
            assert(!map_of(entries@.take(0)).contains_key(index));
        }
        None
    }
}

} // verus!
