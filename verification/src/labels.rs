//! Labels: string keys with string values.
use vstd::prelude::*;

use crate::text;

verus! {

/// A map of labels. Of two entries with one key, the later one counts.
#[derive(Debug)]
pub struct Labels {
    entries: Vec<(String, String)>,
}

/// The map that a list of entries stands for.
pub open spec fn map_of(entries: Seq<(Seq<char>, Seq<char>)>) -> Map<Seq<char>, Seq<char>>
    decreases entries.len(),
{
    if entries.len() == 0 {
        Map::empty()
    } else {
        map_of(entries.drop_last()).insert(entries.last().0, entries.last().1)
    }
}

impl View for Labels {
    type V = Map<Seq<char>, Seq<char>>;

    closed spec fn view(&self) -> Map<Seq<char>, Seq<char>> {
        map_of(self.entries.deep_view())
    }
}

impl Labels {
    /// No labels.
    pub fn new() -> (r: Labels)
        ensures
            r@ == Map::<Seq<char>, Seq<char>>::empty(),
    {
        Labels { entries: Vec::new() }
    }

    /// The labels of a list of entries.
    pub fn from_pairs(entries: Vec<(String, String)>) -> (r: Labels)
        ensures
            r@ == map_of(entries.deep_view()),
    {
        Labels { entries }
    }

    /// Sets one label.
    pub fn insert(&mut self, key: String, value: String)
        ensures
            final(self)@ == old(self)@.insert(key@, value@),
    {
        let ghost before = self.entries.deep_view();
        self.entries.push((key, value));
        assert(self.entries.deep_view() =~= before.push((key@, value@)));
        assert(self.entries.deep_view().drop_last() =~= before);
    }

    /// The value of a label.
    pub fn get(&self, key: &str) -> (r: Option<&String>)
        ensures
            match r {
                Some(v) => self@.contains_key(key@) && self@[key@] == v@,
                None => !self@.contains_key(key@),
            },
    {
        let ghost all = self.entries.deep_view();
        let mut n: usize = self.entries.len();
        assert(all.take(n as int) =~= all);
        while n > 0
            invariant
                n <= self.entries@.len(),
                all == self.entries.deep_view(),
                self@.contains_key(key@) == map_of(all.take(n as int)).contains_key(key@),
                self@.contains_key(key@) ==> self@[key@] == map_of(all.take(n as int))[key@],
            decreases n,
        {
            assert(all.take(n as int).drop_last() =~= all.take(n - 1));
            assert(all.take(n as int).last() == all[n - 1]);
            if text::same(&self.entries[n - 1].0, key) {
                return Some(&self.entries[n - 1].1);
            }
            n -= 1;
        }
        None
    }
}

impl Default for Labels {
    fn default() -> (r: Labels)
        ensures
            r@ == Map::<Seq<char>, Seq<char>>::empty(),
    {
        Labels::new()
    }
}

impl Clone for Labels {
    fn clone(&self) -> (r: Labels)
        ensures
            r@ == self@,
    {
        Labels { entries: text::copy_pairs(&self.entries) }
    }
}

/// A label has the value of the last entry of its key, and no key is there without an entry.
pub proof fn law_last_entry_counts(
    entries: Seq<(Seq<char>, Seq<char>)>,
    key: Seq<char>,
    value: Seq<char>,
)
    ensures
        map_of(entries).contains_pair(key, value) <==> exists|i: int|
            {
                &&& 0 <= i < entries.len()
                &&& #[trigger] entries[i] == (key, value)
                &&& forall|k: int| i < k < entries.len() ==> (#[trigger] entries[k]).0 != key
            },
        map_of(entries).contains_key(key) <==> exists|i: int|
            0 <= i < entries.len() && (#[trigger] entries[i]).0 == key,
    decreases entries.len(),
{
    if entries.len() > 0 {
        let init = entries.drop_last();
        let n = entries.len() - 1;
        law_last_entry_counts(init, key, value);
        assert(entries[n] == entries.last());
        assert forall|i: int| 0 <= i < n implies #[trigger] entries[i] == init[i] by {}
        if entries.last().0 != key && map_of(entries).contains_pair(key, value) {
            let i = choose|i: int|
                0 <= i < init.len() && #[trigger] init[i] == (key, value) && forall|k: int|
                    i < k < init.len() ==> (#[trigger] init[k]).0 != key;
            assert(entries[i] == (key, value));
            assert forall|k: int| i < k < entries.len() implies (#[trigger] entries[k]).0
                != key by {
                if k < n {
                    assert(init[k] == entries[k]);
                }
            }
        }
        if exists|i: int|
            0 <= i < entries.len() && #[trigger] entries[i] == (key, value) && forall|k: int|
                i < k < entries.len() ==> (#[trigger] entries[k]).0 != key {
            let i = choose|i: int|
                0 <= i < entries.len() && #[trigger] entries[i] == (key, value) && forall|k: int|
                    i < k < entries.len() ==> (#[trigger] entries[k]).0 != key;
            if i < n {
                assert(entries[n].0 != key);
                assert(init[i] == (key, value));
                assert forall|k: int| i < k < init.len() implies (#[trigger] init[k]).0
                    != key by {
                    assert(init[k] == entries[k]);
                }
            }
        }
        if map_of(entries).contains_key(key) && entries.last().0 != key {
            let i = choose|i: int| 0 <= i < init.len() && (#[trigger] init[i]).0 == key;
            assert(entries[i].0 == key);
        }
        if exists|i: int| 0 <= i < entries.len() && (#[trigger] entries[i]).0 == key {
            let i = choose|i: int| 0 <= i < entries.len() && (#[trigger] entries[i]).0 == key;
            if i < n {
                assert(init[i].0 == key);
            }
        }
    }
}

} // verus!
