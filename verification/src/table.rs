//! Tables from text to text.

use crate::text;
use vstd::prelude::*;

verus! {

/// A table from text to text that holds every key once.
#[derive(Debug)]
pub struct Table {
    entries: Vec<(String, String)>,
}

impl Table {
    /// Whether the entry at `i` is the one for key `k`.
    spec fn keyed(self, i: int, k: Seq<char>) -> bool {
        0 <= i < self.entries@.len() && self.entries@[i].0@ == k
    }

    #[verifier::type_invariant]
    spec fn keys_differ(self) -> bool {
        forall|i: int, j: int, k: Seq<char>|
            #[trigger] self.keyed(i, k) && #[trigger] self.keyed(j, k) ==> i == j
    }

    /// The text that each key stands for.
    pub closed spec fn map(self) -> Map<Seq<char>, Seq<char>> {
        Map::new(
            |k: Seq<char>| exists|i: int| self.keyed(i, k),
            |k: Seq<char>| self.entries@[choose|i: int| self.keyed(i, k)].1@,
        )
    }
}

impl View for Table {
    type V = Map<Seq<char>, Seq<char>>;

    open spec fn view(&self) -> Map<Seq<char>, Seq<char>> {
        self.map()
    }
}

impl Table {
    /// A table without entries.
    pub fn new() -> (r: Table)
        ensures
            r@ == Map::<Seq<char>, Seq<char>>::empty(),
    {
        let r = Table { entries: Vec::new() };
        proof {
            assert forall|k: Seq<char>| !r.map().contains_key(k) by {
            }
            assert(r.map() =~= Map::<Seq<char>, Seq<char>>::empty());
        }
        r
    }

    /// Where the entry for a key stands.
    fn find(&self, key: &str) -> (r: Option<usize>)
        ensures
            match r {
                Some(i) => self.keyed(i as int, key@),
                None => forall|i: int| !self.keyed(i, key@),
            },
    {
        let mut i: usize = 0;
        while i < self.entries.len()
            invariant
                i <= self.entries@.len(),
                forall|j: int| 0 <= j < i ==> !self.keyed(j, key@),
            decreases self.entries@.len() - i,
        {
            if text::same(&self.entries[i].0, key) {
                return Some(i);
            }
            i = i + 1;
        }
        None
    }

    /// The text that a key stands for.
    pub fn get(&self, key: &str) -> (r: Option<&String>)
        ensures
            match r {
                Some(v) => self@.contains_key(key@) && self@[key@] == v@,
                None => !self@.contains_key(key@),
            },
    {
        match self.find(key) {
            Some(i) => {
                proof {
                    use_type_invariant(self);
                    assert(self.keyed(i as int, key@));
                    let j = choose|j: int| self.keyed(j, key@);
                    assert(self.keyed(j, key@));
                }
                Some(&self.entries[i].1)
            },
            None => None,
        }
    }

    /// Whether a key stands for something.
    pub fn contains_key(&self, key: &str) -> (r: bool)
        ensures
            r == self@.contains_key(key@),
    {
        self.get(key).is_some()
    }

    /// Makes a key stand for a text, whatever it stood for before.
    pub fn insert(self, key: &str, value: &str) -> (r: Table)
        ensures
            r@ == self@.insert(key@, value@),
    {
        proof {
            use_type_invariant(&self);
        }
        let place = self.find(key);
        let ghost before = self;
        let mut entries = self.entries;
        match place {
            Some(i) => {
                entries.set(i, (text::copy(key), text::copy(value)));
            },
            None => {
                entries.push((text::copy(key), text::copy(value)));
            },
        }
        let ghost after = Table { entries };
        proof {
            let at = match place {
                Some(i) => i as int,
                None => before.entries@.len() as int,
            };
            assert forall|i: int, k: Seq<char>| after.keyed(i, k) <==> (if i == at {
                k == key@
            } else {
                before.keyed(i, k)
            }) by {
            }
            assert forall|i: int, j: int, k: Seq<char>| #[trigger]
                after.keyed(i, k) && #[trigger] after.keyed(j, k) implies i == j by {
                if i != at {
                    assert(before.keyed(i, k));
                }
                if j != at {
                    assert(before.keyed(j, k));
                }
            }
            assert forall|k: Seq<char>| after.map().contains_key(k) <==> before.map().insert(
                key@,
                value@,
            ).contains_key(k) by {
                if k == key@ {
                    assert(after.keyed(at, k));
                } else if before.map().contains_key(k) {
                    let i = choose|i: int| before.keyed(i, k);
                    assert(after.keyed(i, k));
                } else if after.map().contains_key(k) {
                    let i = choose|i: int| after.keyed(i, k);
                    assert(before.keyed(i, k));
                }
            }
            assert forall|k: Seq<char>| after.map().contains_key(k) implies after.map()[k]
                == before.map().insert(key@, value@)[k] by {
                let i = choose|i: int| after.keyed(i, k);
                assert(after.keyed(i, k));
                if k == key@ {
                    assert(after.keyed(at, k));
                } else {
                    assert(before.keyed(i, k));
                    let j = choose|j: int| before.keyed(j, k);
                    assert(before.keyed(j, k));
                }
            }
            assert(after.map() =~= before.map().insert(key@, value@));
        }
        Table { entries }
    }
}

} // verus!
