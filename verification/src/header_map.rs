//! The headers of a response, by name.
//!
//! The map is kept as a list of pairs in which no name occurs twice, not as
//! a hash map: vstd specifies the standard hash map only for keys of which
//! it has a hashing model, and strings are not among them.

use crate::text::{pair_views, pairs_map, str_eq};
use vstd::prelude::*;

verus! {

/// Whether no name occurs twice in a list of pairs.
pub open spec fn names_distinct(pairs: Seq<(Seq<char>, Seq<char>)>) -> bool {
    forall|i: int, j: int| 0 <= i < j < pairs.len() ==> pairs[i].0 != pairs[j].0
}

/// A name is in the map of a list of pairs exactly if some pair has it.
pub proof fn lemma_pairs_map_dom(pairs: Seq<(Seq<char>, Seq<char>)>, name: Seq<char>)
    ensures
        pairs_map(pairs).contains_key(name) <==> exists|i: int|
            0 <= i < pairs.len() && (#[trigger] pairs[i]).0 == name,
    decreases pairs.len(),
{
    if pairs.len() > 0 {
        let front = pairs.drop_last();
        lemma_pairs_map_dom(front, name);
        if pairs_map(pairs).contains_key(name) {
            if pairs.last().0 == name {
                assert(pairs[pairs.len() - 1].0 == name);
            } else {
                let i = choose|i: int| 0 <= i < front.len() && (#[trigger] front[i]).0 == name;
                assert(pairs[i].0 == name);
            }
        }
        if exists|i: int| 0 <= i < pairs.len() && (#[trigger] pairs[i]).0 == name {
            let i = choose|i: int| 0 <= i < pairs.len() && (#[trigger] pairs[i]).0 == name;
            if i < pairs.len() - 1 {
                assert(front[i].0 == name);
            }
        }
    }
}

/// The map of a list of pairs gives a name the value of its last occurrence.
pub proof fn lemma_pairs_map_last(pairs: Seq<(Seq<char>, Seq<char>)>, i: int)
    requires
        0 <= i < pairs.len(),
        forall|j: int| i < j < pairs.len() ==> (#[trigger] pairs[j]).0 != pairs[i].0,
    ensures
        pairs_map(pairs).contains_key(pairs[i].0),
        pairs_map(pairs)[pairs[i].0] == pairs[i].1,
    decreases pairs.len(),
{
    if i < pairs.len() - 1 {
        let front = pairs.drop_last();
        assert(pairs[pairs.len() - 1].0 != pairs[i].0);
        assert forall|j: int| i < j < front.len() implies (#[trigger] front[j]).0 != front[i].0 by {
            assert(pairs[j].0 != pairs[i].0);
        }
        lemma_pairs_map_last(front, i);
    }
}

/// The map of a list of pairs is finite and has at most as many entries as
/// the list has pairs: exactly as many where no name occurs twice.
pub proof fn lemma_pairs_map_len(pairs: Seq<(Seq<char>, Seq<char>)>)
    ensures
        pairs_map(pairs).dom().finite(),
        pairs_map(pairs).len() <= pairs.len(),
        names_distinct(pairs) <==> pairs_map(pairs).len() == pairs.len(),
    decreases pairs.len(),
{
    if pairs.len() > 0 {
        let front = pairs.drop_last();
        let last = pairs.last();
        lemma_pairs_map_len(front);
        lemma_pairs_map_dom(front, last.0);
        assert(pairs_map(pairs).dom() =~= pairs_map(front).dom().insert(last.0));
        if names_distinct(pairs) {
            assert forall|i: int, j: int| 0 <= i < j < front.len() implies front[i].0
                != front[j].0 by {
                assert(pairs[i].0 != pairs[j].0);
            }
            if pairs_map(front).contains_key(last.0) {
                let i = choose|i: int| 0 <= i < front.len() && (#[trigger] front[i]).0 == last.0;
                assert(pairs[i].0 != pairs[pairs.len() - 1].0);
            }
        }
        if pairs_map(pairs).len() == pairs.len() {
            assert(names_distinct(front));
            assert(!pairs_map(front).contains_key(last.0));
            assert forall|i: int, j: int| 0 <= i < j < pairs.len() implies pairs[i].0
                != pairs[j].0 by {
                if j < pairs.len() - 1 {
                    assert(front[i].0 != front[j].0);
                } else {
                    assert(front[i].0 == pairs[i].0);
                }
            }
        }
    }
}

/// Putting a new value in place of the pair that holds a name does to the map
/// what inserting the name with that value does, where no name occurs twice.
pub proof fn lemma_pairs_map_update(
    pairs: Seq<(Seq<char>, Seq<char>)>,
    i: int,
    value: Seq<char>,
)
    requires
        0 <= i < pairs.len(),
        names_distinct(pairs),
    ensures
        pairs_map(pairs.update(i, (pairs[i].0, value))) == pairs_map(pairs).insert(
            pairs[i].0,
            value,
        ),
        names_distinct(pairs.update(i, (pairs[i].0, value))),
    decreases pairs.len(),
{
    let name = pairs[i].0;
    let updated = pairs.update(i, (name, value));
    assert forall|a: int, b: int| 0 <= a < b < updated.len() implies updated[a].0
        != updated[b].0 by {
        assert(pairs[a].0 != pairs[b].0);
    }
    let front = pairs.drop_last();
    if i == pairs.len() - 1 {
        assert(updated.drop_last() =~= front);
        assert(pairs_map(updated) =~= pairs_map(pairs).insert(name, value));
    } else {
        assert forall|a: int, b: int| 0 <= a < b < front.len() implies front[a].0
            != front[b].0 by {
            assert(pairs[a].0 != pairs[b].0);
        }
        lemma_pairs_map_update(front, i, value);
        assert(updated.drop_last() =~= front.update(i, (name, value)));
        assert(pairs[i].0 != pairs[pairs.len() - 1].0);
        assert(pairs_map(updated) =~= pairs_map(pairs).insert(name, value));
    }
}

/// The headers of a response: for each name the value that came last.
///
/// Names are kept as they are given; the parser gives them in lower case.
#[derive(Debug)]
pub struct HeaderMap {
    entries: Vec<(String, String)>,
}

impl View for HeaderMap {
    type V = Map<Seq<char>, Seq<char>>;

    closed spec fn view(&self) -> Map<Seq<char>, Seq<char>> {
        pairs_map(pair_views(self.entries@))
    }
}

impl HeaderMap {
    #[verifier::type_invariant]
    closed spec fn well_formed(&self) -> bool {
        names_distinct(pair_views(self.entries@))
    }

    /// A map without headers.
    pub fn new() -> (headers: HeaderMap)
        ensures
            headers@ == Map::<Seq<char>, Seq<char>>::empty(),
    {
        HeaderMap { entries: Vec::new() }
    }

    /// Where the pair with this name stands, if there is one.
    fn position(&self, name: &str) -> (at: Option<usize>)
        ensures
            match at {
                Some(i) => i < self.entries.len() && self.entries[i as int].0@ == name@,
                None => forall|i: int|
                    0 <= i < self.entries.len() ==> (#[trigger] self.entries[i]).0@ != name@,
            },
    {
        let mut i: usize = 0;
        while i < self.entries.len()
            invariant
                i <= self.entries.len(),
                forall|k: int| 0 <= k < i ==> (#[trigger] self.entries[k]).0@ != name@,
            decreases self.entries.len() - i,
        {
            if str_eq(self.entries[i].0.as_str(), name) {
                return Some(i);
            }
            i += 1;
        }
        None
    }

    /// Sets the value of a header. A value that the name had before is
    /// replaced.
    pub fn insert(&mut self, name: String, value: String)
        ensures
            final(self)@ == old(self)@.insert(name@, value@),
    {
        proof {
            use_type_invariant(&*self);
        }
        let ghost before = pair_views(self.entries@);
        let at = self.position(name.as_str());
        let mut entries: Vec<(String, String)> = Vec::new();
        core::mem::swap(&mut self.entries, &mut entries);
        match at {
            Some(i) => {
                proof {
                    lemma_pairs_map_update(before, i as int, value@);
                }
                entries.set(i, (name, value));
                assert(pair_views(entries@) =~= before.update(
                    i as int,
                    (before[i as int].0, value@),
                ));
            },
            None => {
                entries.push((name, value));
                let ghost after = pair_views(entries@);
                assert(after.drop_last() =~= before);
                assert forall|a: int, b: int| 0 <= a < b < after.len() implies after[a].0
                    != after[b].0 by {
                    if b < after.len() - 1 {
                        assert(before[a].0 != before[b].0);
                    } else {
                        assert(old(self).entries[a].0@ != name@);
                    }
                }
            },
        }
        core::mem::swap(&mut self.entries, &mut entries);
    }

    /// The value of a header, if the map has it.
    pub fn get(&self, name: &str) -> (value: Option<&String>)
        ensures
            match value {
                Some(v) => self@.contains_key(name@) && self@[name@] == v@,
                None => !self@.contains_key(name@),
            },
    {
        proof {
            use_type_invariant(self);
            lemma_pairs_map_dom(pair_views(self.entries@), name@);
        }
        match self.position(name) {
            Some(i) => {
                proof {
                    let pairs = pair_views(self.entries@);
                    assert(pairs[i as int].0 == name@);
                    assert forall|j: int| i < j < pairs.len() implies (#[trigger] pairs[j]).0
                        != pairs[i as int].0 by {}
                    lemma_pairs_map_last(pairs, i as int);
                }
                Some(&self.entries[i].1)
            },
            None => {
                proof {
                    let pairs = pair_views(self.entries@);
                    if exists|i: int| 0 <= i < pairs.len() && (#[trigger] pairs[i]).0 == name@ {
                        let i = choose|i: int|
                            0 <= i < pairs.len() && (#[trigger] pairs[i]).0 == name@;
                        assert(self.entries[i].0@ == name@);
                    }
                }
                None
            },
        }
    }

    /// Whether the map has a header of this name.
    pub fn contains_key(&self, name: &str) -> (found: bool)
        ensures
            found == self@.contains_key(name@),
    {
        self.get(name).is_some()
    }

    /// How many headers the map has.
    pub fn len(&self) -> (count: usize)
        ensures
            self@.dom().finite(),
            count == self@.len(),
    {
        proof {
            use_type_invariant(self);
            lemma_pairs_map_len(pair_views(self.entries@));
        }
        self.entries.len()
    }

    /// Whether the map has no header.
    pub fn is_empty(&self) -> (empty: bool)
        ensures
            empty == (self@ == Map::<Seq<char>, Seq<char>>::empty()),
    {
        proof {
            use_type_invariant(self);
            lemma_pairs_map_len(pair_views(self.entries@));
            if self.entries.len() == 0 {
                assert(self@ =~= Map::<Seq<char>, Seq<char>>::empty());
            }
        }
        self.entries.len() == 0
    }

    /// The headers as a list of names and values, each name once.
    pub fn to_vec(&self) -> (list: Vec<(String, String)>)
        ensures
            pairs_map(pair_views(list@)) == self@,
            names_distinct(pair_views(list@)),
            list@.len() == self@.len(),
    {
        proof {
            use_type_invariant(self);
            lemma_pairs_map_len(pair_views(self.entries@));
        }
        let mut list: Vec<(String, String)> = Vec::new();
        let mut i: usize = 0;
        while i < self.entries.len()
            invariant
                i <= self.entries.len(),
                list@.len() == i,
                forall|k: int|
                    0 <= k < i ==> (#[trigger] list@[k]).0@ == self.entries@[k].0@ && list@[k].1@
                        == self.entries@[k].1@,
            decreases self.entries.len() - i,
        {
            let name = self.entries[i].0.clone();
            let value = self.entries[i].1.clone();
            list.push((name, value));
            i += 1;
        }
        assert(pair_views(list@) =~= pair_views(self.entries@));
        list
    }
}

} // verus!
