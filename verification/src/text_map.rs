//! A map from text to text that keeps the order of its names.

use vstd::prelude::*;

use crate::text;

verus! {

/// A name with a value.
#[derive(Debug)]
pub struct TextEntry {
    pub name: String,
    pub value: String,
}

/// Values under names, each name once.
#[derive(Debug)]
pub struct TextMap {
    pub entries: Vec<TextEntry>,
}

/// The map that a list of entries stands for, a later entry over an earlier.
pub open spec fn map_of(entries: Seq<TextEntry>) -> Map<Seq<char>, Seq<char>>
    decreases entries.len(),
{
    if entries.len() == 0 {
        Map::empty()
    } else {
        map_of(entries.drop_last()).insert(entries.last().name@, entries.last().value@)
    }
}

/// Whether no two entries have the same name.
pub open spec fn names_distinct(entries: Seq<TextEntry>) -> bool {
    forall|i: int, j: int|
        0 <= i < j < entries.len() ==> (#[trigger] entries[i]).name@ != (#[trigger] entries[j]).name@
}

impl View for TextMap {
    type V = Map<Seq<char>, Seq<char>>;

    open spec fn view(&self) -> Map<Seq<char>, Seq<char>> {
        map_of(self.entries@)
    }
}

pub proof fn lemma_map_of(entries: Seq<TextEntry>)
    requires
        names_distinct(entries),
    ensures
        forall|i: int|
            0 <= i < entries.len() ==> map_of(entries).contains_key(
                (#[trigger] entries[i]).name@,
            ) && map_of(entries)[entries[i].name@] == entries[i].value@,
        forall|k: Seq<char>| #[trigger]
            map_of(entries).contains_key(k) ==> exists|i: int|
                0 <= i < entries.len() && (#[trigger] entries[i]).name@ == k,
    decreases entries.len(),
{
    if entries.len() > 0 {
        let front = entries.drop_last();
        assert(names_distinct(front)) by {
            assert forall|i: int, j: int| 0 <= i < j < front.len() implies (
            #[trigger] front[i]).name@ != (#[trigger] front[j]).name@ by {
                assert(entries[i].name@ != entries[j].name@);
            }
        }
        lemma_map_of(front);
        assert forall|i: int| 0 <= i < entries.len() implies map_of(entries).contains_key(
            (#[trigger] entries[i]).name@,
        ) && map_of(entries)[entries[i].name@] == entries[i].value@ by {
            if i < front.len() {
                assert(front[i] == entries[i]);
                assert(entries[i].name@ != entries[entries.len() - 1].name@);
            }
        }
        assert forall|k: Seq<char>| #[trigger] map_of(entries).contains_key(k) implies exists|
            i: int,
        |
            0 <= i < entries.len() && (#[trigger] entries[i]).name@ == k by {
            if k == entries.last().name@ {
                assert(entries[entries.len() - 1].name@ == k);
            } else {
                assert(map_of(front).contains_key(k));
                let i = choose|i: int| 0 <= i < front.len() && (#[trigger] front[i]).name@ == k;
                assert(entries[i].name@ == k);
            }
        }
    }
}

impl TextMap {
    /// Each name stands in the map once.
    pub open spec fn well_formed(&self) -> bool {
        names_distinct(self.entries@)
    }

    /// An empty map.
    pub fn new() -> (r: Self)
        ensures
            r.well_formed(),
            r@ == Map::<Seq<char>, Seq<char>>::empty(),
    {
        TextMap { entries: Vec::new() }
    }

    /// Whether the map is empty.
    pub fn is_empty(&self) -> (r: bool)
        requires
            self.well_formed(),
        ensures
            r == (self@ == Map::<Seq<char>, Seq<char>>::empty()),
    {
        proof {
            lemma_map_of(self.entries@);
            if self.entries@.len() > 0 {
                assert(self@.contains_key(self.entries@[0].name@));
            }
        }
        self.entries.len() == 0
    }

    fn find(&self, name: &str) -> (r: Option<usize>)
        ensures
            match r {
                Some(i) => i < self.entries@.len() && self.entries@[i as int].name@ == name@,
                None => forall|i: int|
                    0 <= i < self.entries@.len() ==> (#[trigger] self.entries@[i]).name@ != name@,
            },
    {
        let mut i: usize = 0;
        while i < self.entries.len()
            invariant
                i <= self.entries@.len(),
                forall|k: int| 0 <= k < i ==> (#[trigger] self.entries@[k]).name@ != name@,
            decreases self.entries@.len() - i,
        {
            if text::same_text(&self.entries[i].name, name) {
                return Some(i);
            }
            i += 1;
        }
        None
    }

    /// The value under a name.
    pub fn get(&self, name: &str) -> (r: Option<&String>)
        requires
            self.well_formed(),
        ensures
            match r {
                Some(value) => self@.contains_key(name@) && self@[name@] == value@,
                None => !self@.contains_key(name@),
            },
    {
        proof {
            lemma_map_of(self.entries@);
        }
        match self.find(name) {
            Some(i) => Some(&self.entries[i].value),
            None => None,
        }
    }

    /// Puts a value under a name, in place of what was there.
    pub fn insert(&mut self, name: String, value: String)
        requires
            old(self).well_formed(),
        ensures
            final(self).well_formed(),
            final(self)@ == old(self)@.insert(name@, value@),
    {
        let ghost before = self.entries@;
        match self.find(&name) {
            Some(i) => {
                let entry = &mut self.entries[i];
                entry.value = value;
                proof {
                    lemma_map_of(before);
                    let after = self.entries@;
                    assert(after[i as int].name@ == before[i as int].name@);
                    assert(names_distinct(after)) by {
                        assert forall|a: int, b: int| 0 <= a < b < after.len() implies (
                        #[trigger] after[a]).name@ != (#[trigger] after[b]).name@ by {
                            assert(before[a].name@ != before[b].name@);
                        }
                    }
                    lemma_map_of(after);
                    let m = map_of(before).insert(name@, value@);
                    let n = map_of(after);
                    assert forall|k: Seq<char>| n.contains_key(k) == m.contains_key(k) by {
                        if m.contains_key(k) {
                            if k == name@ {
                                assert(n.contains_key(after[i as int].name@));
                            } else {
                                let j = choose|j: int|
                                    0 <= j < before.len() && (#[trigger] before[j]).name@ == k;
                                assert(after[j].name@ == k);
                            }
                        }
                        if n.contains_key(k) {
                            let j = choose|j: int|
                                0 <= j < after.len() && (#[trigger] after[j]).name@ == k;
                            assert(before[j].name@ == k);
                        }
                    }
                    assert forall|k: Seq<char>| n.contains_key(k) implies n[k] == m[k] by {
                        let j = choose|j: int|
                            0 <= j < after.len() && (#[trigger] after[j]).name@ == k;
                        assert(n[after[j].name@] == after[j].value@);
                        if j != i {
                            assert(before[j] == after[j]);
                            assert(m[k] == map_of(before)[k]) by {
                                if k == name@ {
                                    if j < i {
                                        assert(before[j].name@ != before[i as int].name@);
                                    } else {
                                        assert(before[i as int].name@ != before[j].name@);
                                    }
                                }
                            }
                        }
                    }
                    assert(n =~= m);
                }
            },
            None => {
                self.entries.push(TextEntry { name, value });
                proof {
                    let after = self.entries@;
                    assert(after.drop_last() =~= before);
                    assert forall|a: int, b: int| 0 <= a < b < after.len() implies (
                    #[trigger] after[a]).name@ != (#[trigger] after[b]).name@ by {
                        assert(before[a] == after[a]);
                        if b < before.len() {
                            assert(before[b] == after[b]);
                        }
                    }
                }
            },
        }
    }

    /// Puts a value under a name that has none.
    pub fn insert_if_vacant(&mut self, name: String, value: String)
        requires
            old(self).well_formed(),
        ensures
            final(self).well_formed(),
            final(self)@ == if old(self)@.contains_key(name@) {
                old(self)@
            } else {
                old(self)@.insert(name@, value@)
            },
    {
        if self.get(&name).is_none() {
            self.insert(name, value);
        }
    }
}

/// The value under a name.
pub open spec fn value_under(map: Map<Seq<char>, Seq<char>>, name: Seq<char>) -> Option<
    Seq<char>,
> {
    if map.contains_key(name) {
        Some(map[name])
    } else {
        None
    }
}

pub proof fn lemma_same_map(m: Map<Seq<char>, Seq<char>>, n: Map<Seq<char>, Seq<char>>)
    requires
        forall|k: Seq<char>| value_under(m, k) == #[trigger] value_under(n, k),
    ensures
        m == n,
{
    assert forall|k: Seq<char>| m.dom().contains(k) == n.dom().contains(k) by {
        assert(value_under(m, k) == value_under(n, k));
    }
    assert forall|k: Seq<char>| m.dom().contains(k) implies m[k] == n[k] by {
        assert(value_under(m, k) == value_under(n, k));
    }
    assert(m =~= n);
}

/// The first `n` entries.
pub open spec fn walked(entries: Seq<TextEntry>, n: int) -> Map<Seq<char>, Seq<char>> {
    map_of(entries.take(n))
}

pub proof fn lemma_new_name(entries: Seq<TextEntry>, i: int)
    requires
        names_distinct(entries),
        0 <= i < entries.len(),
    ensures
        !walked(entries, i).contains_key(entries[i].name@),
{
    let front = entries.take(i);
    assert(names_distinct(front)) by {
        assert forall|a: int, b: int| 0 <= a < b < front.len() implies (#[trigger] front[a]).name@
            != (#[trigger] front[b]).name@ by {
            assert(entries[a].name@ != entries[b].name@);
        }
    }
    lemma_map_of(front);
    if walked(entries, i).contains_key(entries[i].name@) {
        let k = choose|k: int|
            0 <= k < front.len() && (#[trigger] front[k]).name@ == entries[i].name@;
        assert(entries[k].name@ != entries[i].name@);
    }
}

} // verus!
