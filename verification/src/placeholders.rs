//! The values that a template's placeholders stand for, by name. The empty
//! name holds the stem that a glob's `*` captured.
use vstd::prelude::*;

use crate::strings::same_text;

verus! {

/// The names of a list of entries paired with their values, as character sequences.
pub open spec fn entry_views(e: Seq<(String, String)>) -> Seq<(Seq<char>, Seq<char>)> {
    e.map_values(|p: (String, String)| (p.0@, p.1@))
}

/// The value of the first entry with the given name.
pub open spec fn lookup(entries: Seq<(Seq<char>, Seq<char>)>, key: Seq<char>) -> Option<Seq<char>>
    decreases entries.len(),
{
    if entries.len() == 0 {
        None
    } else if entries[0].0 == key {
        Some(entries[0].1)
    } else {
        lookup(entries.drop_first(), key)
    }
}

/// The map that a list of entries stands for.
pub open spec fn entries_map(entries: Seq<(Seq<char>, Seq<char>)>) -> Map<Seq<char>, Seq<char>> {
    Map::new(|k: Seq<char>| lookup(entries, k) is Some, |k: Seq<char>| lookup(entries, k).unwrap())
}

/// Named placeholder values: a map from names to values.
pub struct Placeholders {
    entries: Vec<(String, String)>,
}

impl View for Placeholders {
    type V = Map<Seq<char>, Seq<char>>;

    closed spec fn view(&self) -> Map<Seq<char>, Seq<char>> {
        entries_map(entry_views(self.entries@))
    }
}

proof fn lemma_lookup_push(s: Seq<(Seq<char>, Seq<char>)>, e: (Seq<char>, Seq<char>), k: Seq<char>)
    ensures
        lookup(s.push(e), k) == (if lookup(s, k) is Some {
            lookup(s, k)
        } else if e.0 == k {
            Some(e.1)
        } else {
            None
        }),
    decreases s.len(),
{
    if s.len() > 0 {
        assert(s.push(e).drop_first() =~= s.drop_first().push(e));
        assert(s.push(e)[0] == s[0]);
        lemma_lookup_push(s.drop_first(), e, k);
    } else {
        assert(s.push(e)[0] == e);
        assert(s.push(e).drop_first() =~= Seq::<(Seq<char>, Seq<char>)>::empty());
        assert(lookup(s.push(e).drop_first(), k) is None);
    }
}

proof fn lemma_lookup_update(s: Seq<(Seq<char>, Seq<char>)>, i: int, v: Seq<char>, k: Seq<char>)
    requires
        0 <= i < s.len(),
        forall|j: int| 0 <= j < i ==> s[j].0 != s[i].0,
    ensures
        lookup(s.update(i, (s[i].0, v)), k) == (if k == s[i].0 {
            Some(v)
        } else {
            lookup(s, k)
        }),
    decreases s.len(),
{
    let t = s.update(i, (s[i].0, v));
    if i > 0 {
        assert(t.drop_first() =~= s.drop_first().update(i - 1, (s[i].0, v)));
        assert(s.drop_first()[i - 1] == s[i]);
        assert(t[0] == s[0]);
        lemma_lookup_update(s.drop_first(), i - 1, v, k);
    } else {
        assert(t.drop_first() =~= s.drop_first());
    }
}

impl Placeholders {
    /// No placeholder values.
    pub fn new() -> (r: Self)
        ensures
            r@ == Map::<Seq<char>, Seq<char>>::empty(),
    {
        let r = Placeholders { entries: Vec::new() };
        assert(r@ =~= Map::<Seq<char>, Seq<char>>::empty());
        r
    }

    /// Sets the value of a name, replacing the one it had.
    pub fn insert(&mut self, key: String, value: String)
        ensures
            final(self)@ == old(self)@.insert(key@, value@),
    {
        let ghost old_entries = entry_views(self.entries@);
        let mut i: usize = 0;
        while i < self.entries.len()
            invariant
                i <= self.entries@.len(),
                entry_views(self.entries@) == old_entries,
                old_entries == entry_views(old(self).entries@),
                forall|j: int| 0 <= j < i ==> old_entries[j].0 != key@,
            decreases self.entries@.len() - i,
        {
            if self.entries[i].0 == key {
                let ghost s = old_entries;
                self.entries.set(i, (key, value));
                proof {
                    assert(entry_views(self.entries@) =~= s.update(i as int, (s[i as int].0, value@)));
                    assert forall|k: Seq<char>| #[trigger]
                        lookup(entry_views(self.entries@), k) == (if k == key@ {
                            Some(value@)
                        } else {
                            lookup(s, k)
                        }) by {
                        lemma_lookup_update(s, i as int, value@, k);
                    }
                    assert(self@ =~= old(self)@.insert(key@, value@));
                }
                return;
            }
            i += 1;
        }
        let ghost s = old_entries;
        self.entries.push((key, value));
        proof {
            assert(entry_views(self.entries@) =~= s.push((key@, value@)));
            assert forall|k: Seq<char>| #[trigger]
                lookup(entry_views(self.entries@), k) == (if k == key@ {
                    Some(value@)
                } else {
                    lookup(s, k)
                }) by {
                lemma_lookup_push(s, (key@, value@), k);
                if k == key@ {
                    lemma_lookup_absent(s, k);
                }
            }
            assert(self@ =~= old(self)@.insert(key@, value@));
        }
    }

    /// The value of a name, if it has one.
    pub fn get(&self, key: &str) -> (r: Option<&String>)
        ensures
            match r {
                Some(v) => self@.contains_key(key@) && v@ == self@[key@],
                None => !self@.contains_key(key@),
            },
    {
        let ghost s = entry_views(self.entries@);
        let mut i: usize = 0;
        while i < self.entries.len()
            invariant
                i <= self.entries@.len(),
                s == entry_views(self.entries@),
                forall|j: int| 0 <= j < i ==> s[j].0 != key@,
            decreases self.entries@.len() - i,
        {
            if same_text(self.entries[i].0.as_str(), key) {
                proof {
                    lemma_lookup_first(s, i as int);
                }
                return Some(&self.entries[i].1);
            }
            i += 1;
        }
        proof {
            lemma_lookup_absent(s, key@);
        }
        None
    }
}

proof fn lemma_lookup_absent(s: Seq<(Seq<char>, Seq<char>)>, k: Seq<char>)
    requires
        forall|j: int| 0 <= j < s.len() ==> s[j].0 != k,
    ensures
        lookup(s, k) is None,
    decreases s.len(),
{
    if s.len() > 0 {
        assert(forall|j: int| 0 <= j < s.len() - 1 ==> s.drop_first()[j] == s[j + 1]);
        lemma_lookup_absent(s.drop_first(), k);
    }
}

proof fn lemma_lookup_first(s: Seq<(Seq<char>, Seq<char>)>, i: int)
    requires
        0 <= i < s.len(),
        forall|j: int| 0 <= j < i ==> s[j].0 != s[i].0,
    ensures
        lookup(s, s[i].0) == Some(s[i].1),
    decreases s.len(),
{
    if i > 0 {
        assert(forall|j: int| 0 <= j < s.len() - 1 ==> s.drop_first()[j] == s[j + 1]);
        lemma_lookup_first(s.drop_first(), i - 1);
    }
}

} // verus!
