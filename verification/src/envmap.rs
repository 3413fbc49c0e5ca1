//! The mutable environment a build carries: an insertion-ordered list of
//! `KEY=VALUE` entries with unique keys, viewed as a map from key
//! characters to value characters.

use vstd::prelude::*;
use crate::strutil::{chars_of, chars_eq_str};

verus! {

pub struct EnvMap {
    pub entries: Vec<(String, String)>,
}

/// The entries with their string views, in stored order.
pub open spec fn entry_views(entries: Seq<(String, String)>) -> Seq<(Seq<char>, Seq<char>)> {
    entries.map_values(|p: (String, String)| (p.0@, p.1@))
}

/// The map an entry list denotes (later entries win, though a
/// well-formed list never repeats a key).
pub open spec fn map_of(s: Seq<(Seq<char>, Seq<char>)>) -> Map<Seq<char>, Seq<char>>
    decreases s.len(),
{
    if s.len() == 0 {
        Map::empty()
    } else {
        map_of(s.drop_last()).insert(s.last().0, s.last().1)
    }
}

impl EnvMap {
    /// Keys are pairwise distinct.
    pub open spec fn wf(&self) -> bool {
        forall|i: int, j: int|
            0 <= i < j < self.entries@.len()
                ==> (#[trigger] self.entries@[i]).0@ != (#[trigger] self.entries@[j]).0@
    }

    pub open spec fn entry_seq(&self) -> Seq<(Seq<char>, Seq<char>)> {
        entry_views(self.entries@)
    }

    pub open spec fn view(&self) -> Map<Seq<char>, Seq<char>> {
        map_of(self.entry_seq())
    }

    pub fn new() -> (r: EnvMap)
        ensures
            r.wf(),
            r@ == Map::<Seq<char>, Seq<char>>::empty(),
            r.entry_seq() == Seq::<(Seq<char>, Seq<char>)>::empty(),
    {
        let r = EnvMap { entries: Vec::new() };
        proof {
            assert(r.entry_seq() =~= Seq::<(Seq<char>, Seq<char>)>::empty());
        }
        r
    }

    /// The number of entries.
    pub fn len(&self) -> (r: usize)
        ensures
            r == self.entry_seq().len(),
    {
        self.entries.len()
    }

    /// The entry at a position, in stored order.
    pub fn entry_at(&self, i: usize) -> (r: &(String, String))
        requires
            i < self.entry_seq().len(),
        ensures
            (r.0@, r.1@) == self.entry_seq()[i as int],
    {
        &self.entries[i]
    }

    /// Look a key up by its characters; the result follows the map view.
    pub fn lookup(&self, name: &Vec<char>) -> (r: Option<&String>)
        requires
            self.wf(),
        ensures
            match r {
                Some(v) => self@.contains_key(name@) && self@[name@] == v@,
                None => !self@.contains_key(name@),
            },
    {
        let mut i: usize = 0;
        while i < self.entries.len()
            invariant
                self.wf(),
                i <= self.entries@.len(),
                forall|j: int| 0 <= j < i ==> (#[trigger] self.entries@[j]).0@ != name@,
            decreases self.entries@.len() - i,
        {
            if chars_eq_str(name, self.entries[i].0.as_str()) {
                proof {
                    lemma_map_of_found(self.entry_seq(), i as int);
                }
                return Some(&self.entries[i].1);
            }
            i = i + 1;
        }
        proof {
            lemma_map_of_absent(self.entry_seq(), name@);
        }
        None
    }

    /// Look a key up by string slice.
    pub fn get(&self, name: &str) -> (r: Option<&String>)
        requires
            self.wf(),
        ensures
            match r {
                Some(v) => self@.contains_key(name@) && self@[name@] == v@,
                None => !self@.contains_key(name@),
            },
    {
        let cs = chars_of(name);
        self.lookup(&cs)
    }

    /// Bind a key: replace the value in place when the key exists, else
    /// append the entry.
    pub fn insert(&mut self, key: String, value: String)
        requires
            old(self).wf(),
        ensures
            final(self).wf(),
            final(self)@ == old(self)@.insert(key@, value@),
            final(self).entry_seq() == if exists|i: int|
                0 <= i < old(self).entry_seq().len() && old(self).entry_seq()[i].0 == key@ {
                old(self).entry_seq().update(
                    choose|i: int|
                        0 <= i < old(self).entry_seq().len()
                            && old(self).entry_seq()[i].0 == key@,
                    (key@, value@),
                )
            } else {
                old(self).entry_seq().push((key@, value@))
            },
    {
        let ghost old_seq = self.entry_seq();
        let mut i: usize = 0;
        while i < self.entries.len()
            invariant
                self.wf(),
                self.entry_seq() == old_seq,
                self == old(self),
                i <= self.entries@.len(),
                forall|j: int| 0 <= j < i ==> (#[trigger] self.entries@[j]).0@ != key@,
            decreases self.entries@.len() - i,
        {
            let keq = {
                let kc = chars_of(key.as_str());
                chars_eq_str(&kc, self.entries[i].0.as_str())
            };
            if keq {
                let ghost found: int = i as int;
                self.entries.set(i, (key, value));
                proof {
                    assert(self.entry_seq() =~= old_seq.update(found, (old_seq[found].0, value@)));
                    assert(old_seq[found].0 == key@);
                    assert(self.entry_seq() =~= old_seq.update(found, (key@, value@)));
                    assert(forall|a: int, b: int|
                        0 <= a < b < self.entries@.len()
                            ==> (#[trigger] self.entries@[a]).0@
                                != (#[trigger] self.entries@[b]).0@);
                    lemma_map_of_update(old_seq, found, value@);
                    let w = choose|w: int|
                        0 <= w < old_seq.len() && old_seq[w].0 == key@;
                    assert(old_seq[w].0 == key@);
                    if w != found {
                        assert(old_seq[w].0 != old_seq[found].0);
                        assert(false);
                    }
                }
                return ;
            }
            i = i + 1;
        }
        self.entries.push((key, value));
        proof {
            assert(self.entry_seq() =~= old_seq.push((key@, value@)));
            assert(self.entry_seq().drop_last() =~= old_seq);
            assert(!(exists|w: int| 0 <= w < old_seq.len() && old_seq[w].0 == key@)) by {
                assert(forall|j: int| 0 <= j < old_seq.len()
                    ==> (#[trigger] old_seq[j]).0 != key@);
            }
        }
    }
}

/// When position `i` holds the first occurrence of a key, the map view
/// carries that entry's value... later entries have other keys, so the
/// entry at `i` decides.
proof fn lemma_map_of_found(s: Seq<(Seq<char>, Seq<char>)>, i: int)
    requires
        0 <= i < s.len(),
        forall|a: int, b: int| 0 <= a < b < s.len() ==> (#[trigger] s[a]).0 != (#[trigger] s[b]).0,
    ensures
        map_of(s).contains_key(s[i].0),
        map_of(s)[s[i].0] == s[i].1,
    decreases s.len(),
{
    if i == s.len() - 1 {
    } else {
        assert(s.drop_last()[i] == s[i]);
        assert(forall|a: int, b: int|
            0 <= a < b < s.drop_last().len()
                ==> (#[trigger] s.drop_last()[a]).0 != (#[trigger] s.drop_last()[b]).0) by {
            assert(forall|a: int| 0 <= a < s.drop_last().len()
                ==> s.drop_last()[a] == s[a]);
        }
        lemma_map_of_found(s.drop_last(), i);
        assert(s.last().0 != s[i].0);
    }
}

/// A key that no entry carries is not in the map view.
proof fn lemma_map_of_absent(s: Seq<(Seq<char>, Seq<char>)>, k: Seq<char>)
    requires
        forall|j: int| 0 <= j < s.len() ==> (#[trigger] s[j]).0 != k,
    ensures
        !map_of(s).contains_key(k),
    decreases s.len(),
{
    if s.len() == 0 {
    } else {
        assert(forall|j: int| 0 <= j < s.drop_last().len()
            ==> (#[trigger] s.drop_last()[j]).0 != k);
        lemma_map_of_absent(s.drop_last(), k);
    }
}

/// Updating the value at a position whose key is unique rewrites exactly
/// that key's binding in the map view.
proof fn lemma_map_of_update(s: Seq<(Seq<char>, Seq<char>)>, i: int, v: Seq<char>)
    requires
        0 <= i < s.len(),
        forall|a: int, b: int| 0 <= a < b < s.len() ==> (#[trigger] s[a]).0 != (#[trigger] s[b]).0,
    ensures
        map_of(s.update(i, (s[i].0, v))) == map_of(s).insert(s[i].0, v),
    decreases s.len(),
{
    let t = s.update(i, (s[i].0, v));
    if i == s.len() - 1 {
        assert(t.drop_last() =~= s.drop_last());
        assert(t.last() == (s[i].0, v));
        assert(map_of(t) =~= map_of(s).insert(s[i].0, v));
    } else {
        assert(t.last() == s.last());
        assert(t.drop_last() =~= s.drop_last().update(i, (s[i].0, v)));
        assert(s.drop_last()[i] == s[i]);
        assert(forall|a: int, b: int|
            0 <= a < b < s.drop_last().len()
                ==> (#[trigger] s.drop_last()[a]).0 != (#[trigger] s.drop_last()[b]).0) by {
            assert(forall|a: int| 0 <= a < s.drop_last().len()
                ==> s.drop_last()[a] == s[a]);
        }
        lemma_map_of_update(s.drop_last(), i, v);
        assert(s[i].0 != s.last().0);
        assert(map_of(t) =~= map_of(s).insert(s[i].0, v)) by {
            assert(map_of(t) == map_of(t.drop_last()).insert(t.last().0, t.last().1));
            assert(map_of(t.drop_last()) == map_of(s.drop_last()).insert(s[i].0, v));
            assert(map_of(s.drop_last()).insert(s[i].0, v).insert(s.last().0, s.last().1)
                =~= map_of(s.drop_last()).insert(s.last().0, s.last().1).insert(s[i].0, v));
        }
    }
}

} // verus!
