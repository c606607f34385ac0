//! A small string-to-string map kept as a list of entries, used for session
//! context and row data.
use vstd::prelude::*;
use crate::text::str_eq;
use crate::types::drop_where;
use crate::types::lemma_unique_drop;
use crate::types::lemma_unique_replace;
use crate::types::unique_by;

verus! {

/// The value bound to `k` in `ps`: the last entry with that key wins.
pub open spec fn lookup(ps: Seq<(Seq<char>, Seq<char>)>, k: Seq<char>) -> Option<Seq<char>>
    decreases ps.len(),
{
    if ps.len() == 0 {
        None
    } else if ps.last().0 == k {
        Some(ps.last().1)
    } else {
        lookup(ps.drop_last(), k)
    }
}

/// `ps` without the entries whose key is `k`.
pub open spec fn without_key(ps: Seq<(Seq<char>, Seq<char>)>, k: Seq<char>) -> Seq<
    (Seq<char>, Seq<char>),
> {
    drop_where(ps, |e: (Seq<char>, Seq<char>)| e.0 == k)
}

/// No key is bound twice.
pub open spec fn keys_unique(ps: Seq<(Seq<char>, Seq<char>)>) -> bool {
    unique_by(ps, |e: (Seq<char>, Seq<char>)| e.0)
}

/// The map built from `ps` by inserting each entry in turn.
pub open spec fn insert_entry(
    ps: Seq<(Seq<char>, Seq<char>)>,
    k: Seq<char>,
    v: Seq<char>,
) -> Seq<(Seq<char>, Seq<char>)> {
    without_key(ps, k).push((k, v))
}

/// String keys bound to string values; inserting a key replaces its old value.
#[derive(Debug)]
pub struct StrMap {
    entries: Vec<(String, String)>,
}

impl View for StrMap {
    type V = Seq<(Seq<char>, Seq<char>)>;

    closed spec fn view(&self) -> Seq<(Seq<char>, Seq<char>)> {
        self.entries@.map_values(|e: (String, String)| (e.0@, e.1@))
    }
}

impl StrMap {
    /// Each key is bound at most once.
    pub open spec fn wf(&self) -> bool {
        keys_unique(self@)
    }

    pub fn new() -> (r: StrMap)
        ensures
            r@ == Seq::<(Seq<char>, Seq<char>)>::empty(),
            r.wf(),
    {
        let r = StrMap { entries: Vec::new() };
        assert(r@ =~= Seq::<(Seq<char>, Seq<char>)>::empty());
        r
    }

    pub fn len(&self) -> (r: usize)
        ensures
            r == self@.len(),
    {
        self.entries.len()
    }

    /// The `i`th entry, in insertion order.
    pub fn entry(&self, i: usize) -> (r: (&String, &String))
        requires
            i < self@.len(),
        ensures
            (r.0@, r.1@) == self@[i as int],
    {
        (&self.entries[i].0, &self.entries[i].1)
    }

    /// Binds `k` to `v`, dropping any earlier binding of `k`.
    pub fn insert(&mut self, k: String, v: String)
        ensures
            final(self)@ == insert_entry(old(self)@, k@, v@),
            old(self).wf() ==> final(self).wf(),
    {
        self.remove(k.as_str());
        self.entries.push((k, v));
        proof {
            assert(final(self)@ =~= insert_entry(old(self)@, k@, v@));
            let key = |e: (Seq<char>, Seq<char>)| e.0;
            if old(self).wf() {
                lemma_unique_replace(old(self)@, (k@, v@), key);
                assert((|a: (Seq<char>, Seq<char>)| key(a) == key((k@, v@))) =~= (|e: (
                    Seq<char>,
                    Seq<char>,
                )| e.0 == k@));
            }
        }
    }

    /// Drops every binding of `k`.
    pub fn remove(&mut self, k: &str)
        ensures
            final(self)@ == without_key(old(self)@, k@),
            old(self).wf() ==> final(self).wf(),
    {
        let ghost start = self@;
        let mut kept: Vec<(String, String)> = Vec::new();
        let rest = &self.entries;
        let ghost all = rest@.map_values(|e: (String, String)| (e.0@, e.1@));
        let n = rest.len();
        let mut i: usize = 0;
        while i < n
            invariant
                n == rest.len(),
                0 <= i <= n,
                all == start,
                rest@.map_values(|e: (String, String)| (e.0@, e.1@)) == all,
                kept@.map_values(|e: (String, String)| (e.0@, e.1@)) == without_key(
                    all.subrange(0, i as int),
                    k@,
                ),
            decreases n - i,
        {
            let e = &rest[i];
            let ghost pre = kept@;
            proof {
                assert(all.subrange(0, i + 1).drop_last() =~= all.subrange(0, i as int));
            }
            if !str_eq(e.0.as_str(), k) {
                kept.push((e.0.clone(), e.1.clone()));
                proof {
                    assert(kept@.map_values(|e: (String, String)| (e.0@, e.1@)) =~= pre.map_values(
                        |e: (String, String)| (e.0@, e.1@),
                    ).push(all[i as int]));
                }
            }
            i = i + 1;
        }
        assert(all.subrange(0, n as int) =~= all);
        self.entries = kept;
        proof {
            if old(self).wf() {
                lemma_unique_drop(all, |e: (Seq<char>, Seq<char>)| e.0 == k@, |e: (Seq<char>, Seq<char>)| e.0);
            }
        }
    }

    /// The value bound to `k`, if any.
    pub fn get(&self, k: &str) -> (r: Option<&String>)
        ensures
            r matches Some(v) ==> lookup(self@, k@) == Some(v@),
            r is None ==> lookup(self@, k@) is None,
    {
        let mut i: usize = self.entries.len();
        assert(self@.subrange(0, i as int) =~= self@);
        while i > 0
            invariant
                0 <= i <= self@.len(),
                self@.len() == self.entries.len(),
                lookup(self@, k@) == lookup(self@.subrange(0, i as int), k@),
            decreases i,
        {
            proof {
                assert(self@.subrange(0, i as int).drop_last() =~= self@.subrange(0, i - 1));
            }
            if str_eq(self.entries[i - 1].0.as_str(), k) {
                return Some(&self.entries[i - 1].1);
            }
            i = i - 1;
        }
        None
    }
}

impl Clone for StrMap {
    fn clone(&self) -> (r: StrMap)
        ensures
            r@ == self@,
    {
        let mut entries: Vec<(String, String)> = Vec::new();
        let mut i: usize = 0;
        while i < self.entries.len()
            invariant
                0 <= i <= self.entries.len(),
                self@.len() == self.entries.len(),
                entries@.map_values(|e: (String, String)| (e.0@, e.1@)) == self@.subrange(
                    0,
                    i as int,
                ),
            decreases self.entries.len() - i,
        {
            let ghost pre = entries@;
            let k = self.entries[i].0.clone();
            let v = self.entries[i].1.clone();
            entries.push((k, v));
            proof {
                assert(entries@ == pre.push((k, v)));
                assert(self@[i as int] == (k@, v@));
                assert(entries@.map_values(|e: (String, String)| (e.0@, e.1@)) =~= pre.map_values(
                    |e: (String, String)| (e.0@, e.1@),
                ).push((k@, v@)));
                assert(self@.subrange(0, i + 1) =~= self@.subrange(0, i as int).push((k@, v@)));
            }
            i = i + 1;
        }
        let r = StrMap { entries };
        assert(r@ =~= self@);
        r
    }
}

} // verus!
