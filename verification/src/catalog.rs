//! Catalog: an immutable-per-run mapping from file name to absolute path.
//! It is built once (last write wins when a name repeats), holds each name
//! at most once, and is read-only during resolution.

use vstd::prelude::*;

verus! {

/// The mapping that a sequence of (name, path) pairs denotes, later pairs
/// overriding earlier ones.
pub open spec fn pairs_to_map(s: Seq<(Seq<char>, Seq<char>)>) -> Map<Seq<char>, Seq<char>>
    decreases s.len(),
{
    if s.len() == 0 {
        Map::empty()
    } else {
        pairs_to_map(s.drop_last()).insert(s.last().0, s.last().1)
    }
}

/// No two pairs share a name.
pub open spec fn distinct_names(s: Seq<(Seq<char>, Seq<char>)>) -> bool {
    forall|i: int, j: int| 0 <= i < j < s.len() ==> s[i].0 != s[j].0
}

proof fn lemma_pairs_to_map_contains(s: Seq<(Seq<char>, Seq<char>)>, k: Seq<char>)
    ensures
        pairs_to_map(s).contains_key(k) <==> (exists|i: int| 0 <= i < s.len() && s[i].0 == k),
    decreases s.len(),
{
    if s.len() > 0 {
        lemma_pairs_to_map_contains(s.drop_last(), k);
        if exists|i: int| 0 <= i < s.len() && s[i].0 == k {
            let i = choose|i: int| 0 <= i < s.len() && s[i].0 == k;
            if i < s.len() - 1 {
                assert(s.drop_last()[i].0 == k);
            }
        }
    }
}

proof fn lemma_pairs_to_map_value(s: Seq<(Seq<char>, Seq<char>)>, i: int)
    requires
        0 <= i < s.len(),
        forall|j: int| i < j < s.len() ==> s[j].0 != s[i].0,
    ensures
        pairs_to_map(s).contains_key(s[i].0),
        pairs_to_map(s)[s[i].0] == s[i].1,
    decreases s.len(),
{
    if i < s.len() - 1 {
        assert(forall|j: int| i < j < s.drop_last().len() ==> s.drop_last()[j].0 != s.drop_last()[i].0);
        lemma_pairs_to_map_value(s.drop_last(), i);
    }
}

proof fn lemma_pairs_to_map_update(s: Seq<(Seq<char>, Seq<char>)>, i: int, v: Seq<char>)
    requires
        distinct_names(s),
        0 <= i < s.len(),
    ensures
        pairs_to_map(s.update(i, (s[i].0, v))) == pairs_to_map(s).insert(s[i].0, v),
    decreases s.len(),
{
    let t = s.update(i, (s[i].0, v));
    if i == s.len() - 1 {
        assert(t.drop_last() =~= s.drop_last());
        assert(pairs_to_map(t) == pairs_to_map(s.drop_last()).insert(s[i].0, v));
        assert(pairs_to_map(s.drop_last()).insert(s.last().0, s.last().1).insert(s[i].0, v)
            =~= pairs_to_map(s.drop_last()).insert(s[i].0, v));
    } else {
        assert(distinct_names(s.drop_last()));
        lemma_pairs_to_map_update(s.drop_last(), i, v);
        assert(t.drop_last() =~= s.drop_last().update(i, (s[i].0, v)));
        assert(t.last() == s.last());
        assert(s.last().0 != s[i].0);
        assert(pairs_to_map(s.drop_last()).insert(s[i].0, v).insert(s.last().0, s.last().1)
            =~= pairs_to_map(s.drop_last()).insert(s.last().0, s.last().1).insert(s[i].0, v));
    }
}

/// The run's name-to-path mapping.
pub struct Catalog {
    entries: Vec<(String, String)>,
}

impl View for Catalog {
    type V = Map<Seq<char>, Seq<char>>;

    open spec fn view(&self) -> Map<Seq<char>, Seq<char>> {
        pairs_to_map(self.seq())
    }
}

impl Catalog {
    /// The catalog's entries in insertion order, as views.
    pub closed spec fn seq(&self) -> Seq<(Seq<char>, Seq<char>)> {
        self.entries@.map_values(|p: (String, String)| (p.0@, p.1@))
    }

    /// Well-formed: each name occurs at most once.
    pub closed spec fn wf(&self) -> bool {
        distinct_names(self.seq())
    }

    pub fn new() -> (r: Catalog)
        ensures
            r.wf(),
            r@ == Map::<Seq<char>, Seq<char>>::empty(),
            r.seq() == Seq::<(Seq<char>, Seq<char>)>::empty(),
    {
        let r = Catalog { entries: Vec::new() };
        proof {
            assert(r.seq() =~= Seq::<(Seq<char>, Seq<char>)>::empty());
        }
        r
    }

    pub fn len(&self) -> (r: usize)
        ensures
            r == self.seq().len(),
    {
        self.entries.len()
    }

    /// The entry at position `i`, as stored.
    pub fn entry_at(&self, i: usize) -> (r: &(String, String))
        requires
            i < self.seq().len(),
        ensures
            r.0@ == self.seq()[i as int].0,
            r.1@ == self.seq()[i as int].1,
    {
        &self.entries[i]
    }

    /// Index of the entry named `name`, if any.
    fn find(&self, name: &String) -> (r: Option<usize>)
        ensures
            match r {
                Some(i) => i < self.seq().len() && self.seq()[i as int].0 == name@,
                None => forall|k: int| 0 <= k < self.seq().len() ==> self.seq()[k].0 != name@,
            },
    {
        let mut i: usize = 0;
        while i < self.entries.len()
            invariant
                i <= self.entries.len(),
                forall|k: int| 0 <= k < i ==> self.seq()[k].0 != name@,
            decreases self.entries.len() - i,
        {
            let e = &self.entries[i];
            if e.0.eq(name) {
                return Some(i);
            }
            i = i + 1;
        }
        None
    }

    /// Adds an entry, the new path winning over any earlier one of the same
    /// name.
    pub fn insert(&mut self, name: String, path: String)
        requires
            old(self).wf(),
        ensures
            final(self).wf(),
            final(self)@ == old(self)@.insert(name@, path@),
    {
        let found = self.find(&name);
        match found {
            Some(i) => {
                proof {
                    lemma_pairs_to_map_update(self.seq(), i as int, path@);
                }
                let ghost s0 = self.seq();
                let ghost nv = name@;
                let ghost tv = path@;
                self.entries.set(i, (name, path));
                proof {
                    assert(self.seq() =~= s0.update(i as int, (s0[i as int].0, tv)));
                    let s1 = self.seq();
                    assert(forall|k: int| 0 <= k < s1.len() ==> s1[k].0 == s0[k].0);
                    assert(distinct_names(s1));
                }
            },
            None => {
                let ghost s0 = self.seq();
                let ghost nv = name@;
                let ghost tv = path@;
                self.entries.push((name, path));
                proof {
                    assert(self.seq() =~= s0.push((nv, tv)));
                    assert(self.seq().drop_last() =~= s0);
                    let s1 = self.seq();
                    assert(forall|k: int| 0 <= k < s0.len() ==> s1[k] == s0[k]);
                    assert(distinct_names(s1));
                }
            },
        }
    }

    /// Whether the catalog holds an entry named `name`.
    pub fn contains_name(&self, name: &String) -> (r: bool)
        ensures
            r == self@.contains_key(name@),
    {
        let found = self.find(name);
        proof {
            lemma_pairs_to_map_contains(self.seq(), name@);
        }
        match found {
            Some(_) => true,
            None => false,
        }
    }

    /// The path recorded for `name`, if any.
    pub fn get(&self, name: &String) -> (r: Option<&String>)
        requires
            self.wf(),
        ensures
            match r {
                Some(p) => self@.contains_key(name@) && p@ == self@[name@],
                None => !self@.contains_key(name@),
            },
    {
        let found = self.find(name);
        proof {
            lemma_pairs_to_map_contains(self.seq(), name@);
        }
        match found {
            Some(i) => {
                proof {
                    lemma_pairs_to_map_value(self.seq(), i as int);
                }
                Some(&self.entries[i].1)
            },
            None => None,
        }
    }

    /// Builds a catalog from (name, path) pairs, later pairs winning.
    pub fn from_pairs(pairs: Vec<(String, String)>) -> (r: Catalog)
        ensures
            r.wf(),
            r@ == pairs_to_map(pairs@.map_values(|p: (String, String)| (p.0@, p.1@))),
    {
        let ghost pv = pairs@.map_values(|p: (String, String)| (p.0@, p.1@));
        let mut r = Catalog::new();
        let mut i: usize = 0;
        while i < pairs.len()
            invariant
                i <= pairs.len(),
                pv == pairs@.map_values(|p: (String, String)| (p.0@, p.1@)),
                r.wf(),
                r@ == pairs_to_map(pv.take(i as int)),
            decreases pairs.len() - i,
        {
            let name = pairs[i].0.clone();
            let path = pairs[i].1.clone();
            r.insert(name, path);
            proof {
                assert(pv.take(i as int + 1).drop_last() =~= pv.take(i as int));
                assert(pv.take(i as int + 1).last() == pv[i as int]);
            }
            i = i + 1;
        }
        proof {
            assert(pv.take(pairs@.len() as int) =~= pv);
        }
        r
    }
}

} // verus!
