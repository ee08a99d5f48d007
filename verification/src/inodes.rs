//! The numbers by which a filesystem's client knows its files.

use std::collections::HashMap;
use vstd::prelude::*;
use vstd::hash_map::StringHashMap;
use crate::text;

verus! {

broadcast use vstd::std_specs::hash::group_hash_axioms;

/// The number of the view itself.
pub const ROOT_INO: u64 = 1;

/// Paths with the numbers they were given: every number below the next one is
/// given to one path, and every path has at most one number.
pub struct InoTable {
    next: u64,
    by_ino: HashMap<u64, String>,
    by_path: StringHashMap<u64>,
}

impl InoTable {
    /// The path that has this number.
    pub closed spec fn path(&self, ino: u64) -> Option<Seq<char>> {
        if self.by_ino@.contains_key(ino) {
            Some(self.by_ino@[ino]@)
        } else {
            None
        }
    }

    /// The number of this path.
    pub closed spec fn ino(&self, path: Seq<char>) -> Option<u64> {
        if self.by_path@.contains_key(path) {
            Some(self.by_path@[path])
        } else {
            None
        }
    }

    /// The number that the next new path is given.
    pub closed spec fn next_ino(&self) -> u64 {
        self.next
    }

    /// The numbers below the next one are given, each to one path.
    pub closed spec fn wf(&self) -> bool {
        &&& self.next > ROOT_INO
        &&& forall|i: u64|
            #[trigger] self.by_ino@.contains_key(i) <==> ROOT_INO <= i < self.next
        &&& forall|i: u64| #[trigger]
            self.by_ino@.contains_key(i) ==> self.by_path@.contains_key(self.by_ino@[i]@)
                && self.by_path@[self.by_ino@[i]@] == i
        &&& forall|p: Seq<char>| #[trigger]
            self.by_path@.contains_key(p) ==> self.by_ino@.contains_key(self.by_path@[p])
                && self.by_ino@[self.by_path@[p]]@ == p
        &&& self.by_path@.contains_key(Seq::<char>::empty())
        &&& self.by_path@[Seq::<char>::empty()] == ROOT_INO
    }

    /// A table that knows the view itself, under the empty path.
    pub fn new() -> (r: InoTable)
        ensures
            r.wf(),
            r.next_ino() == 2,
            r.path(1) == Some(Seq::<char>::empty()),
            r.ino(Seq::<char>::empty()) == Some(1u64),
            forall|i: u64| #[trigger] r.path(i) == if i == ROOT_INO {
                Some(Seq::<char>::empty())
            } else {
                None
            },
            forall|p: Seq<char>| #[trigger] r.ino(p) == if p.len() == 0 {
                Some(ROOT_INO)
            } else {
                None
            },
    {
        let mut by_ino: HashMap<u64, String> = HashMap::new();
        let mut by_path: StringHashMap<u64> = StringHashMap::new();
        let empty = String::new();
        assert(empty@ =~= Seq::<char>::empty());
        by_ino.insert(ROOT_INO, empty);
        by_path.insert(String::new(), ROOT_INO);
        let r = InoTable { next: 2, by_ino, by_path };
        assert forall|p: Seq<char>| #[trigger] r.by_path@.contains_key(p) <==> p.len() == 0 by {
            if p.len() == 0 {
                assert(p =~= Seq::<char>::empty());
            }
        }
        assert forall|p: Seq<char>| #[trigger] r.ino(p) == if p.len() == 0 {
            Some(ROOT_INO)
        } else {
            None
        } by {
            assert(r.by_path@.contains_key(p) <==> p.len() == 0);
        }
        assert forall|p: Seq<char>| #[trigger]
            r.by_path@.contains_key(p) implies r.by_ino@.contains_key(r.by_path@[p])
            && r.by_ino@[r.by_path@[p]]@ == p by {
            assert(p =~= Seq::<char>::empty());
        }
        r
    }

    /// The number of a path.
    pub fn ino_of(&self, rel: &str) -> (r: Option<u64>)
        ensures
            r == self.ino(rel@),
    {
        match self.by_path.get(rel) {
            Some(i) => Some(*i),
            None => None,
        }
    }

    /// The path that has this number.
    pub fn path_of(&self, ino: u64) -> (r: Option<String>)
        ensures
            text::opt_text(r) == self.path(ino),
    {
        match self.by_ino.get(&ino) {
            Some(p) => Some(p.clone()),
            None => None,
        }
    }

    /// The number of a path; a new one if it has none.
    pub fn assign(&mut self, rel: &str) -> (r: u64)
        requires
            old(self).wf(),
            old(self).next_ino() < u64::MAX,
        ensures
            final(self).wf(),
            final(self).ino(rel@) == Some(r),
            final(self).path(r) == Some(rel@),
            old(self).ino(rel@) is Some ==> r == old(self).ino(rel@)->0 && *final(self) == *old(self),
            old(self).ino(rel@) is None ==> r == old(self).next_ino() && final(self).next_ino() == r
                + 1,
            forall|i: u64| i != r ==> #[trigger] final(self).path(i) == old(self).path(i),
            forall|p: Seq<char>| p != rel@ ==> #[trigger] final(self).ino(p) == old(self).ino(p),
    {
        if let Some(i) = self.by_path.get(rel) {
            return *i;
        }
        let ino: u64 = self.next;
        let ghost before = *self;
        self.next = self.next + 1;
        self.by_ino.insert(ino, rel.to_owned());
        self.by_path.insert(rel.to_owned(), ino);
        assert(self.by_ino@[ino]@ == rel@);
        assert(!before.by_ino@.contains_key(ino));
        assert forall|i: u64| #[trigger] self.by_ino@.contains_key(i) implies self.by_path@.contains_key(
            self.by_ino@[i]@,
        ) && self.by_path@[self.by_ino@[i]@] == i by {
            if i != ino {
                assert(before.by_ino@.contains_key(i));
                assert(self.by_ino@[i] == before.by_ino@[i]);
                assert(before.by_path@.contains_key(before.by_ino@[i]@));
            }
        }
        assert forall|p: Seq<char>| #[trigger] self.by_path@.contains_key(p) implies self.by_ino@.contains_key(
            self.by_path@[p],
        ) && self.by_ino@[self.by_path@[p]]@ == p by {
            if p != rel@ {
                assert(before.by_path@.contains_key(p));
                assert(before.by_ino@.contains_key(before.by_path@[p]));
            }
        }
        assert(before.by_path@.contains_key(Seq::<char>::empty()));
        ino
    }
}

/// Numbers and paths correspond one to one: the path of a path's number is that
/// path, the number of a number's path is that number, and the view itself has
/// the first one.
pub proof fn law_numbers_are_unique(t: InoTable, ino: u64, p: Seq<char>)
    requires
        t.wf(),
    ensures
        t.ino(p) == Some(ino) <==> t.path(ino) == Some(p),
        t.ino(Seq::<char>::empty()) == Some(1u64),
        t.path(ino) is Some <==> 1 <= ino < t.next_ino(),
{
    if t.ino(p) == Some(ino) {
        assert(t.by_path@.contains_key(p));
    }
    if t.path(ino) == Some(p) {
        assert(t.by_ino@.contains_key(ino));
    }
}

} // verus!
