//! The atom cache: names interned on the X server and the atoms they got.
use vstd::prelude::*;

verus! {

/// The table maps `name` to `atom`.
pub open spec fn caches(e: Seq<(Seq<char>, u32)>, name: Seq<char>, atom: u32) -> bool {
    exists|k: int| 0 <= k < e.len() && e[k].0 == name && e[k].1 == atom
}

/// The table holds an entry for `name`.
pub open spec fn has_name(e: Seq<(Seq<char>, u32)>, name: Seq<char>) -> bool {
    exists|k: int| 0 <= k < e.len() && e[k].0 == name
}

/// Entry `k` is the first whose atom is `atom`.
pub open spec fn first_with_atom(e: Seq<(Seq<char>, u32)>, atom: u32, k: int) -> bool {
    0 <= k < e.len() && e[k].1 == atom && forall|j: int| 0 <= j < k ==> e[j].1 != atom
}

/// Forward and reverse lookup between atom names and atoms. Entries are
/// never evicted; a name has at most one entry.
pub struct AtomCache {
    entries: Vec<(String, u32)>,
}

impl View for AtomCache {
    type V = Seq<(Seq<char>, u32)>;

    closed spec fn view(&self) -> Seq<(Seq<char>, u32)> {
        self.entries@.map_values(|e: (String, u32)| (e.0@, e.1))
    }
}

impl AtomCache {
    pub open spec fn wf(&self) -> bool {
        forall|i: int, j: int| 0 <= i < j < self@.len() ==> self@[i].0 != self@[j].0
    }

    pub fn new() -> (r: AtomCache)
        ensures
            r.wf(),
            r@.len() == 0,
    {
        let r = AtomCache { entries: Vec::new() };
        assert(r@ =~= Seq::<(Seq<char>, u32)>::empty());
        r
    }

    /// The number of cached names.
    pub fn len(&self) -> (r: usize)
        ensures
            r == self@.len(),
    {
        self.entries.len()
    }

    /// The atom cached for `name`, if any.
    pub fn get(&self, name: &str) -> (r: Option<u32>)
        requires
            self.wf(),
        ensures
            r matches Some(a) ==> caches(self@, name@, a),
            r is None ==> !has_name(self@, name@),
    {
        let key = name.to_owned();
        let n = self.entries.len();
        let mut k: usize = 0;
        while k < n
            invariant
                n == self@.len(),
                k <= n,
                key@ == name@,
                forall|m: int| 0 <= m < k ==> self@[m].0 != name@,
            decreases n - k,
        {
            if self.entries[k].0.eq(&key) {
                assert(self@[k as int].0 == name@ && self@[k as int].1 == self.entries@[k as int].1);
                return Some(self.entries[k].1);
            }
            k = k + 1;
        }
        None
    }

    /// Caches `atom` as the atom of `name`, replacing an earlier entry for it.
    pub fn insert(&mut self, name: &str, atom: u32)
        requires
            old(self).wf(),
        ensures
            final(self).wf(),
            caches(final(self)@, name@, atom),
            forall|other: Seq<char>, a: u32|
                other != name@ ==> (caches(final(self)@, other, a) == caches(old(self)@, other, a)),
            forall|other: Seq<char>|
                other != name@ ==> (has_name(final(self)@, other) == has_name(old(self)@, other)),
    {
        let key = name.to_owned();
        let n = self.entries.len();
        let mut k: usize = 0;
        while k < n
            invariant
                n == self@.len(),
                k <= n,
                key@ == name@,
                self == old(self),
                self.wf(),
                forall|m: int| 0 <= m < k ==> self@[m].0 != name@,
            decreases n - k,
        {
            if self.entries[k].0.eq(&key) {
                let ghost before = self@;
                self.entries[k] = (key, atom);
                assert(self@ =~= before.update(k as int, (name@, atom)));
                assert(self@[k as int] == (name@, atom));
                assert(forall|x: int| 0 <= x < self@.len() ==> #[trigger] self@[x].0 == before[x].0);
                assert forall|i: int, j: int| 0 <= i < j < self@.len() implies self@[i].0
                    != self@[j].0 by {
                    assert(before[i].0 != before[j].0);
                }
                assert forall|other: Seq<char>, a: u32| other != name@ implies (caches(
                    self@,
                    other,
                    a,
                ) == caches(before, other, a)) by {
                    if caches(before, other, a) {
                        let j = choose|j: int|
                            0 <= j < before.len() && #[trigger] before[j].0 == other && before[j].1
                                == a;
                        assert(self@[j] == before[j]);
                    }
                    if caches(self@, other, a) {
                        let j = choose|j: int|
                            0 <= j < self@.len() && #[trigger] self@[j].0 == other && self@[j].1
                                == a;
                        assert(self@[j] == before[j]);
                    }
                }
                assert forall|other: Seq<char>| other != name@ implies (has_name(self@, other)
                    == has_name(before, other)) by {
                    if has_name(before, other) {
                        let j = choose|j: int| 0 <= j < before.len() && #[trigger] before[j].0 == other;
                        assert(self@[j] == before[j]);
                    }
                    if has_name(self@, other) {
                        let j = choose|j: int| 0 <= j < self@.len() && #[trigger] self@[j].0 == other;
                        assert(self@[j] == before[j]);
                    }
                }
                return ;
            }
            k = k + 1;
        }
        let ghost before = self@;
        self.entries.push((key, atom));
        assert(self@ =~= before.push((name@, atom)));
        assert(self@[n as int] == (name@, atom));
        assert forall|other: Seq<char>, a: u32| other != name@ implies (caches(self@, other, a)
            == caches(before, other, a)) by {
            if caches(before, other, a) {
                let j = choose|j: int|
                    0 <= j < before.len() && #[trigger] before[j].0 == other && before[j].1 == a;
                assert(self@[j] == before[j]);
            }
        }
        assert forall|other: Seq<char>| other != name@ implies (has_name(self@, other) == has_name(
            before,
            other,
        )) by {
            if has_name(before, other) {
                let j = choose|j: int| 0 <= j < before.len() && #[trigger] before[j].0 == other;
                assert(self@[j] == before[j]);
            }
        }
    }

    /// The name of `atom`: that of the first entry holding it, if any.
    pub fn name_of(&self, atom: u32) -> (r: Option<String>)
        ensures
            r matches Some(s) ==> exists|k: int| first_with_atom(self@, atom, k) && self@[k].0 == s@,
            r is None ==> forall|k: int| 0 <= k < self@.len() ==> self@[k].1 != atom,
    {
        let n = self.entries.len();
        let mut k: usize = 0;
        while k < n
            invariant
                n == self@.len(),
                k <= n,
                forall|m: int| 0 <= m < k ==> self@[m].1 != atom,
            decreases n - k,
        {
            if self.entries[k].1 == atom {
                let s = self.entries[k].0.clone();
                assert(first_with_atom(self@, atom, k as int));
                return Some(s);
            }
            k = k + 1;
        }
        None
    }
}

} // verus!
