//! Bitmask-encoded condition tables.
//!
//! An [`Expression`] maps condition atoms (strings such as `facing=north`) to
//! power-of-two bits, assigned on first sight, and maps exact bitmasks to
//! values. Lookup is exact-mask equality: the mask of an environment is the
//! OR of the bits of its atoms that the table knows.

use vstd::prelude::*;

verus! {

/// The mask with the `n` lowest bits set: the set of bits handed out after
/// `n` distinct atoms were registered.
pub open spec fn low_mask(n: int) -> u64 {
    if n >= 64 {
        u64::MAX
    } else if n <= 0 {
        0u64
    } else {
        ((1u64 << (n as u64)) - 1) as u64
    }
}

proof fn lemma_mask_step(len: u64)
    requires
        len < 64,
    ensures
        low_mask(len as int) != u64::MAX,
        low_mask(len as int) + 1 == (1u64 << len),
        ((1u64 << len) | low_mask(len as int)) == low_mask(len as int + 1),
{
    if len == 0 {
        assert((1u64 << 0u64) == 1u64) by (bit_vector);
        assert(((1u64 << 0u64) | 0u64) == ((1u64 << 1u64) - 1) as u64) by (bit_vector);
    } else if len == 63 {
        assert(((1u64 << 63u64) - 1) as u64 != u64::MAX) by (bit_vector);
        assert(((1u64 << 63u64) - 1) as u64 + 1 == (1u64 << 63u64)) by (bit_vector);
        assert(((1u64 << 63u64) | (((1u64 << 63u64) - 1) as u64)) == u64::MAX) by (bit_vector);
    } else {
        assert(((1u64 << len) - 1) as u64 != u64::MAX) by (bit_vector)
            requires
                0 < len < 63,
        ;
        assert(((1u64 << len) - 1) as u64 + 1 == (1u64 << len)) by (bit_vector)
            requires
                0 < len < 63,
        ;
        assert(((1u64 << len) | (((1u64 << len) - 1) as u64)) == ((1u64 << ((len + 1) as u64)) - 1)
            as u64) by (bit_vector)
            requires
                0 < len < 63,
        ;
    }
}

/// A bit handed out for one of the first `len` atoms lies inside `low_mask(len)`.
proof fn lemma_bit_subset(i: u64, len: u64)
    requires
        i < len,
        len <= 64,
    ensures
        ((1u64 << i) | low_mask(len as int)) == low_mask(len as int),
{
    if len == 64 {
        assert(((1u64 << i) | u64::MAX) == u64::MAX) by (bit_vector);
    } else {
        assert(((1u64 << i) | (((1u64 << len) - 1) as u64)) == ((1u64 << len) - 1) as u64)
            by (bit_vector)
            requires
                i < len < 64,
        ;
    }
}

/// The OR of two masks inside `c` stays inside `c`.
proof fn lemma_or_subset(a: u64, b: u64, c: u64)
    requires
        (a | c) == c,
        (b | c) == c,
    ensures
        ((a | b) | c) == c,
        (c & (a | b)) == (a | b),
{
    assert((((a | b) | c) == c) && ((c & (a | b)) == (a | b))) by (bit_vector)
        requires
            (a | c) == c,
            (b | c) == c,
    ;
}

/// Whether the key table `ks` knows the atom `name`.
pub open spec fn seq_has_key(ks: Seq<(Seq<char>, u64)>, name: Seq<char>) -> bool {
    exists|i: int| 0 <= i < ks.len() && (#[trigger] ks[i]).0 == name
}

/// The bit the key table `ks` assigned to the atom `name`.
pub open spec fn seq_key_bit(ks: Seq<(Seq<char>, u64)>, name: Seq<char>) -> u64 {
    let i = choose|i: int| 0 <= i < ks.len() && (#[trigger] ks[i]).0 == name;
    ks[i].1
}

/// The key table and accumulated mask after registering the first `n` atoms
/// of `atoms` into the state `(ks, m)`, or `None` once a new atom no longer
/// fits in the mask width.
pub open spec fn add_atoms(
    ks: Seq<(Seq<char>, u64)>,
    m: u64,
    atoms: Seq<Seq<char>>,
    n: int,
) -> Option<(Seq<(Seq<char>, u64)>, u64)>
    decreases n,
{
    if n <= 0 {
        Some((ks, m))
    } else {
        match add_atoms(ks, m, atoms, n - 1) {
            None => None,
            Some((ks1, m1)) => {
                let a = atoms[n - 1];
                if seq_has_key(ks1, a) {
                    Some((ks1, m1 | seq_key_bit(ks1, a)))
                } else if ks1.len() >= 64 {
                    None
                } else {
                    Some((ks1.push((a, 1u64 << (ks1.len() as u64))), m1 | (1u64 << (ks1.len()
                        as u64))))
                }
            },
        }
    }
}

/// A condition-to-value table keyed by exact bitmasks.
pub struct Expression<V> {
    /// Condition atoms and the power-of-two bit assigned to each.
    pub keys: Vec<(String, u64)>,
    /// Values stored under exact bitmasks.
    pub values: Vec<(u64, V)>,
    /// The OR of every bit handed out so far.
    pub mask: u64,
}

impl<V> Expression<V> {
    /// The key table as a sequence of (atom, bit) pairs.
    pub open spec fn keys_dv(self) -> Seq<(Seq<char>, u64)> {
        Seq::new(self.keys@.len(), |i: int| (self.keys@[i].0@, self.keys@[i].1))
    }

    /// Structural invariant: bits are assigned in order of first sight, atom
    /// names are distinct, and `mask` covers exactly the assigned bits.
    pub open spec fn wf(self) -> bool {
        &&& self.keys@.len() <= 64
        &&& (forall|i: int|
            0 <= i < self.keys@.len() ==> (#[trigger] self.keys@[i]).1 == (1u64 << (i as u64)))
        &&& (forall|i: int, j: int|
            0 <= i < j < self.keys@.len() ==> (#[trigger] self.keys@[i]).0@ != (
            #[trigger] self.keys@[j]).0@)
        &&& self.mask == low_mask(self.keys@.len() as int)
        &&& (forall|i: int, j: int|
            0 <= i < j < self.values@.len() ==> (#[trigger] self.values@[i]).0 != (
            #[trigger] self.values@[j]).0)
    }

    /// Whether the atom `name` has been registered.
    pub open spec fn spec_has_key(self, name: Seq<char>) -> bool {
        seq_has_key(self.keys_dv(), name)
    }

    /// The bit assigned to the registered atom `name`.
    pub open spec fn spec_key_bit(self, name: Seq<char>) -> u64 {
        seq_key_bit(self.keys_dv(), name)
    }

    /// The mask of the first `n` atoms of `env`: the OR of the bits of those
    /// the table knows; unknown atoms contribute zero.
    pub open spec fn spec_env_mask_n(self, env: Seq<Seq<char>>, n: int) -> u64
        decreases n,
    {
        if n <= 0 {
            0u64
        } else {
            let prev = self.spec_env_mask_n(env, n - 1);
            if self.spec_has_key(env[n - 1]) {
                prev | self.spec_key_bit(env[n - 1])
            } else {
                prev
            }
        }
    }

    /// The mask of an environment.
    pub open spec fn spec_env_mask(self, env: Seq<Seq<char>>) -> u64 {
        self.spec_env_mask_n(env, env.len() as int)
    }

    /// Whether every atom of `env` is registered.
    pub open spec fn spec_all_known(self, env: Seq<Seq<char>>) -> bool {
        forall|i: int| 0 <= i < env.len() ==> self.spec_has_key(#[trigger] env[i])
    }

    /// Whether a value is stored under the exact mask `m`.
    pub open spec fn spec_mask_has_value(self, m: u64) -> bool {
        exists|i: int| 0 <= i < self.values@.len() && (#[trigger] self.values@[i]).0 == m
    }

    /// The position of the value stored under the exact mask `m`.
    pub open spec fn spec_value_idx(self, m: u64) -> int {
        choose|i: int| 0 <= i < self.values@.len() && (#[trigger] self.values@[i]).0 == m
    }

    /// The value stored under the exact mask `m`.
    pub open spec fn spec_value_at(self, m: u64) -> V {
        self.values@[self.spec_value_idx(m)].1
    }

    /// What a lookup of `env` returns: `None` under `strict` when an atom is
    /// unknown, else the value stored under the exact mask of `env`.
    pub open spec fn spec_get(self, env: Seq<Seq<char>>, strict: bool) -> Option<V> {
        if strict && !self.spec_all_known(env) {
            None
        } else if self.spec_mask_has_value(self.spec_env_mask(env)) {
            Some(self.spec_value_at(self.spec_env_mask(env)))
        } else {
            None
        }
    }
}

impl<V> Default for Expression<V> {
    /// The empty table: no atoms, no values, no bits handed out.
    fn default() -> (r: Self)
        ensures
            r.wf(),
            r.keys@.len() == 0,
            r.values@.len() == 0,
            r.mask == 0u64,
    {
        Expression { keys: Vec::new(), values: Vec::new(), mask: 0u64 }
    }
}

impl<V> Expression<V> {
    /// The mask that a condition accumulation starts from: no atoms yet.
    pub fn get_initial_link(&self) -> (r: u64)
        ensures
            r == 0u64,
    {
        0u64
    }

    /// How many atoms and how many values the table holds.
    pub fn size(&self) -> (r: (usize, usize))
        ensures
            r.0 == self.keys@.len(),
            r.1 == self.values@.len(),
    {
        (self.keys.len(), self.values.len())
    }

    /// Position of the atom `k` in the key table, if registered.
    fn find_key(&self, k: &String) -> (r: Option<usize>)
        requires
            self.wf(),
        ensures
            match r {
                Some(i) => {
                    &&& i < self.keys@.len()
                    &&& self.keys@[i as int].0@ == k@
                    &&& self.spec_has_key(k@)
                    &&& self.spec_key_bit(k@) == self.keys@[i as int].1
                },
                None => !self.spec_has_key(k@),
            },
    {
        let mut i: usize = 0;
        while i < self.keys.len()
            invariant
                self.wf(),
                i <= self.keys@.len(),
                forall|j: int| 0 <= j < i ==> (#[trigger] self.keys@[j]).0@ != k@,
            decreases self.keys@.len() - i,
        {
            if self.keys[i].0 == *k {
                proof {
                    let w = choose|w: int|
                        0 <= w < self.keys_dv().len() && (#[trigger] self.keys_dv()[w]).0 == k@;
                    assert(self.keys_dv()[i as int].0 == k@);
                    assert(seq_has_key(self.keys_dv(), k@));
                    if w != i {
                        assert(self.keys@[w].0@ == self.keys@[i as int].0@);
                    }
                }
                return Some(i);
            }
            i += 1;
        }
        proof {
            assert forall|w: int| 0 <= w < self.keys_dv().len() implies (
            #[trigger] self.keys_dv()[w]).0 != k@ by {
                assert(self.keys@[w].0@ != k@);
            }
        }
        None
    }

    /// Position of the value stored under the exact mask `m`, if any.
    fn find_value(&self, m: u64) -> (r: Option<usize>)
        requires
            self.wf(),
        ensures
            match r {
                Some(i) => {
                    &&& i < self.values@.len()
                    &&& self.values@[i as int].0 == m
                    &&& self.spec_mask_has_value(m)
                    &&& self.spec_value_idx(m) == i
                },
                None => !self.spec_mask_has_value(m),
            },
    {
        let mut i: usize = 0;
        while i < self.values.len()
            invariant
                self.wf(),
                i <= self.values@.len(),
                forall|j: int| 0 <= j < i ==> (#[trigger] self.values@[j]).0 != m,
            decreases self.values@.len() - i,
        {
            if self.values[i].0 == m {
                proof {
                    let w = choose|w: int|
                        0 <= w < self.values@.len() && (#[trigger] self.values@[w]).0 == m;
                    if w != i {
                        assert(self.values@[w].0 == self.values@[i as int].0);
                    }
                }
                return Some(i);
            }
            i += 1;
        }
        None
    }
}

impl<V> Expression<V> {
    /// Any position holding mask `m` is the position `spec_value_idx` names,
    /// and the value there is `spec_value_at(m)`.
    pub proof fn lemma_value_lookup(self, m: u64, i: int)
        requires
            self.wf(),
            0 <= i < self.values@.len(),
            self.values@[i].0 == m,
        ensures
            self.spec_mask_has_value(m),
            self.spec_value_idx(m) == i,
            self.spec_value_at(m) == self.values@[i].1,
    {
        let w = choose|w: int| 0 <= w < self.values@.len() && (#[trigger] self.values@[w]).0 == m;
        if w != i {
            assert(self.values@[w].0 == self.values@[i].0);
        }
    }

    /// Registers the atom `k`, reusing its bit when it is already known and
    /// handing out the next free bit otherwise, and ORs that bit into `m`.
    /// Returns `None`, changing nothing, once all mask bits are used.
    /// Registering an already-known atom never changes the table.
    pub fn insert_key(&mut self, k: &String, m: &mut u64) -> (r: Option<u64>)
        requires
            old(self).wf(),
        ensures
            final(self).wf(),
            final(self).values@ == old(self).values@,
            match r {
                Some(bit) => {
                    &&& *final(m) == (*old(m) | bit)
                    &&& final(self).spec_has_key(k@)
                    &&& final(self).spec_key_bit(k@) == bit
                    &&& if old(self).spec_has_key(k@) {
                        &&& bit == old(self).spec_key_bit(k@)
                        &&& *final(self) == *old(self)
                    } else {
                        &&& old(self).keys@.len() < 64
                        &&& bit == (1u64 << (old(self).keys@.len() as u64))
                        &&& final(self).keys_dv() == old(self).keys_dv().push((k@, bit))
                        &&& final(self).keys@.len() == old(self).keys@.len() + 1
                    }
                },
                None => {
                    &&& *final(self) == *old(self)
                    &&& *final(m) == *old(m)
                    &&& !old(self).spec_has_key(k@)
                    &&& old(self).keys@.len() == 64
                },
            },
    {
        match self.find_key(k) {
            Some(i) => {
                let n = self.keys[i].1;
                *m = *m | n;
                Some(n)
            },
            None => {
                if self.mask == u64::MAX {
                    proof {
                        if self.keys@.len() < 64 {
                            lemma_mask_step(self.keys@.len() as u64);
                        }
                    }
                    return None;
                }
                proof {
                    if self.keys@.len() == 64 {
                        assert(self.mask == u64::MAX);
                    }
                    lemma_mask_step(self.keys@.len() as u64);
                }
                let n = self.mask + 1;
                self.mask = n | self.mask;
                self.keys.push((k.clone(), n));
                *m = *m | n;
                proof {
                    let dv = self.keys_dv();
                    let len = dv.len() as int;
                    assert(dv =~= old(self).keys_dv().push((k@, n)));
                    assert(dv[len - 1].0 == k@);
                    assert(seq_has_key(dv, k@));
                    let w = choose|w: int| 0 <= w < dv.len() && (#[trigger] dv[w]).0 == k@;
                    if w != len - 1 {
                        assert(old(self).keys_dv()[w].0 == k@);
                        assert(seq_has_key(old(self).keys_dv(), k@));
                    }
                    assert forall|j: int| 0 <= j < self.keys@.len() implies (
                    #[trigger] self.keys@[j]).1 == (1u64 << (j as u64)) by {
                        if j < len - 1 {
                            assert(self.keys@[j] == old(self).keys@[j]);
                        } else {
                            assert(self.keys@[j].1 == n);
                        }
                    }
                    assert forall|i: int, j: int| 0 <= i < j < self.keys@.len() implies (
                    #[trigger] self.keys@[i]).0@ != (#[trigger] self.keys@[j]).0@ by {
                        if j == len - 1 {
                            assert(self.keys@[j].0@ == k@);
                            if old(self).keys@[i].0@ == k@ {
                                assert(old(self).keys_dv()[i].0 == k@);
                                assert(seq_has_key(old(self).keys_dv(), k@));
                            }
                        } else {
                            assert(self.keys@[i] == old(self).keys@[i]);
                            assert(self.keys@[j] == old(self).keys@[j]);
                        }
                    }
                }
                Some(n)
            },
        }
    }

    /// Stores `v` under the exact mask `m`, returning the value previously
    /// stored there, if any. The mask is not checked against the known bits.
    pub fn insert_value_unchecked(&mut self, m: u64, v: V) -> (r: Option<V>)
        requires
            old(self).wf(),
        ensures
            final(self).wf(),
            final(self).keys@ == old(self).keys@,
            final(self).mask == old(self).mask,
            final(self).spec_mask_has_value(m),
            final(self).spec_value_at(m) == v,
            forall|m2: u64|
                m2 != m ==> final(self).spec_mask_has_value(m2) == old(self).spec_mask_has_value(
                    m2,
                ),
            forall|m2: u64|
                m2 != m && old(self).spec_mask_has_value(m2) ==> final(self).spec_value_at(m2)
                    == old(self).spec_value_at(m2),
            match r {
                Some(prev) => {
                    &&& old(self).spec_mask_has_value(m)
                    &&& prev == old(self).spec_value_at(m)
                    &&& final(self).values@ == old(self).values@.update(
                        old(self).spec_value_idx(m),
                        (m, v),
                    )
                },
                None => {
                    &&& !old(self).spec_mask_has_value(m)
                    &&& final(self).values@ == old(self).values@.push((m, v))
                },
            },
    {
        match self.find_value(m) {
            Some(i) => {
                self.values.push((m, v));
                let pair = self.values.swap_remove(i);
                proof {
                    assert(self.values@ =~= old(self).values@.update(i as int, (m, v)));
                    self.lemma_value_lookup(m, i as int);
                    assert forall|m2: u64| m2 != m implies final(self).spec_mask_has_value(m2)
                        == old(self).spec_mask_has_value(m2) by {
                        if old(self).spec_mask_has_value(m2) {
                            let w = old(self).spec_value_idx(m2);
                            assert(self.values@[w].0 == m2);
                        }
                        if self.spec_mask_has_value(m2) {
                            let w = self.spec_value_idx(m2);
                            assert(old(self).values@[w].0 == m2);
                        }
                    }
                    assert forall|m2: u64|
                        m2 != m && old(self).spec_mask_has_value(m2) implies final(self).spec_value_at(m2) == old(self).spec_value_at(m2) by {
                        let w = old(self).spec_value_idx(m2);
                        assert(self.values@[w].0 == m2);
                        self.lemma_value_lookup(m2, w);
                    }
                }
                Some(pair.1)
            },
            None => {
                self.values.push((m, v));
                proof {
                    let len = old(self).values@.len() as int;
                    self.lemma_value_lookup(m, len);
                    assert forall|m2: u64| m2 != m implies final(self).spec_mask_has_value(m2)
                        == old(self).spec_mask_has_value(m2) by {
                        if old(self).spec_mask_has_value(m2) {
                            let w = old(self).spec_value_idx(m2);
                            assert(self.values@[w].0 == m2);
                        }
                        if self.spec_mask_has_value(m2) {
                            let w = self.spec_value_idx(m2);
                            assert(w != len);
                            assert(old(self).values@[w].0 == m2);
                        }
                    }
                    assert forall|m2: u64|
                        m2 != m && old(self).spec_mask_has_value(m2) implies final(self).spec_value_at(m2) == old(self).spec_value_at(m2) by {
                        let w = old(self).spec_value_idx(m2);
                        assert(self.values@[w].0 == m2);
                        self.lemma_value_lookup(m2, w);
                    }
                }
                None
            },
        }
    }

    /// Registers every atom of `key`, accumulating their bits into a mask.
    /// Returns `None` when an atom no longer fits in the mask width; atoms
    /// registered before the failing one stay registered. Values are never
    /// touched.
    pub fn insert_atoms(&mut self, key: &Vec<String>) -> (r: Option<u64>)
        requires
            old(self).wf(),
        ensures
            final(self).wf(),
            final(self).values@ == old(self).values@,
            match r {
                Some(mm) => add_atoms(old(self).keys_dv(), 0u64, key.deep_view(), key@.len()
                    as int) == Some((final(self).keys_dv(), mm)),
                None => add_atoms(old(self).keys_dv(), 0u64, key.deep_view(), key@.len() as int)
                    is None,
            },
    {
        let ghost atoms = key.deep_view();
        let mut m: u64 = self.get_initial_link();
        let mut i: usize = 0;
        while i < key.len()
            invariant
                self.wf(),
                i <= key@.len(),
                atoms == key.deep_view(),
                atoms.len() == key@.len(),
                self.values@ == old(self).values@,
                add_atoms(old(self).keys_dv(), 0u64, atoms, i as int) == Some(
                    (self.keys_dv(), m),
                ),
            decreases key@.len() - i,
        {
            assert(atoms[i as int] == key@[i as int]@);
            let r = self.insert_key(&key[i], &mut m);
            if r.is_none() {
                proof {
                    assert(add_atoms(old(self).keys_dv(), 0u64, atoms, i as int + 1) is None);
                    lemma_add_atoms_none_mono(old(self).keys_dv(), 0u64, atoms, i as int + 1,
                        key@.len() as int);
                }
                return None;
            }
            i += 1;
        }
        Some(m)
    }

    /// Registers every atom of `key` and stores `value` under the exact mask
    /// of their combined bits, silently overwriting a value already there.
    /// Returns the mask, or `None` when an atom no longer fits in the mask
    /// width; atoms registered before the failing one stay registered and no
    /// value is stored.
    pub fn insert(&mut self, key: &Vec<String>, value: V) -> (r: Option<u64>)
        requires
            old(self).wf(),
        ensures
            final(self).wf(),
            match r {
                Some(mm) => {
                    &&& add_atoms(old(self).keys_dv(), 0u64, key.deep_view(), key@.len() as int)
                        == Some((final(self).keys_dv(), mm))
                    &&& final(self).spec_mask_has_value(mm)
                    &&& final(self).spec_value_at(mm) == value
                    &&& (forall|m2: u64|
                        m2 != mm ==> final(self).spec_mask_has_value(m2) == old(self).spec_mask_has_value(m2))
                    &&& (forall|m2: u64|
                        m2 != mm && old(self).spec_mask_has_value(m2) ==> final(self).spec_value_at(m2) == old(self).spec_value_at(m2))
                    &&& if old(self).spec_mask_has_value(mm) {
                        final(self).values@ == old(self).values@.update(
                            old(self).spec_value_idx(mm),
                            (mm, value),
                        )
                    } else {
                        final(self).values@ == old(self).values@.push((mm, value))
                    }
                },
                None => {
                    &&& add_atoms(old(self).keys_dv(), 0u64, key.deep_view(), key@.len() as int)
                        is None
                    &&& final(self).values@ == old(self).values@
                },
            },
    {
        let ghost atoms = key.deep_view();
        let mut m: u64 = self.get_initial_link();
        let mut i: usize = 0;
        while i < key.len()
            invariant
                self.wf(),
                i <= key@.len(),
                atoms == key.deep_view(),
                atoms.len() == key@.len(),
                self.values@ == old(self).values@,
                add_atoms(old(self).keys_dv(), 0u64, atoms, i as int) == Some(
                    (self.keys_dv(), m),
                ),
            decreases key@.len() - i,
        {
            assert(atoms[i as int] == key@[i as int]@);
            let r = self.insert_key(&key[i], &mut m);
            if r.is_none() {
                proof {
                    assert(add_atoms(old(self).keys_dv(), 0u64, atoms, i as int + 1) is None);
                    lemma_add_atoms_none_mono(old(self).keys_dv(), 0u64, atoms, i as int + 1,
                        key@.len() as int);
                }
                return None;
            }
            i += 1;
        }
        let mm = m;
        self.insert_value_unchecked(mm, value);
        Some(mm)
    }
}

/// A registered atom stays registered when the table grows.
pub proof fn lemma_seq_has_key_push(ks: Seq<(Seq<char>, u64)>, x: (Seq<char>, u64), name: Seq<char>)
    requires
        seq_has_key(ks, name),
    ensures
        seq_has_key(ks.push(x), name),
{
    let w = choose|w: int| 0 <= w < ks.len() && (#[trigger] ks[w]).0 == name;
    assert(ks.push(x)[w] == ks[w]);
}

/// Any position holding the atom `name` is the one `seq_key_bit` reads,
/// when atom names are distinct.
pub proof fn lemma_key_lookup(ks: Seq<(Seq<char>, u64)>, name: Seq<char>, i: int)
    requires
        0 <= i < ks.len(),
        ks[i].0 == name,
        forall|a: int, b: int|
            0 <= a < b < ks.len() ==> (#[trigger] ks[a]).0 != (#[trigger] ks[b]).0,
    ensures
        seq_has_key(ks, name),
        seq_key_bit(ks, name) == ks[i].1,
{
    assert(seq_has_key(ks, name));
    let w = choose|w: int| 0 <= w < ks.len() && (#[trigger] ks[w]).0 == name;
    if w != i {
        if w < i {
            assert(ks[w].0 != ks[i].0);
        } else {
            assert(ks[i].0 != ks[w].0);
        }
        assert(false);
    }
}

/// A well-formed table's key table has distinct atom names.
pub proof fn lemma_wf_dv_distinct<V>(e: Expression<V>)
    requires
        e.wf(),
    ensures
        forall|x: int, y: int|
            0 <= x < y < e.keys_dv().len() ==> (#[trigger] e.keys_dv()[x]).0 != (
            #[trigger] e.keys_dv()[y]).0,
{
    assert forall|x: int, y: int|
        0 <= x < y < e.keys_dv().len() implies (#[trigger] e.keys_dv()[x]).0 != (
    #[trigger] e.keys_dv()[y]).0 by {
        assert(e.keys@[x].0@ != e.keys@[y].0@);
    }
}

/// A registered atom stays registered in any key table that extends this
/// one entry for entry.
pub proof fn lemma_seq_has_key_prefix(
    ks1: Seq<(Seq<char>, u64)>,
    ks2: Seq<(Seq<char>, u64)>,
    name: Seq<char>,
)
    requires
        ks1.len() <= ks2.len(),
        forall|i: int| 0 <= i < ks1.len() ==> #[trigger] ks2[i] == ks1[i],
        seq_has_key(ks1, name),
    ensures
        seq_has_key(ks2, name),
{
    let w = choose|w: int| 0 <= w < ks1.len() && (#[trigger] ks1[w]).0 == name;
    assert(ks2[w] == ks1[w]);
}

/// Once atom registration has failed for a prefix, it has failed for the
/// whole sequence.
pub proof fn lemma_add_atoms_none_mono(ks: Seq<(Seq<char>, u64)>, m: u64, atoms: Seq<Seq<char>>, n: int, n2: int)
    requires
        add_atoms(ks, m, atoms, n) is None,
        n <= n2,
    ensures
        add_atoms(ks, m, atoms, n2) is None,
    decreases n2 - n,
{
    if n < n2 {
        lemma_add_atoms_none_mono(ks, m, atoms, n, n2 - 1);
    }
}

proof fn lemma_or_zero(c: u64)
    ensures
        (0u64 | c) == c,
        (c & 0u64) == 0u64,
{
    assert(((0u64 | c) == c) && ((c & 0u64) == 0u64)) by (bit_vector);
}

impl<V> Expression<V> {
    /// The bit of every known atom lies inside `mask`.
    pub proof fn lemma_key_bit_subset(self, name: Seq<char>)
        requires
            self.wf(),
            self.spec_has_key(name),
        ensures
            (self.spec_key_bit(name) | self.mask) == self.mask,
    {
        let w = choose|w: int|
            0 <= w < self.keys_dv().len() && (#[trigger] self.keys_dv()[w]).0 == name;
        assert(self.keys@[w].1 == (1u64 << (w as u64)));
        lemma_bit_subset(w as u64, self.keys@.len() as u64);
    }

    /// The mask of the first `n` atoms of an environment lies inside `mask`.
    pub proof fn lemma_env_mask_n_subset(self, env: Seq<Seq<char>>, n: int)
        requires
            self.wf(),
        ensures
            (self.spec_env_mask_n(env, n) | self.mask) == self.mask,
            (self.mask & self.spec_env_mask_n(env, n)) == self.spec_env_mask_n(env, n),
        decreases n,
    {
        if n <= 0 {
            lemma_or_zero(self.mask);
        } else {
            self.lemma_env_mask_n_subset(env, n - 1);
            let prev = self.spec_env_mask_n(env, n - 1);
            if self.spec_has_key(env[n - 1]) {
                self.lemma_key_bit_subset(env[n - 1]);
                lemma_or_subset(prev, self.spec_key_bit(env[n - 1]), self.mask);
            }
        }
    }

    /// The mask of an environment lies inside `mask`, so masking an
    /// environment with every known bit changes nothing.
    pub proof fn lemma_env_mask_subset(self, env: Seq<Seq<char>>)
        requires
            self.wf(),
        ensures
            (self.mask & self.spec_env_mask(env)) == self.spec_env_mask(env),
        decreases env.len(),
    {
        self.lemma_env_mask_n_subset(env, env.len() as int);
    }

    /// The OR of the bits of the known atoms among `key`, unknown atoms
    /// contributing zero.
    pub fn env_mask(&self, key: &Vec<String>) -> (m: u64)
        requires
            self.wf(),
        ensures
            m == self.spec_env_mask(key.deep_view()),
    {
        let ghost env = key.deep_view();
        let mut m: u64 = 0;
        let mut i: usize = 0;
        while i < key.len()
            invariant
                self.wf(),
                i <= key@.len(),
                env == key.deep_view(),
                env.len() == key@.len(),
                m == self.spec_env_mask_n(env, i as int),
            decreases key@.len() - i,
        {
            assert(env[i as int] == key@[i as int]@);
            match self.find_key(&key[i]) {
                Some(idx) => {
                    m = m | self.keys[idx].1;
                    proof {
                        let w = choose|w: int|
                            0 <= w < self.keys_dv().len() && (#[trigger] self.keys_dv()[w]).0
                                == key@[i as int]@;
                        if w != idx {
                            assert(self.keys@[w].0@ == self.keys@[idx as int].0@);
                        }
                    }
                },
                None => {},
            }
            i += 1;
        }
        m
    }

    /// The value stored under the exact mask `m`, if any.
    pub fn get_at_mask(&self, m: u64) -> (r: Option<&V>)
        requires
            self.wf(),
        ensures
            match r {
                Some(v) => {
                    &&& self.spec_mask_has_value(m)
                    &&& *v == self.spec_value_at(m)
                },
                None => !self.spec_mask_has_value(m),
            },
    {
        match self.find_value(m) {
            Some(i) => Some(&self.values[i].1),
            None => None,
        }
    }

    /// Looks up the value stored under the exact mask of `key`. Under
    /// `strict`, an unknown atom makes the lookup fail instead of
    /// contributing zero.
    pub fn get(&self, key: &Vec<String>, strict: bool) -> (r: Option<&V>)
        requires
            self.wf(),
        ensures
            match r {
                Some(v) => self.spec_get(key.deep_view(), strict) == Some(*v),
                None => self.spec_get(key.deep_view(), strict) is None,
            },
    {
        let ghost env = key.deep_view();
        let mut m: u64 = 0;
        let mut i: usize = 0;
        while i < key.len()
            invariant
                self.wf(),
                i <= key@.len(),
                env == key.deep_view(),
                env.len() == key@.len(),
                m == self.spec_env_mask_n(env, i as int),
                strict ==> (forall|j: int| 0 <= j < i ==> self.spec_has_key(#[trigger] env[j])),
            decreases key@.len() - i,
        {
            assert(env[i as int] == key@[i as int]@);
            match self.find_key(&key[i]) {
                Some(idx) => {
                    m = m | self.keys[idx].1;
                    proof {
                        let w = choose|w: int|
                            0 <= w < self.keys_dv().len() && (#[trigger] self.keys_dv()[w]).0
                                == key@[i as int]@;
                        if w != idx {
                            assert(self.keys@[w].0@ == self.keys@[idx as int].0@);
                        }
                    }
                },
                None => {
                    if strict {
                        return None;
                    }
                },
            }
            i += 1;
        }
        match self.find_value(m) {
            Some(i) => Some(&self.values[i].1),
            None => None,
        }
    }

    /// Every stored (mask, value) pair, in storage order.
    pub fn all(&self) -> (r: &Vec<(u64, V)>)
        ensures
            r@ == self.values@,
    {
        &self.values
    }
}

impl<M: Copy> Expression<Vec<M>> {
    /// Appends `item` to the list stored under the exact mask `m`, starting
    /// a new one-element list when the mask is new. Lists under other masks
    /// are untouched.
    pub fn push_at_mask(&mut self, m: u64, item: M)
        requires
            old(self).wf(),
        ensures
            final(self).wf(),
            final(self).keys@ == old(self).keys@,
            final(self).mask == old(self).mask,
            final(self).spec_mask_has_value(m),
            final(self).spec_value_at(m)@ == if old(self).spec_mask_has_value(m) {
                old(self).spec_value_at(m)@.push(item)
            } else {
                seq![item]
            },
            forall|m2: u64|
                m2 != m ==> final(self).spec_mask_has_value(m2) == old(self).spec_mask_has_value(
                    m2,
                ),
            forall|m2: u64|
                m2 != m && old(self).spec_mask_has_value(m2) ==> final(self).spec_value_at(m2)
                    == old(self).spec_value_at(m2),
            old(self).spec_mask_has_value(m) ==> final(self).values@.len() == old(
                self,
            ).values@.len(),
            !old(self).spec_mask_has_value(m) ==> {
                &&& final(self).values@.len() == old(self).values@.len() + 1
                &&& (forall|j: int|
                    0 <= j < old(self).values@.len() ==> #[trigger] final(self).values@[j] == old(
                        self,
                    ).values@[j])
                &&& final(self).values@[old(self).values@.len() as int].0 == m
                &&& final(self).values@[old(self).values@.len() as int].1@ =~= seq![item]
            },
    {
        let ghost n = old(self).values@.len() as int;
        match self.find_value(m) {
            Some(i) => {
                let entry = self.values.swap_remove(i);
                let (mm, mut list) = entry;
                list.push(item);
                self.values.push((mm, list));
                proof {
                    old(self).lemma_value_lookup(m, i as int);
                    // after swap_remove and push: entries are those of the old
                    // table with position i replaced by the old last entry,
                    // and the grown list reattached at the end
                    assert(self.values@.len() == n);
                    assert(self.values@[n - 1].0 == m);
                    assert(self.values@[n - 1].1@ == old(self).values@[i as int].1@.push(item));
                    assert forall|j: int| 0 <= j < n - 1 implies #[trigger] self.values@[j] == (
                    if i < n - 1 && j == i {
                        old(self).values@[n - 1]
                    } else {
                        old(self).values@[j]
                    }) by {
                    }
                    assert forall|a: int, b: int| 0 <= a < b < self.values@.len() implies (
                    #[trigger] self.values@[a]).0 != (#[trigger] self.values@[b]).0 by {
                    }
                    self.lemma_value_lookup(m, n - 1);
                    assert forall|m2: u64| m2 != m implies final(self).spec_mask_has_value(m2)
                        == old(self).spec_mask_has_value(m2) by {
                        if old(self).spec_mask_has_value(m2) {
                            let w = old(self).spec_value_idx(m2);
                            if i < n - 1 && w == n - 1 {
                                assert(self.values@[i as int].0 == m2);
                            } else {
                                assert(w != i);
                                assert(self.values@[w].0 == m2);
                            }
                        }
                        if self.spec_mask_has_value(m2) {
                            let w = self.spec_value_idx(m2);
                            if i < n - 1 && w == i {
                                assert(old(self).values@[n - 1].0 == m2);
                            } else {
                                assert(w != n - 1);
                                assert(old(self).values@[w].0 == m2);
                            }
                        }
                    }
                    assert forall|m2: u64|
                        m2 != m && old(self).spec_mask_has_value(m2) implies final(self).spec_value_at(m2) == old(self).spec_value_at(m2) by {
                        let w = old(self).spec_value_idx(m2);
                        old(self).lemma_value_lookup(m2, w);
                        if i < n - 1 && w == n - 1 {
                            self.lemma_value_lookup(m2, i as int);
                        } else {
                            self.lemma_value_lookup(m2, w);
                        }
                    }
                }
            },
            None => {
                let mut list: Vec<M> = Vec::new();
                list.push(item);
                self.values.push((m, list));
                proof {
                    self.lemma_value_lookup(m, n);
                    assert(self.values@[n].1@ =~= seq![item]);
                    assert forall|m2: u64| m2 != m implies final(self).spec_mask_has_value(m2)
                        == old(self).spec_mask_has_value(m2) by {
                        if old(self).spec_mask_has_value(m2) {
                            let w = old(self).spec_value_idx(m2);
                            assert(self.values@[w].0 == m2);
                        }
                        if self.spec_mask_has_value(m2) {
                            let w = self.spec_value_idx(m2);
                            assert(w != n);
                            assert(old(self).values@[w].0 == m2);
                        }
                    }
                    assert forall|m2: u64|
                        m2 != m && old(self).spec_mask_has_value(m2) implies final(self).spec_value_at(m2) == old(self).spec_value_at(m2) by {
                        let w = old(self).spec_value_idx(m2);
                        old(self).lemma_value_lookup(m2, w);
                        self.lemma_value_lookup(m2, w);
                    }
                }
            },
        }
    }
}

} // verus!
