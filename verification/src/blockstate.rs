//! Variant and multipart rule tables.
//!
//! A [`BlockState`] is a condition [`Expression`] together with an ordered
//! list of groups, one per rule. A query computes the environment's mask
//! once, looks up `group_mask & env_mask` for every live group by
//! exact-mask equality, and concatenates the stored model lists in group
//! declaration order.
//!
//! One deliberate ruling where the discipline descriptions pull apart: in a
//! multipart table, the shared value table holds the unconditional parts
//! under mask zero, so a literal per-group lookup would land a conditional
//! group whose mask shares no bit with the environment on that entry and
//! emit the unconditional models once more per such group. This table
//! instead holds to the rule that a part fires exactly when its conditions
//! are satisfied by the environment or it is unconditional: such a group is
//! not live and contributes nothing (see [`BlockState::spec_group_live`]).

use vstd::prelude::*;

use crate::errors::BuildError;
use crate::expression::add_atoms;
use crate::expression::Expression;
use crate::util::has_char;
use crate::util::spec_split;
use crate::util::contains_char;
use crate::util::split_char;

verus! {

/// A rule table: a condition expression plus one bitmask per rule.
pub struct BlockState<M> {
    /// Condition atoms and the model lists stored under exact masks.
    pub expr: Expression<Vec<M>>,
    /// One mask per rule, in declaration order: the OR of every alternative
    /// sub-mask that can fire the rule.
    pub group: Vec<u64>,
}

impl<M> BlockState<M> {
    /// Structural invariant: the condition table is well formed.
    pub open spec fn wf(self) -> bool {
        self.expr.wf()
    }

    /// Whether the group with mask `g` takes part in a query under the
    /// environment mask `em`. In a single-group table — a variant table —
    /// lookup is plain exact-mask matching, so the default entry at mask
    /// zero stays reachable. In a multipart table a group fires through
    /// mask zero only when its own mask is zero, that is, when its part is
    /// unconditional or vacuously true: a conditional part whose atoms
    /// share nothing with the environment does not fire.
    pub open spec fn spec_group_live(self, g: u64, em: u64) -> bool {
        g == 0 || (g & em) != 0 || self.group@.len() == 1
    }

    /// The models contributed by the first `n` groups for the environment
    /// mask `em`, in group order.
    pub open spec fn spec_query_n(self, em: u64, n: int) -> Seq<M>
        decreases n,
    {
        if n <= 0 {
            Seq::empty()
        } else {
            let prev = self.spec_query_n(em, n - 1);
            let g = self.group@[n - 1];
            if self.spec_group_live(g, em) && self.expr.spec_mask_has_value(g & em) {
                prev + self.expr.spec_value_at(g & em)@
            } else {
                prev
            }
        }
    }

    /// What a query returns: the concatenation, in group declaration order,
    /// of the model lists stored under `group_mask & env_mask`.
    pub open spec fn spec_query(self, env: Seq<Seq<char>>) -> Seq<M> {
        self.spec_query_n(self.expr.spec_env_mask(env), self.group@.len() as int)
    }
}

impl<M> BlockState<M> {
    /// The empty rule table.
    pub fn new() -> (r: Self)
        ensures
            r.wf(),
            r.expr.keys@.len() == 0,
            r.expr.values@.len() == 0,
            r.group@.len() == 0,
    {
        BlockState { expr: Expression::default(), group: Vec::new() }
    }

    /// Opens a new rule group with an empty mask.
    pub fn start_group(&mut self)
        requires
            old(self).wf(),
        ensures
            final(self).wf(),
            final(self).expr == old(self).expr,
            final(self).group@ == old(self).group@.push(0u64),
    {
        let m = self.expr.get_initial_link();
        self.group.push(m);
    }
}

impl<M: Copy> BlockState<M> {
    /// Registers the atoms of `key`, appends `value` to the model list under
    /// their exact mask, and ORs the mask into the newest group. Returns the
    /// mask; `None` when an atom no longer fits in the mask width or when no
    /// group has been started, and then no model list changes.
    pub fn insert_group(&mut self, key: &Vec<String>, value: M) -> (r: Option<u64>)
        requires
            old(self).wf(),
        ensures
            final(self).wf(),
            match r {
                Some(mm) => {
                    &&& old(self).group@.len() > 0
                    &&& add_atoms(old(self).expr.keys_dv(), 0u64, key.deep_view(), key@.len()
                        as int) == Some((final(self).expr.keys_dv(), mm))
                    &&& final(self).group@ == old(self).group@.update(
                        old(self).group@.len() - 1,
                        (old(self).group@.last() | mm),
                    )
                    &&& final(self).expr.spec_mask_has_value(mm)
                    &&& final(self).expr.spec_value_at(mm)@ == if old(self).expr.spec_mask_has_value(mm) {
                        old(self).expr.spec_value_at(mm)@.push(value)
                    } else {
                        seq![value]
                    }
                    &&& (forall|m2: u64|
                        m2 != mm ==> final(self).expr.spec_mask_has_value(m2) == old(self).expr.spec_mask_has_value(m2))
                    &&& (forall|m2: u64|
                        m2 != mm && old(self).expr.spec_mask_has_value(m2) ==> final(self).expr.spec_value_at(m2) == old(self).expr.spec_value_at(m2))
                },
                None => {
                    &&& final(self).group@ == old(self).group@
                    &&& final(self).expr.values@ == old(self).expr.values@
                    &&& (add_atoms(old(self).expr.keys_dv(), 0u64, key.deep_view(), key@.len()
                        as int) is None || old(self).group@.len() == 0)
                },
            },
    {
        let ghost atoms = key.deep_view();
        let mut m: u64 = self.expr.get_initial_link();
        let mut i: usize = 0;
        while i < key.len()
            invariant
                self.wf(),
                i <= key@.len(),
                atoms == key.deep_view(),
                atoms.len() == key@.len(),
                self.group@ == old(self).group@,
                self.expr.values@ == old(self).expr.values@,
                add_atoms(old(self).expr.keys_dv(), 0u64, atoms, i as int) == Some(
                    (self.expr.keys_dv(), m),
                ),
            decreases key@.len() - i,
        {
            assert(atoms[i as int] == key@[i as int]@);
            let r = self.expr.insert_key(&key[i], &mut m);
            if r.is_none() {
                proof {
                    assert(add_atoms(old(self).expr.keys_dv(), 0u64, atoms, i as int + 1) is None);
                    crate::expression::lemma_add_atoms_none_mono(
                        old(self).expr.keys_dv(),
                        0u64,
                        atoms,
                        i as int + 1,
                        key@.len() as int,
                    );
                }
                return None;
            }
            i += 1;
        }
        if self.group.len() == 0 {
            return None;
        }
        let gi = self.group.len() - 1;
        let g = self.group[gi];
        self.expr.push_at_mask(m, value);
        self.group.set(gi, g | m);
        Some(m)
    }

    /// Queries the table: computes the environment's mask, looks up
    /// `group_mask & env_mask` for every group, and concatenates the stored
    /// model lists in group declaration order.
    pub fn get(&self, key: &Vec<String>) -> (r: Vec<M>)
        requires
            self.wf(),
        ensures
            r@ == self.spec_query(key.deep_view()),
    {
        let m = self.expr.env_mask(key);
        let single = self.group.len() == 1;
        let mut parts: Vec<M> = Vec::new();
        let mut gi: usize = 0;
        while gi < self.group.len()
            invariant
                self.wf(),
                gi <= self.group@.len(),
                single == (self.group@.len() == 1),
                m == self.expr.spec_env_mask(key.deep_view()),
                parts@ == self.spec_query_n(m, gi as int),
            decreases self.group@.len() - gi,
        {
            let g = self.group[gi];
            let ghost before = parts@;
            if !(g == 0 || (g & m) != 0 || single) {
                gi += 1;
                continue ;
            }
            match self.expr.get_at_mask(g & m) {
                Some(list) => {
                    let mut j: usize = 0;
                    while j < list.len()
                        invariant
                            j <= list@.len(),
                            parts@ == before + list@.subrange(0, j as int),
                        decreases list@.len() - j,
                    {
                        let item = list[j];
                        parts.push(item);
                        proof {
                            assert(parts@ =~= before + list@.subrange(0, j as int + 1));
                        }
                        j += 1;
                    }
                    proof {
                        assert(list@.subrange(0, list@.len() as int) =~= list@);
                    }
                },
                None => {},
            }
            gi += 1;
        }
        parts
    }
}

/// For a variant table — a single group that covers every known bit — a
/// query yields exactly the model list registered under the exact mask of
/// the environment's relevant atoms, and nothing when no list is registered
/// there: at most one rule ever fires.
pub proof fn lemma_variant_query_exact<M>(bs: BlockState<M>, env: Seq<Seq<char>>)
    requires
        bs.wf(),
        bs.group@.len() == 1,
        bs.group@[0] == bs.expr.mask,
    ensures
        bs.spec_query(env) == if bs.expr.spec_mask_has_value(bs.expr.spec_env_mask(env)) {
            bs.expr.spec_value_at(bs.expr.spec_env_mask(env))@
        } else {
            Seq::<M>::empty()
        },
{
    let em = bs.expr.spec_env_mask(env);
    bs.expr.lemma_env_mask_subset(env);
    assert((bs.group@[0] & em) == em);
    assert(bs.spec_query_n(em, 0) =~= Seq::<M>::empty());
    if bs.expr.spec_mask_has_value(em) {
        assert(bs.spec_query_n(em, 1) == bs.spec_query_n(em, 0)
            + bs.expr.spec_value_at(em)@);
        assert(bs.spec_query_n(em, 1) =~= bs.expr.spec_value_at(em)@);
    } else {
        assert(bs.spec_query_n(em, 1) == bs.spec_query_n(em, 0));
    }
}

proof fn lemma_query_n_contains_zero_group<M>(
    bs: BlockState<M>,
    em: u64,
    i: int,
    n: int,
    item: M,
)
    requires
        bs.wf(),
        0 <= i < n <= bs.group@.len(),
        bs.group@[i] == 0u64,
        bs.expr.spec_mask_has_value(0u64),
        bs.expr.spec_value_at(0u64)@.contains(item),
    ensures
        bs.spec_query_n(em, n).contains(item),
    decreases n,
{
    if n == i + 1 {
        assert((0u64 & em) == 0u64) by (bit_vector);
        let prev = bs.spec_query_n(em, i);
        let vs = bs.expr.spec_value_at(0u64)@;
        let k = choose|k: int| 0 <= k < vs.len() && vs[k] == item;
        assert(bs.spec_query_n(em, n)[prev.len() + k] == item);
    } else {
        lemma_query_n_contains_zero_group(bs, em, i, n - 1, item);
        let prev = bs.spec_query_n(em, n - 1);
        let k = choose|k: int| 0 <= k < prev.len() && prev[k] == item;
        assert(bs.spec_query_n(em, n)[k] == item);
    }
}

/// An unconditional multipart part — carried by a group whose mask is zero,
/// its model stored in the list under mask zero — appears in the query
/// result for every environment.
pub proof fn lemma_unconditional_always_fires<M>(
    bs: BlockState<M>,
    env: Seq<Seq<char>>,
    i: int,
    item: M,
)
    requires
        bs.wf(),
        0 <= i < bs.group@.len(),
        bs.group@[i] == 0u64,
        bs.expr.spec_mask_has_value(0u64),
        bs.expr.spec_value_at(0u64)@.contains(item),
    ensures
        bs.spec_query(env).contains(item),
{
    lemma_query_n_contains_zero_group(
        bs,
        bs.expr.spec_env_mask(env),
        i,
        bs.group@.len() as int,
        item,
    );
}

/// The condition atoms of a variant condition string: its comma-separated
/// segments; the empty condition has none.
pub open spec fn variant_atoms(cond: Seq<char>) -> Seq<Seq<char>> {
    if cond.len() == 0 {
        Seq::empty()
    } else {
        spec_split(cond, ',')
    }
}

/// Whether a variant condition string is malformed: one of its segments
/// lacks the `name=value` shape.
pub open spec fn cond_malformed(cond: Seq<char>) -> bool {
    exists|i: int|
        0 <= i < variant_atoms(cond).len() && !has_char(#[trigger] variant_atoms(cond)[i], '=')
}

/// The key table and the installed rule masks after the first `n` variant
/// condition strings, or `None` once a record fails: a malformed condition,
/// an atom out of mask capacity, or a mask installed twice.
pub open spec fn variants_state(conds: Seq<Seq<char>>, n: int) -> Option<
    (Seq<(Seq<char>, u64)>, Seq<u64>),
>
    decreases n,
{
    if n <= 0 {
        Some((Seq::empty(), Seq::empty()))
    } else {
        match variants_state(conds, n - 1) {
            None => None,
            Some((ks, installed)) => {
                let cond = conds[n - 1];
                if cond_malformed(cond) {
                    None
                } else {
                    match add_atoms(ks, 0u64, variant_atoms(cond), variant_atoms(cond).len()
                        as int) {
                        None => None,
                        Some((ks2, m)) => {
                            if installed.contains(m) {
                                None
                            } else {
                                Some((ks2, installed.push(m)))
                            }
                        },
                    }
                }
            },
        }
    }
}

/// Once a variant record has failed, every longer prefix fails too.
pub proof fn lemma_variants_none_mono(conds: Seq<Seq<char>>, n: int, n2: int)
    requires
        variants_state(conds, n) is None,
        n <= n2,
    ensures
        variants_state(conds, n2) is None,
    decreases n2 - n,
{
    if n < n2 {
        lemma_variants_none_mono(conds, n, n2 - 1);
    }
}

/// The condition strings of a sequence of variant records.
pub open spec fn variant_conds<M>(records: Seq<(String, M)>) -> Seq<Seq<char>> {
    records.map_values(|p: (String, M)| p.0@)
}

impl<M: Copy> BlockState<M> {
    /// Builds a variant table: each record's comma-separated condition
    /// installs a one-model list under the exact mask of its atoms, the
    /// empty condition under mask zero, and one group covers every known
    /// bit. Fails with `MalformedCondition` when a segment lacks `=`,
    /// `CapacityExceeded` when the atoms outgrow the mask width, and
    /// `DuplicateRule` when two records produce the same mask.
    pub fn build_variants(records: &Vec<(String, M)>) -> (r: Result<Self, BuildError>)
        ensures
            match r {
                Ok(bs) => {
                    &&& bs.wf()
                    &&& bs.group@.len() == 1
                    &&& bs.group@[0] == bs.expr.mask
                    &&& exists|installed: Seq<u64>|
                        {
                            &&& variants_state(variant_conds(records@), records@.len() as int)
                                == Some((bs.expr.keys_dv(), installed))
                            &&& bs.expr.values@.len() == installed.len()
                            &&& installed.len() == records@.len()
                            &&& (forall|k: int|
                                0 <= k < installed.len() ==> (#[trigger] bs.expr.values@[k]).0
                                    == installed[k])
                            &&& (forall|k: int|
                                0 <= k < installed.len() ==> (#[trigger] bs.expr.values@[k]).1@
                                    =~= seq![records@[k].1])
                        }
                },
                Err(e) => {
                    &&& variants_state(variant_conds(records@), records@.len() as int) is None
                    &&& match e {
                        BuildError::MalformedCondition(_) => exists|n: int|
                            0 <= n < records@.len() && variants_state(
                                variant_conds(records@),
                                n,
                            ) is Some && cond_malformed(#[trigger] variant_conds(records@)[n]),
                        BuildError::CapacityExceeded => exists|n: int|
                            0 <= n < records@.len() && match variants_state(
                                variant_conds(records@),
                                n,
                            ) {
                                Option::Some((ks, inst)) => !cond_malformed(
                                    #[trigger] variant_conds(records@)[n],
                                ) && add_atoms(
                                    ks,
                                    0u64,
                                    variant_atoms(variant_conds(records@)[n]),
                                    variant_atoms(variant_conds(records@)[n]).len() as int,
                                ) is None,
                                Option::None => false,
                            },
                        BuildError::DuplicateRule => exists|n: int|
                            0 <= n < records@.len() && match variants_state(
                                variant_conds(records@),
                                n,
                            ) {
                                Option::Some((ks, inst)) => !cond_malformed(
                                    #[trigger] variant_conds(records@)[n],
                                ) && match add_atoms(
                                    ks,
                                    0u64,
                                    variant_atoms(variant_conds(records@)[n]),
                                    variant_atoms(variant_conds(records@)[n]).len() as int,
                                ) {
                                    Option::Some((ks2, m)) => inst.contains(m),
                                    Option::None => false,
                                },
                                Option::None => false,
                            },
                        _ => false,
                    }
                },
            },
    {
        let ghost conds = variant_conds(records@);
        let mut expr: Expression<Vec<M>> = Expression::default();
        let ghost installed0: Seq<u64> = Seq::empty();
        let ghost mut installed = installed0;
        let mut i: usize = 0;
        while i < records.len()
            invariant
                expr.wf(),
                i <= records@.len(),
                conds == variant_conds(records@),
                conds.len() == records@.len(),
                variants_state(conds, i as int) == Some((expr.keys_dv(), installed)),
                expr.values@.len() == installed.len(),
                installed.len() == i,
                forall|k: int|
                    0 <= k < installed.len() ==> (#[trigger] expr.values@[k]).0 == installed[k],
                forall|k: int|
                    0 <= k < installed.len() ==> (#[trigger] expr.values@[k]).1@ =~= seq![
                        records@[k].1,
                    ],
            decreases records@.len() - i,
        {
            let ghost expr0 = expr;
            let ghost installed_0 = installed;
            assert(conds[i as int] == records@[i as int].0@);
            let cond = &records[i].0;
            let val = records[i].1;
            let m: u64;
            if cond.as_str().is_empty() {
                m = 0;
                proof {
                    assert(variant_atoms(cond@) =~= Seq::<Seq<char>>::empty());
                    assert(add_atoms(expr.keys_dv(), 0u64, variant_atoms(cond@), 0) == Some(
                        (expr.keys_dv(), 0u64),
                    ));
                }
            } else {
                let segs = split_char(cond.as_str(), ',');
                proof {
                    assert(segs.deep_view() == variant_atoms(cond@));
                }
                let mut k: usize = 0;
                while k < segs.len()
                    invariant
                        k <= segs@.len(),
                        i < records@.len(),
                        conds == variant_conds(records@),
                        conds.len() == records@.len(),
                        conds[i as int] == cond@,
                        variants_state(conds, i as int) is Some,
                        segs.deep_view() == variant_atoms(cond@),
                        segs.deep_view().len() == segs@.len(),
                        forall|j: int|
                            0 <= j < k ==> has_char(#[trigger] segs.deep_view()[j], '='),
                    decreases segs@.len() - k,
                {
                    if !contains_char(segs[k].as_str(), '=') {
                        proof {
                            assert(segs.deep_view()[k as int] == segs@[k as int]@);
                            assert(variant_atoms(conds[i as int])[k as int] == segs@[k as int]@);
                            assert(!has_char(variant_atoms(conds[i as int])[k as int], '='));
                            assert(cond_malformed(conds[i as int]));
                            assert(variants_state(conds, i as int + 1) is None);
                            lemma_variants_none_mono(conds, i as int + 1, conds.len() as int);
                        }
                        return Err(BuildError::MalformedCondition(segs[k].clone()));
                    }
                    proof {
                        assert(segs.deep_view()[k as int] == segs@[k as int]@);
                    }
                    k += 1;
                }
                proof {
                    assert(!cond_malformed(conds[i as int]));
                }
                match expr.insert_atoms(&segs) {
                    Some(mm) => {
                        m = mm;
                    },
                    None => {
                        proof {
                            assert(variants_state(conds, i as int + 1) is None);
                            lemma_variants_none_mono(conds, i as int + 1, conds.len() as int);
                            assert(match variants_state(conds, i as int) {
                                Option::Some((ks, inst)) => !cond_malformed(conds[i as int])
                                    && add_atoms(
                                    ks,
                                    0u64,
                                    variant_atoms(conds[i as int]),
                                    variant_atoms(conds[i as int]).len() as int,
                                ) is None,
                                Option::None => false,
                            });
                        }
                        return Err(BuildError::CapacityExceeded);
                    },
                }
            }
            match expr.get_at_mask(m) {
                Some(_) => {
                    proof {
                        let w = expr.spec_value_idx(m);
                        assert(expr.values@[w].0 == installed[w]);
                        assert(installed.contains(m));
                        assert(variants_state(conds, i as int + 1) is None);
                        lemma_variants_none_mono(conds, i as int + 1, conds.len() as int);
                        assert(match variants_state(conds, i as int) {
                            Option::Some((ks, inst)) => !cond_malformed(conds[i as int])
                                && match add_atoms(
                                ks,
                                0u64,
                                variant_atoms(conds[i as int]),
                                variant_atoms(conds[i as int]).len() as int,
                            ) {
                                Option::Some((ks2, mm)) => inst.contains(mm),
                                Option::None => false,
                            },
                            Option::None => false,
                        });
                    }
                    return Err(BuildError::DuplicateRule);
                },
                None => {
                    proof {
                        if installed.contains(m) {
                            let w = choose|w: int| 0 <= w < installed.len() && installed[w] == m;
                            assert(expr.values@[w].0 == m);
                            assert(expr.spec_mask_has_value(m));
                            assert(false);
                        }
                    }
                },
            }
            expr.push_at_mask(m, val);
            proof {
                installed = installed.push(m);
            }
            i += 1;
            proof {
                assert forall|k: int| 0 <= k < installed.len() implies (
                #[trigger] expr.values@[k]).1@ =~= seq![records@[k].1] by {
                    if k < installed.len() - 1 {
                        assert(expr0.values@[k].0 == installed_0[k]);
                        assert(expr0.values@[k].1@ =~= seq![records@[k].1]);
                        assert(expr.values@.len() == expr0.values@.len() + 1);
                        assert(expr.values@[k] == expr0.values@[k]);
                    } else {
                        assert(expr.values@[k].0 == m);
                        assert(expr.values@[k].1@ =~= seq![val]);
                    }
                }
            }
        }
        let mut group: Vec<u64> = Vec::new();
        group.push(expr.mask);
        Ok(BlockState { expr, group })
    }
}

/// One multipart `when` clause.
#[derive(Clone, Debug)]
pub enum WhenRecord {
    /// A single AND-conjunction: property names, each mapped to a value
    /// string that may hold `|`-separated alternatives.
    And(Vec<(String, String)>),
    /// Alternative AND-conjunctions; any one of them may fire the part.
    Or(Vec<Vec<(String, String)>>),
}

/// One multipart part: an optional `when` clause and the model it applies.
pub struct MultipartRecord<M> {
    /// The condition; `None` makes the part unconditional.
    pub when: Option<WhenRecord>,
    /// The model placement this part applies.
    pub apply: M,
}

/// A split has at least its one piece.
pub proof fn lemma_spec_split_nonempty(t: Seq<char>, sep: char)
    ensures
        spec_split(t, sep).len() >= 1,
{
}

/// The condition atom of one property and one of its `|` alternatives.
pub open spec fn spec_atom(prop: Seq<char>, alt: Seq<char>) -> Seq<char> {
    prop + seq!['='] + alt
}

/// Whether every atom an AND-conjunction can mention — each property with
/// each of its `|` alternatives — is registered in the table.
pub open spec fn pairs_atoms_known<V>(e: Expression<V>, pairs: Seq<(String, String)>) -> bool {
    forall|p: int, a: int|
        0 <= p < pairs.len() && 0 <= a < spec_split(pairs[p].1@, '|').len() ==> e.spec_has_key(
            #[trigger] spec_atom(pairs[p].0@, spec_split(pairs[p].1@, '|')[a]),
        )
}

/// Whether every atom a `when` clause can mention is registered.
pub open spec fn when_atoms_known<V>(e: Expression<V>, w: Option<WhenRecord>) -> bool {
    match w {
        Option::None => true,
        Option::Some(WhenRecord::And(pairs)) => pairs_atoms_known(e, pairs@),
        Option::Some(WhenRecord::Or(list)) => forall|i: int|
            0 <= i < list@.len() ==> pairs_atoms_known(e, (#[trigger] list@[i])@),
    }
}

/// Key tables only grow, so known atoms stay known.
proof fn lemma_pairs_atoms_known_grow<M>(
    e1: Expression<Vec<M>>,
    e2: Expression<Vec<M>>,
    pairs: Seq<(String, String)>,
)
    requires
        e1.keys@.len() <= e2.keys@.len(),
        forall|i: int| 0 <= i < e1.keys@.len() ==> #[trigger] e2.keys_dv()[i] == e1.keys_dv()[i],
        pairs_atoms_known(e1, pairs),
    ensures
        pairs_atoms_known(e2, pairs),
{
    assert forall|p: int, a: int|
        0 <= p < pairs.len() && 0 <= a < spec_split(pairs[p].1@, '|').len() implies e2.spec_has_key(
        #[trigger] spec_atom(pairs[p].0@, spec_split(pairs[p].1@, '|')[a]),
    ) by {
        crate::expression::lemma_seq_has_key_prefix(
            e1.keys_dv(),
            e2.keys_dv(),
            spec_atom(pairs[p].0@, spec_split(pairs[p].1@, '|')[a]),
        );
    }
}

/// Key tables only grow, so a `when` clause's known atoms stay known.
proof fn lemma_when_atoms_known_grow<M>(
    e1: Expression<Vec<M>>,
    e2: Expression<Vec<M>>,
    w: Option<WhenRecord>,
)
    requires
        e1.keys@.len() <= e2.keys@.len(),
        forall|i: int| 0 <= i < e1.keys@.len() ==> #[trigger] e2.keys_dv()[i] == e1.keys_dv()[i],
        when_atoms_known(e1, w),
    ensures
        when_atoms_known(e2, w),
{
    match w {
        Option::None => {},
        Option::Some(WhenRecord::And(pairs)) => {
            lemma_pairs_atoms_known_grow(e1, e2, pairs@);
        },
        Option::Some(WhenRecord::Or(list)) => {
            assert forall|i: int| 0 <= i < list@.len() implies pairs_atoms_known(
                e2,
                (#[trigger] list@[i])@,
            ) by {
                lemma_pairs_atoms_known_grow(e1, e2, list@[i]@);
            }
        },
    }
}

/// Whether the key table of `e` lists the atom of alternative `a` of one
/// property with exactly the bit `bit`.
pub open spec fn atom_bit_listed<V>(
    e: Expression<V>,
    prop: Seq<char>,
    valtext: Seq<char>,
    a: int,
    bit: u64,
) -> bool {
    exists|idx: int|
        0 <= idx < e.keys@.len() && #[trigger] e.keys_dv()[idx] == (
            spec_atom(prop, spec_split(valtext, '|')[a]),
            bit,
        )
}

/// The atom bits of one property's `|` alternatives under the key table
/// of `e`, in alternative order.
pub open spec fn spec_alt_bits<V>(e: Expression<V>, prop: Seq<char>, valtext: Seq<char>) -> Seq<
    u64,
> {
    Seq::new(
        spec_split(valtext, '|').len(),
        |a: int| e.spec_key_bit(spec_atom(prop, spec_split(valtext, '|')[a])),
    )
}

/// Every OR-combination of one mask from `prev` with one bit from `bits`.
pub open spec fn cross_or(prev: Seq<u64>, bits: Seq<u64>) -> Seq<u64> {
    Seq::new(
        prev.len() * bits.len(),
        |x: int| prev[x / (bits.len() as int)] | bits[x % (bits.len() as int)],
    )
}

/// The alternative sub-masks of the first `n` pairs of an AND-conjunction
/// under the key table of `e`: the cross product, pair by pair, of each
/// property's alternative atom bits.
pub open spec fn spec_alt_masks<V>(e: Expression<V>, pairs: Seq<(String, String)>, n: int) -> Seq<
    u64,
>
    decreases n,
{
    if n <= 0 {
        seq![0u64]
    } else {
        cross_or(
            spec_alt_masks(e, pairs, n - 1),
            spec_alt_bits(e, pairs[n - 1].0@, pairs[n - 1].1@),
        )
    }
}

/// The OR of the first `n` masks.
pub open spec fn or_all(masks: Seq<u64>, n: int) -> u64
    decreases n,
{
    if n <= 0 {
        0u64
    } else {
        or_all(masks, n - 1) | masks[n - 1]
    }
}

/// Alternative bits read the key table only, so they stand once the atoms
/// are registered, however the table grows on.
proof fn lemma_alt_bits_stable<M>(
    e1: Expression<Vec<M>>,
    e2: Expression<Vec<M>>,
    prop: Seq<char>,
    valtext: Seq<char>,
)
    requires
        e1.wf(),
        e2.wf(),
        e1.keys@.len() <= e2.keys@.len(),
        forall|i: int| 0 <= i < e1.keys@.len() ==> #[trigger] e2.keys_dv()[i] == e1.keys_dv()[i],
        forall|a: int|
            0 <= a < spec_split(valtext, '|').len() ==> e1.spec_has_key(
                #[trigger] spec_atom(prop, spec_split(valtext, '|')[a]),
            ),
    ensures
        spec_alt_bits(e2, prop, valtext) == spec_alt_bits(e1, prop, valtext),
{
    assert forall|a: int| 0 <= a < spec_split(valtext, '|').len() implies e2.spec_key_bit(
        #[trigger] spec_atom(prop, spec_split(valtext, '|')[a]),
    ) == e1.spec_key_bit(spec_atom(prop, spec_split(valtext, '|')[a])) by {
        let atom = spec_atom(prop, spec_split(valtext, '|')[a]);
        let w = choose|w: int|
            0 <= w < e1.keys_dv().len() && (#[trigger] e1.keys_dv()[w]).0 == atom;
        assert forall|x: int, y: int|
            0 <= x < y < e1.keys_dv().len() implies (#[trigger] e1.keys_dv()[x]).0 != (
            #[trigger] e1.keys_dv()[y]).0 by {
            assert(e1.keys@[x].0@ != e1.keys@[y].0@);
        }
        assert forall|x: int, y: int|
            0 <= x < y < e2.keys_dv().len() implies (#[trigger] e2.keys_dv()[x]).0 != (
            #[trigger] e2.keys_dv()[y]).0 by {
            assert(e2.keys@[x].0@ != e2.keys@[y].0@);
        }
        crate::expression::lemma_key_lookup(e1.keys_dv(), atom, w);
        assert(e2.keys_dv()[w] == e1.keys_dv()[w]);
        crate::expression::lemma_key_lookup(e2.keys_dv(), atom, w);
    }
    assert(spec_alt_bits(e2, prop, valtext) =~= spec_alt_bits(e1, prop, valtext));
}

/// Alternative sub-masks stand once their atoms are registered, however
/// the table grows on.
proof fn lemma_alt_masks_stable<M>(
    e1: Expression<Vec<M>>,
    e2: Expression<Vec<M>>,
    pairs: Seq<(String, String)>,
    n: int,
)
    requires
        e1.wf(),
        e2.wf(),
        n <= pairs.len(),
        e1.keys@.len() <= e2.keys@.len(),
        forall|i: int| 0 <= i < e1.keys@.len() ==> #[trigger] e2.keys_dv()[i] == e1.keys_dv()[i],
        forall|p: int, a: int|
            0 <= p < n && 0 <= a < spec_split(pairs[p].1@, '|').len() ==> e1.spec_has_key(
                #[trigger] spec_atom(pairs[p].0@, spec_split(pairs[p].1@, '|')[a]),
            ),
    ensures
        spec_alt_masks(e2, pairs, n) == spec_alt_masks(e1, pairs, n),
    decreases n,
{
    if n > 0 {
        lemma_alt_masks_stable(e1, e2, pairs, n - 1);
        lemma_alt_bits_stable(e1, e2, pairs[n - 1].0@, pairs[n - 1].1@);
    }
}

/// The OR of every alternative sub-mask of the first `n` alternative
/// conjunctions of an OR clause.
pub open spec fn or_list_all<M>(
    e: Expression<Vec<M>>,
    list: Seq<Vec<(String, String)>>,
    n: int,
) -> u64
    decreases n,
{
    if n <= 0 {
        0u64
    } else {
        or_list_all(e, list, n - 1) | ({
            let ms = spec_alt_masks(e, list[n - 1]@, list[n - 1]@.len() as int);
            or_all(ms, ms.len() as int)
        })
    }
}

/// What a conditional multipart part installs, read against the key table
/// of `e`: its group mask is the OR of the cross-product sub-masks of its
/// conjunction (or of every alternative conjunction), and the model list
/// under each such sub-mask carries the part's model.
pub open spec fn part_installed<M>(e: Expression<Vec<M>>, g: u64, rec: MultipartRecord<M>) -> bool {
    match rec.when {
        Option::None => true,
        Option::Some(WhenRecord::And(pairs)) => {
            let ms = spec_alt_masks(e, pairs@, pairs@.len() as int);
            &&& g == or_all(ms, ms.len() as int)
            &&& (forall|x: int|
                0 <= x < ms.len() ==> e.spec_mask_has_value(#[trigger] ms[x])
                    && e.spec_value_at(ms[x])@.contains(rec.apply))
        },
        Option::Some(WhenRecord::Or(list)) => {
            &&& g == or_list_all(e, list@, list@.len() as int)
            &&& (forall|li: int, x: int|
                0 <= li < list@.len() && 0 <= x < spec_alt_masks(
                    e,
                    list@[li]@,
                    list@[li]@.len() as int,
                ).len() ==> e.spec_mask_has_value(
                    #[trigger] spec_alt_masks(e, list@[li]@, list@[li]@.len() as int)[x],
                ) && e.spec_value_at(
                    spec_alt_masks(e, list@[li]@, list@[li]@.len() as int)[x],
                )@.contains(rec.apply))
        },
    }
}

proof fn lemma_or_list_all_stable<M>(
    e1: Expression<Vec<M>>,
    e2: Expression<Vec<M>>,
    list: Seq<Vec<(String, String)>>,
    n: int,
)
    requires
        n <= list.len(),
        e1.wf(),
        e2.wf(),
        e1.keys@.len() <= e2.keys@.len(),
        forall|i: int| 0 <= i < e1.keys@.len() ==> #[trigger] e2.keys_dv()[i] == e1.keys_dv()[i],
        forall|i: int| 0 <= i < n ==> pairs_atoms_known(e1, (#[trigger] list[i])@),
    ensures
        or_list_all(e2, list, n) == or_list_all(e1, list, n),
        forall|i: int|
            0 <= i < n ==> spec_alt_masks(e2, (#[trigger] list[i])@, list[i]@.len() as int)
                == spec_alt_masks(e1, list[i]@, list[i]@.len() as int),
    decreases n,
{
    assert forall|i: int| 0 <= i < n implies spec_alt_masks(
        e2,
        (#[trigger] list[i])@,
        list[i]@.len() as int,
    ) == spec_alt_masks(e1, list[i]@, list[i]@.len() as int) by {
        lemma_alt_masks_stable(e1, e2, list[i]@, list[i]@.len() as int);
    }
    if n > 0 {
        lemma_or_list_all_stable(e1, e2, list, n - 1);
    }
}

/// A part's install facts stand however the table grows on, as long as
/// only new masks and appended models change.
proof fn lemma_part_installed_grow<M>(
    e1: Expression<Vec<M>>,
    e2: Expression<Vec<M>>,
    g: u64,
    rec: MultipartRecord<M>,
)
    requires
        e1.wf(),
        e2.wf(),
        e1.keys@.len() <= e2.keys@.len(),
        forall|i: int| 0 <= i < e1.keys@.len() ==> #[trigger] e2.keys_dv()[i] == e1.keys_dv()[i],
        values_extend(e1, e2),
        when_atoms_known(e1, rec.when),
        part_installed(e1, g, rec),
    ensures
        part_installed(e2, g, rec),
{
    match rec.when {
        Option::None => {},
        Option::Some(WhenRecord::And(pairs)) => {
            lemma_alt_masks_stable(e1, e2, pairs@, pairs@.len() as int);
            let ms = spec_alt_masks(e1, pairs@, pairs@.len() as int);
            assert forall|x: int| 0 <= x < ms.len() implies e2.spec_mask_has_value(
                #[trigger] ms[x],
            ) && e2.spec_value_at(ms[x])@.contains(rec.apply) by {
                lemma_prefix_contains(
                    e1.spec_value_at(ms[x])@,
                    e2.spec_value_at(ms[x])@,
                    rec.apply,
                );
            }
        },
        Option::Some(WhenRecord::Or(list)) => {
            lemma_or_list_all_stable(e1, e2, list@, list@.len() as int);
            assert forall|li: int, x: int|
                0 <= li < list@.len() && 0 <= x < spec_alt_masks(
                    e2,
                    list@[li]@,
                    list@[li]@.len() as int,
                ).len() implies e2.spec_mask_has_value(
                #[trigger] spec_alt_masks(e2, list@[li]@, list@[li]@.len() as int)[x],
            ) && e2.spec_value_at(
                spec_alt_masks(e2, list@[li]@, list@[li]@.len() as int)[x],
            )@.contains(rec.apply) by {
                let m = spec_alt_masks(e1, list@[li]@, list@[li]@.len() as int)[x];
                lemma_prefix_contains(e1.spec_value_at(m)@, e2.spec_value_at(m)@, rec.apply);
            }
        },
    }
}

/// How many `|` alternatives the first `n` pairs of an AND-conjunction
/// list, and so how many atom registrations they cost.
pub open spec fn pair_alt_count(pairs: Seq<(String, String)>, n: int) -> int
    decreases n,
{
    if n <= 0 {
        0
    } else {
        pair_alt_count(pairs, n - 1) + spec_split(pairs[n - 1].1@, '|').len()
    }
}

proof fn lemma_pair_alt_count_mono(pairs: Seq<(String, String)>, n: int, n2: int)
    requires
        0 <= n <= n2,
    ensures
        pair_alt_count(pairs, n) <= pair_alt_count(pairs, n2),
    decreases n2 - n,
{
    if n < n2 {
        lemma_pair_alt_count_mono(pairs, n, n2 - 1);
        lemma_spec_split_nonempty(pairs[n2 - 1].1@, '|');
    }
}

/// The atom registrations the first `n` alternatives of an OR clause cost.
pub open spec fn or_alt_count(list: Seq<Vec<(String, String)>>, n: int) -> int
    decreases n,
{
    if n <= 0 {
        0
    } else {
        or_alt_count(list, n - 1) + pair_alt_count(list[n - 1]@, list[n - 1]@.len() as int)
    }
}

proof fn lemma_pair_alt_count_nonneg(pairs: Seq<(String, String)>, n: int)
    ensures
        pair_alt_count(pairs, n) >= 0,
    decreases n,
{
    if n > 0 {
        lemma_pair_alt_count_nonneg(pairs, n - 1);
        lemma_spec_split_nonempty(pairs[n - 1].1@, '|');
    }
}

proof fn lemma_or_alt_count_mono(list: Seq<Vec<(String, String)>>, n: int, n2: int)
    requires
        0 <= n <= n2,
    ensures
        or_alt_count(list, n) <= or_alt_count(list, n2),
    decreases n2 - n,
{
    if n < n2 {
        lemma_or_alt_count_mono(list, n, n2 - 1);
        lemma_pair_alt_count_nonneg(list[n2 - 1]@, list[n2 - 1]@.len() as int);
    }
}

/// The atom registrations the `when` clause of one part costs.
pub open spec fn when_alt_count(w: Option<WhenRecord>) -> int {
    match w {
        Option::None => 0,
        Option::Some(WhenRecord::And(pairs)) => pair_alt_count(pairs@, pairs@.len() as int),
        Option::Some(WhenRecord::Or(list)) => or_alt_count(list@, list@.len() as int),
    }
}

/// The atom registrations the first `n` multipart parts cost together.
pub open spec fn records_alt_count<M>(records: Seq<MultipartRecord<M>>, n: int) -> int
    decreases n,
{
    if n <= 0 {
        0
    } else {
        records_alt_count(records, n - 1) + when_alt_count(records[n - 1].when)
    }
}

proof fn lemma_when_alt_count_nonneg(w: Option<WhenRecord>)
    ensures
        when_alt_count(w) >= 0,
{
    match w {
        Option::None => {},
        Option::Some(WhenRecord::And(pairs)) => {
            lemma_pair_alt_count_nonneg(pairs@, pairs@.len() as int);
        },
        Option::Some(WhenRecord::Or(list)) => {
            lemma_or_alt_count_mono(list@, 0, list@.len() as int);
        },
    }
}

proof fn lemma_records_alt_count_mono<M>(records: Seq<MultipartRecord<M>>, n: int, n2: int)
    requires
        0 <= n <= n2,
    ensures
        records_alt_count(records, n) <= records_alt_count(records, n2),
    decreases n2 - n,
{
    if n < n2 {
        lemma_records_alt_count_mono(records, n, n2 - 1);
        lemma_when_alt_count_nonneg(records[n2 - 1].when);
    }
}

/// Same property pair lists, entry by entry, by their text.
pub open spec fn pairs_eqv(a: Seq<(String, String)>, b: Seq<(String, String)>) -> bool {
    a.len() == b.len() && (forall|i: int|
        0 <= i < a.len() ==> (#[trigger] a[i]).0@ == b[i].0@ && a[i].1@ == b[i].1@)
}

/// Same `when` clause content: the same discipline with the same property
/// pairs, by their text.
pub open spec fn when_eqv(a: WhenRecord, b: WhenRecord) -> bool {
    match (a, b) {
        (WhenRecord::And(pa), WhenRecord::And(pb)) => pairs_eqv(pa@, pb@),
        (WhenRecord::Or(la), WhenRecord::Or(lb)) => la@.len() == lb@.len() && (forall|i: int|
            0 <= i < la@.len() ==> pairs_eqv((#[trigger] la@[i])@, lb@[i]@)),
        _ => false,
    }
}

/// Table `b` extends table `a`: every stored mask is still stored, and
/// every model list has only grown at its end.
pub open spec fn values_extend<M>(a: Expression<Vec<M>>, b: Expression<Vec<M>>) -> bool {
    forall|m2: u64|
        #[trigger] a.spec_mask_has_value(m2) ==> b.spec_mask_has_value(m2)
            && a.spec_value_at(m2)@.is_prefix_of(b.spec_value_at(m2)@)
}

proof fn lemma_values_extend_refl<M>(a: Expression<Vec<M>>)
    ensures
        values_extend(a, a),
{
    assert forall|m2: u64| #[trigger] a.spec_mask_has_value(m2) implies a.spec_mask_has_value(m2)
        && a.spec_value_at(m2)@.is_prefix_of(a.spec_value_at(m2)@) by {
        assert(a.spec_value_at(m2)@.subrange(0, a.spec_value_at(m2)@.len() as int) =~= a
            .spec_value_at(m2)@);
    }
}

proof fn lemma_values_extend_trans<M>(
    a: Expression<Vec<M>>,
    b: Expression<Vec<M>>,
    c: Expression<Vec<M>>,
)
    requires
        values_extend(a, b),
        values_extend(b, c),
    ensures
        values_extend(a, c),
{
    assert forall|m2: u64| #[trigger] a.spec_mask_has_value(m2) implies c.spec_mask_has_value(m2)
        && a.spec_value_at(m2)@.is_prefix_of(c.spec_value_at(m2)@) by {
        let x = a.spec_value_at(m2)@;
        let y = b.spec_value_at(m2)@;
        let z = c.spec_value_at(m2)@;
        assert(x =~= y.subrange(0, x.len() as int));
        assert(y =~= z.subrange(0, y.len() as int));
        assert(x =~= z.subrange(0, x.len() as int));
    }
}

/// A table extends its state before one more list push.
proof fn lemma_values_extend_push<M>(a: Expression<Vec<M>>, b: Expression<Vec<M>>, m: u64, item: M)
    requires
        b.spec_mask_has_value(m),
        b.spec_value_at(m)@ == if a.spec_mask_has_value(m) {
            a.spec_value_at(m)@.push(item)
        } else {
            seq![item]
        },
        forall|m2: u64| m2 != m ==> a.spec_mask_has_value(m2) == b.spec_mask_has_value(m2),
        forall|m2: u64|
            m2 != m && a.spec_mask_has_value(m2) ==> a.spec_value_at(m2) == b.spec_value_at(m2),
    ensures
        values_extend(a, b),
{
    assert forall|m2: u64| #[trigger] a.spec_mask_has_value(m2) implies b.spec_mask_has_value(m2)
        && a.spec_value_at(m2)@.is_prefix_of(b.spec_value_at(m2)@) by {
        if m2 == m {
            assert(a.spec_value_at(m2)@ =~= b.spec_value_at(m2)@.subrange(
                0,
                a.spec_value_at(m2)@.len() as int,
            ));
        } else {
            assert(a.spec_value_at(m2)@ =~= b.spec_value_at(m2)@.subrange(
                0,
                a.spec_value_at(m2)@.len() as int,
            ));
        }
    }
}

/// Every list entry of `b` is the matching entry of `a` or the new item:
/// nothing but `item` was added anywhere.
pub open spec fn values_grow_with<M>(a: Expression<Vec<M>>, b: Expression<Vec<M>>, item: M) -> bool {
    forall|m2: u64, j: int|
        b.spec_mask_has_value(m2) && 0 <= j < b.spec_value_at(m2)@.len() ==> (
        #[trigger] b.spec_value_at(m2)@[j]) == item || (a.spec_mask_has_value(m2) && j
            < a.spec_value_at(m2)@.len() && b.spec_value_at(m2)@[j] == a.spec_value_at(m2)@[j])
}

proof fn lemma_grow_unchanged<M>(a: Expression<Vec<M>>, b: Expression<Vec<M>>, item: M)
    requires
        a.values@ == b.values@,
    ensures
        values_grow_with(a, b, item),
{
    assert forall|m2: u64, j: int|
        b.spec_mask_has_value(m2) && 0 <= j < b.spec_value_at(m2)@.len() implies (
    #[trigger] b.spec_value_at(m2)@[j]) == item || (a.spec_mask_has_value(m2) && j
        < a.spec_value_at(m2)@.len() && b.spec_value_at(m2)@[j] == a.spec_value_at(m2)@[j]) by {
        let w = b.spec_value_idx(m2);
        assert(a.values@[w].0 == m2);
        assert(a.spec_mask_has_value(m2));
    }
}

/// One list push grows the table with only the pushed item.
proof fn lemma_grow_push<M>(a: Expression<Vec<M>>, b: Expression<Vec<M>>, m: u64, item: M)
    requires
        b.spec_mask_has_value(m),
        b.spec_value_at(m)@ == if a.spec_mask_has_value(m) {
            a.spec_value_at(m)@.push(item)
        } else {
            seq![item]
        },
        forall|m2: u64| m2 != m ==> a.spec_mask_has_value(m2) == b.spec_mask_has_value(m2),
        forall|m2: u64|
            m2 != m && a.spec_mask_has_value(m2) ==> a.spec_value_at(m2) == b.spec_value_at(m2),
    ensures
        values_grow_with(a, b, item),
{
    assert forall|m2: u64, j: int|
        b.spec_mask_has_value(m2) && 0 <= j < b.spec_value_at(m2)@.len() implies (
    #[trigger] b.spec_value_at(m2)@[j]) == item || (a.spec_mask_has_value(m2) && j
        < a.spec_value_at(m2)@.len() && b.spec_value_at(m2)@[j] == a.spec_value_at(m2)@[j]) by {
        if m2 == m {
            if a.spec_mask_has_value(m) {
                if j < a.spec_value_at(m)@.len() {
                    assert(b.spec_value_at(m)@[j] == a.spec_value_at(m)@[j]);
                } else {
                    assert(b.spec_value_at(m)@[j] == item);
                }
            } else {
                assert(b.spec_value_at(m)@[j] == item);
            }
        }
    }
}

proof fn lemma_grow_trans<M>(
    a: Expression<Vec<M>>,
    b: Expression<Vec<M>>,
    c: Expression<Vec<M>>,
    item: M,
)
    requires
        values_grow_with(a, b, item),
        values_grow_with(b, c, item),
    ensures
        values_grow_with(a, c, item),
{
    assert forall|m2: u64, j: int|
        c.spec_mask_has_value(m2) && 0 <= j < c.spec_value_at(m2)@.len() implies (
    #[trigger] c.spec_value_at(m2)@[j]) == item || (a.spec_mask_has_value(m2) && j
        < a.spec_value_at(m2)@.len() && c.spec_value_at(m2)@[j] == a.spec_value_at(m2)@[j]) by {
        if c.spec_value_at(m2)@[j] != item {
            assert(b.spec_mask_has_value(m2) && j < b.spec_value_at(m2)@.len() && c.spec_value_at(
                m2,
            )@[j] == b.spec_value_at(m2)@[j]);
            assert(b.spec_value_at(m2)@[j] != item);
        }
    }
}

/// Every stored model of the table is the applied model of one of the
/// first `n` parts.
pub open spec fn items_from<M>(
    e: Expression<Vec<M>>,
    records: Seq<MultipartRecord<M>>,
    n: int,
) -> bool {
    forall|m2: u64, j: int|
        e.spec_mask_has_value(m2) && 0 <= j < e.spec_value_at(m2)@.len() ==> exists|k: int|
            0 <= k < n && (#[trigger] e.spec_value_at(m2)@[j]) == records[k].apply
}

/// A table that grew only with part `i`'s model keeps every stored model
/// attributable to the first `i + 1` parts.
proof fn lemma_items_from_step<M>(
    a: Expression<Vec<M>>,
    b: Expression<Vec<M>>,
    records: Seq<MultipartRecord<M>>,
    i: int,
)
    requires
        0 <= i < records.len(),
        items_from(a, records, i),
        values_grow_with(a, b, records[i].apply),
    ensures
        items_from(b, records, i + 1),
{
    assert forall|m2: u64, j: int|
        b.spec_mask_has_value(m2) && 0 <= j < b.spec_value_at(m2)@.len() implies exists|k: int|
        0 <= k < i + 1 && (#[trigger] b.spec_value_at(m2)@[j]) == records[k].apply by {
        if b.spec_value_at(m2)@[j] == records[i].apply {
            assert(0 <= i < i + 1 && b.spec_value_at(m2)@[j] == records[i].apply);
        } else {
            assert(a.spec_mask_has_value(m2) && j < a.spec_value_at(m2)@.len()
                && b.spec_value_at(m2)@[j] == a.spec_value_at(m2)@[j]);
            let k = choose|k: int|
                0 <= k < i && a.spec_value_at(m2)@[j] == records[k].apply;
            assert(0 <= k < i + 1 && b.spec_value_at(m2)@[j] == records[k].apply);
        }
    }
}

/// An item of a prefix is an item of the whole.
proof fn lemma_prefix_contains<T>(a: Seq<T>, b: Seq<T>, x: T)
    requires
        a.is_prefix_of(b),
        a.contains(x),
    ensures
        b.contains(x),
{
    let k = choose|k: int| 0 <= k < a.len() && a[k] == x;
    assert(a =~= b.subrange(0, a.len() as int));
    assert(b[k] == x);
}

/// Expands one AND-conjunction: registers the atoms of every `|`
/// alternative, installs `value` under every alternative sub-mask of the
/// cross-product, and returns the OR of those sub-masks.
fn insert_case<M: Copy>(
    expr: &mut Expression<Vec<M>>,
    pairs: &Vec<(String, String)>,
    value: M,
) -> (r: Result<u64, BuildError>)
    requires
        old(expr).wf(),
    ensures
        final(expr).wf(),
        values_extend(*old(expr), *final(expr)),
        values_grow_with(*old(expr), *final(expr), value),
        final(expr).keys@.len() <= old(expr).keys@.len() + pair_alt_count(
            pairs@,
            pairs@.len() as int,
        ),
        old(expr).keys@.len() + pair_alt_count(pairs@, pairs@.len() as int) <= 64 ==> r is Ok,
        old(expr).keys@.len() <= final(expr).keys@.len(),
        forall|i: int|
            0 <= i < old(expr).keys@.len() ==> #[trigger] final(expr).keys_dv()[i] == old(
                expr,
            ).keys_dv()[i],
        r is Ok ==> pairs_atoms_known(*final(expr), pairs@),
        match r {
            Ok(g) => {
                let ms = spec_alt_masks(*final(expr), pairs@, pairs@.len() as int);
                &&& g == or_all(ms, ms.len() as int)
                &&& (forall|x: int|
                    0 <= x < ms.len() ==> final(expr).spec_mask_has_value(#[trigger] ms[x])
                        && final(expr).spec_value_at(ms[x])@.len() > 0
                        && final(expr).spec_value_at(ms[x])@.last() == value)
                &&& (forall|m2: u64|
                    !ms.contains(m2) ==> final(expr).spec_mask_has_value(m2)
                        == old(expr).spec_mask_has_value(m2))
                &&& (forall|m2: u64|
                    !ms.contains(m2) && old(expr).spec_mask_has_value(m2)
                        ==> final(expr).spec_value_at(m2) == old(expr).spec_value_at(m2))
            },
            Err(e) => e == BuildError::CapacityExceeded,
        },
{
    let mut masks: Vec<u64> = Vec::new();
    masks.push(0u64);
    let mut pi: usize = 0;
    proof {
        lemma_values_extend_refl(*expr);
        assert(masks@ =~= seq![0u64]);
    }
    while pi < pairs.len()
        invariant
            expr.wf(),
            pi <= pairs@.len(),
            masks@.len() >= 1,
            values_extend(*old(expr), *expr),
            expr.values@ == old(expr).values@,
            expr.keys@.len() <= old(expr).keys@.len() + pair_alt_count(pairs@, pi as int),
            old(expr).keys@.len() <= expr.keys@.len(),
            forall|i: int|
                0 <= i < old(expr).keys@.len() ==> #[trigger] expr.keys_dv()[i] == old(
                    expr,
                ).keys_dv()[i],
            pairs@.len() == 0 ==> masks@ == seq![0u64],
            masks@ == spec_alt_masks(*expr, pairs@, pi as int),
            forall|p: int, a: int|
                0 <= p < pi && 0 <= a < spec_split(pairs@[p].1@, '|').len() ==> expr.spec_has_key(
                    #[trigger] spec_atom(pairs@[p].0@, spec_split(pairs@[p].1@, '|')[a]),
                ),
        decreases pairs@.len() - pi,
    {
        let ghost expr_pair = *expr;
        let ghost pair_start_len = expr.keys@.len() as int;
        let pk = &pairs[pi].0;
        let pv = &pairs[pi].1;
        let alts = split_char(pv.as_str(), '|');
        proof {
            assert(alts.deep_view() == spec_split(pairs@[pi as int].1@, '|'));
            assert(alts@.len() == spec_split(pairs@[pi as int].1@, '|').len());
        }
        let mut bits: Vec<u64> = Vec::new();
        let mut ai: usize = 0;
        while ai < alts.len()
            invariant
                expr.wf(),
                pi < pairs@.len(),
                ai <= alts@.len(),
                alts@.len() == spec_split(pairs@[pi as int].1@, '|').len(),
                alts.deep_view() == spec_split(pairs@[pi as int].1@, '|'),
                pk@ == pairs@[pi as int].0@,
                bits@.len() == ai,
                expr.values@ == old(expr).values@,
                values_extend(*old(expr), *expr),
                pair_start_len <= old(expr).keys@.len() + pair_alt_count(pairs@, pi as int),
                expr.keys@.len() <= pair_start_len + ai,
                old(expr).keys@.len() <= expr.keys@.len(),
                forall|i: int|
                    0 <= i < old(expr).keys@.len() ==> #[trigger] expr.keys_dv()[i] == old(
                        expr,
                    ).keys_dv()[i],
                expr_pair.keys@.len() <= expr.keys@.len(),
                forall|i: int|
                    0 <= i < expr_pair.keys@.len() ==> #[trigger] expr.keys_dv()[i]
                        == expr_pair.keys_dv()[i],
                forall|a: int|
                    0 <= a < ai ==> atom_bit_listed(
                        *expr,
                        pairs@[pi as int].0@,
                        pairs@[pi as int].1@,
                        a,
                        #[trigger] bits@[a],
                    ),
                forall|p: int, a: int|
                    0 <= p < pi && 0 <= a < spec_split(pairs@[p].1@, '|').len()
                        ==> expr.spec_has_key(
                        #[trigger] spec_atom(pairs@[p].0@, spec_split(pairs@[p].1@, '|')[a]),
                    ),
                forall|a: int|
                    0 <= a < ai ==> expr.spec_has_key(
                        #[trigger] spec_atom(
                            pairs@[pi as int].0@,
                            spec_split(pairs@[pi as int].1@, '|')[a],
                        ),
                    ),
            decreases alts@.len() - ai,
        {
            let ghost expr_before_key = *expr;
            let atom = pk.clone().concat("=").concat(alts[ai].as_str());
            proof {
                reveal_strlit("=");
                assert("="@ =~= seq!['=']);
                assert(alts.deep_view()[ai as int] == alts@[ai as int]@);
                assert(spec_split(pairs@[pi as int].1@, '|')[ai as int] == alts@[ai as int]@);
                assert(atom@ == pairs@[pi as int].0@ + "="@ + alts@[ai as int]@);
                assert(atom@ =~= spec_atom(
                    pairs@[pi as int].0@,
                    spec_split(pairs@[pi as int].1@, '|')[ai as int],
                ));
            }
            let mut tmp: u64 = 0;
            let r = expr.insert_key(&atom, &mut tmp);
            proof {
                // the pair (atom, bit) now stands in the key table
                if r is Some {
                    let bit = r->Some_0;
                    if expr_before_key.spec_has_key(atom@) {
                        let w = choose|w: int|
                            0 <= w < expr_before_key.keys_dv().len() && (
                            #[trigger] expr_before_key.keys_dv()[w]).0 == atom@;
                        crate::expression::lemma_wf_dv_distinct(expr_before_key);
                        crate::expression::lemma_key_lookup(
                            expr_before_key.keys_dv(),
                            atom@,
                            w,
                        );
                        assert(expr.keys_dv()[w] == (atom@, bit));
                    } else {
                        assert(expr.keys_dv()[expr.keys@.len() - 1] == (atom@, bit));
                    }
                    assert(atom_bit_listed(
                        *expr,
                        pairs@[pi as int].0@,
                        pairs@[pi as int].1@,
                        ai as int,
                        bit,
                    ));
                }
                if r is Some && !expr_before_key.spec_has_key(atom@) {
                    assert(expr.keys_dv() == expr_before_key.keys_dv().push(
                        (atom@, r->Some_0),
                    ));
                    assert forall|p: int, a: int|
                        0 <= p < pi && 0 <= a < spec_split(pairs@[p].1@, '|').len() implies expr
                        .spec_has_key(
                        #[trigger] spec_atom(pairs@[p].0@, spec_split(pairs@[p].1@, '|')[a]),
                    ) by {
                        crate::expression::lemma_seq_has_key_push(
                            expr_before_key.keys_dv(),
                            (atom@, r->Some_0),
                            spec_atom(pairs@[p].0@, spec_split(pairs@[p].1@, '|')[a]),
                        );
                    }
                    assert forall|a: int| 0 <= a < ai implies expr.spec_has_key(
                        #[trigger] spec_atom(
                            pairs@[pi as int].0@,
                            spec_split(pairs@[pi as int].1@, '|')[a],
                        ),
                    ) by {
                        crate::expression::lemma_seq_has_key_push(
                            expr_before_key.keys_dv(),
                            (atom@, r->Some_0),
                            spec_atom(
                                pairs@[pi as int].0@,
                                spec_split(pairs@[pi as int].1@, '|')[a],
                            ),
                        );
                    }
                }
                assert forall|a: int| 0 <= a < ai implies atom_bit_listed(
                    *expr,
                    pairs@[pi as int].0@,
                    pairs@[pi as int].1@,
                    a,
                    #[trigger] bits@[a],
                ) by {
                    let idx = choose|idx: int|
                        0 <= idx < expr_before_key.keys@.len()
                            && #[trigger] expr_before_key.keys_dv()[idx] == (
                            spec_atom(
                                pairs@[pi as int].0@,
                                spec_split(pairs@[pi as int].1@, '|')[a],
                            ),
                            bits@[a],
                        );
                    assert(expr.keys_dv()[idx] == expr_before_key.keys_dv()[idx]);
                }
            }
            match r {
                Some(bit) => {
                    bits.push(bit);
                },
                None => {
                    proof {
                        // the table was full, so the pair budget was blown
                        lemma_pair_alt_count_mono(pairs@, pi as int + 1, pairs@.len() as int);
                        assert(pair_alt_count(pairs@, pi as int + 1) == pair_alt_count(
                            pairs@,
                            pi as int,
                        ) + alts@.len() as int);
                        lemma_grow_unchanged(*old(expr), *expr, value);
                    }
                    return Err(BuildError::CapacityExceeded);
                },
            }
            ai += 1;
        }
        proof {
            lemma_pair_alt_count_mono(pairs@, pi as int, pi as int + 1);
            assert(pair_alt_count(pairs@, pi as int + 1) == pair_alt_count(pairs@, pi as int)
                + alts@.len() as int);
        }
        proof {
            // the collected bits are exactly the alternatives' bits under
            // the grown key table, and the processed pairs' masks stand
            crate::expression::lemma_wf_dv_distinct(*expr);
            assert forall|a: int| 0 <= a < bits@.len() implies #[trigger] bits@[a] == expr
                .spec_key_bit(
                spec_atom(pairs@[pi as int].0@, spec_split(pairs@[pi as int].1@, '|')[a]),
            ) by {
                let atom = spec_atom(
                    pairs@[pi as int].0@,
                    spec_split(pairs@[pi as int].1@, '|')[a],
                );
                let idx = choose|idx: int|
                    0 <= idx < expr.keys@.len() && #[trigger] expr.keys_dv()[idx] == (
                        atom,
                        bits@[a],
                    );
                crate::expression::lemma_key_lookup(expr.keys_dv(), atom, idx);
            }
            assert(bits@ =~= spec_alt_bits(*expr, pairs@[pi as int].0@, pairs@[pi as int].1@));
            lemma_alt_masks_stable(expr_pair, *expr, pairs@, pi as int);
        }
        let mut new_masks: Vec<u64> = Vec::new();
        let mut mi: usize = 0;
        while mi < masks.len()
            invariant
                mi <= masks@.len(),
                bits@.len() >= 1,
                new_masks@.len() == mi * bits@.len(),
                forall|x: int|
                    0 <= x < new_masks@.len() ==> #[trigger] new_masks@[x] == masks@[x / (
                    bits@.len() as int)] | bits@[x % (bits@.len() as int)],
            decreases masks@.len() - mi,
        {
            let m = masks[mi];
            let mut bi: usize = 0;
            while bi < bits.len()
                invariant
                    mi < masks@.len(),
                    bi <= bits@.len(),
                    bits@.len() >= 1,
                    m == masks@[mi as int],
                    new_masks@.len() == mi * bits@.len() + bi,
                    forall|x: int|
                        0 <= x < new_masks@.len() ==> #[trigger] new_masks@[x] == masks@[x / (
                        bits@.len() as int)] | bits@[x % (bits@.len() as int)],
                decreases bits@.len() - bi,
            {
                new_masks.push(m | bits[bi]);
                proof {
                    vstd::arithmetic::div_mod::lemma_fundamental_div_mod_converse(
                        mi as int * bits@.len() as int + bi as int,
                        bits@.len() as int,
                        mi as int,
                        bi as int,
                    );
                }
                bi += 1;
            }
            proof {
                assert((mi + 1) * bits@.len() == mi * bits@.len() + bits@.len())
                    by (nonlinear_arith);
            }
            mi += 1;
        }
        proof {
            assert(new_masks@.len() == masks@.len() * bits@.len());
            assert(masks@.len() * bits@.len() >= 1) by (nonlinear_arith)
                requires
                    masks@.len() >= 1,
                    bits@.len() >= 1,
            ;
            assert(new_masks@ =~= cross_or(
                spec_alt_masks(*expr, pairs@, pi as int),
                spec_alt_bits(*expr, pairs@[pi as int].0@, pairs@[pi as int].1@),
            ));
        }
        masks = new_masks;
        pi += 1;
    }
    let ghost expr_mid = *expr;
    proof {
        lemma_grow_unchanged(*old(expr), *expr, value);
    }
    let mut g: u64 = 0;
    let mut mi: usize = 0;
    while mi < masks.len()
        invariant
            expr.wf(),
            mi <= masks@.len(),
            masks@.len() >= 1,
            values_extend(*old(expr), *expr),
            values_extend(expr_mid, *expr),
            values_grow_with(*old(expr), *expr, value),
            expr.keys@ == expr_mid.keys@,
            old(expr).keys@.len() <= expr.keys@.len(),
            forall|i: int|
                0 <= i < old(expr).keys@.len() ==> #[trigger] expr.keys_dv()[i] == old(
                    expr,
                ).keys_dv()[i],
            forall|p: int, a: int|
                0 <= p < pairs@.len() && 0 <= a < spec_split(pairs@[p].1@, '|').len()
                    ==> expr_mid.spec_has_key(
                    #[trigger] spec_atom(pairs@[p].0@, spec_split(pairs@[p].1@, '|')[a]),
                ),
            expr.keys@.len() <= old(expr).keys@.len() + pair_alt_count(
                pairs@,
                pairs@.len() as int,
            ),
            expr_mid.wf(),
            masks@ == spec_alt_masks(expr_mid, pairs@, pairs@.len() as int),
            g == or_all(masks@, mi as int),
            forall|x: int|
                0 <= x < mi ==> expr.spec_mask_has_value(#[trigger] masks@[x])
                    && expr.spec_value_at(masks@[x])@.len() > 0 && expr.spec_value_at(
                    masks@[x],
                )@.last() == value,
            forall|m2: u64|
                !masks@.contains(m2) ==> expr.spec_mask_has_value(m2) == old(
                    expr,
                ).spec_mask_has_value(m2),
            forall|m2: u64|
                !masks@.contains(m2) && old(expr).spec_mask_has_value(m2) ==> expr.spec_value_at(
                    m2,
                ) == old(expr).spec_value_at(m2),
            mi == 0 ==> g == 0u64,
            masks@ == seq![0u64] && mi > 0 ==> {
                &&& g == 0u64
                &&& expr.spec_mask_has_value(0u64)
                &&& expr.spec_value_at(0u64)@.len() > 0
                &&& expr.spec_value_at(0u64)@.last() == value
            },
        decreases masks@.len() - mi,
    {
        let ghost before = *expr;
        let m = masks[mi];
        expr.push_at_mask(m, value);
        g = g | m;
        proof {
            lemma_values_extend_push(before, *expr, m, value);
            lemma_values_extend_trans(*old(expr), before, *expr);
            lemma_values_extend_trans(expr_mid, before, *expr);
            lemma_grow_push(before, *expr, m, value);
            lemma_grow_trans(*old(expr), before, *expr, value);
            assert(expr.keys_dv() =~= before.keys_dv());
            if masks@ == seq![0u64] {
                assert(m == 0u64);
                assert((g | 0u64) == g) by (bit_vector);
                assert((0u64 | 0u64) == 0u64) by (bit_vector);
            }
            // stored lists carry the model at their end, and masks outside
            // the alternative set stay what they were
            assert(masks@.contains(m));
            assert forall|x: int|
                0 <= x < mi + 1 implies expr.spec_mask_has_value(#[trigger] masks@[x])
                && expr.spec_value_at(masks@[x])@.len() > 0 && expr.spec_value_at(
                masks@[x],
            )@.last() == value by {
                if x < mi && masks@[x] != m {
                    assert(expr.spec_value_at(masks@[x]) == before.spec_value_at(masks@[x]));
                }
            }
            assert forall|m2: u64| !masks@.contains(m2) implies expr.spec_mask_has_value(m2)
                == old(expr).spec_mask_has_value(m2) by {
                assert(m2 != m);
            }
            assert forall|m2: u64|
                !masks@.contains(m2) && old(expr).spec_mask_has_value(m2) implies expr
                .spec_value_at(m2) == old(expr).spec_value_at(m2) by {
                assert(m2 != m);
            }
        }
        mi += 1;
    }
    proof {
        // the frozen mid table's masks are the final table's masks
        lemma_alt_masks_stable(expr_mid, *expr, pairs@, pairs@.len() as int);
    }
    Ok(g)
}

impl<M: Copy> BlockState<M> {
    /// Builds a multipart table: one group per part, in declaration order,
    /// so that query results concatenate the fired parts as declared. A
    /// `when` clause expands into exactly the cross-product sub-masks of
    /// its properties' `|` alternatives — `part_installed` states it: the
    /// model list under each such sub-mask carries the part's model, and
    /// the part's group mask is their OR. Parts that collide on one exact
    /// sub-mask accumulate into the same model list. A part without `when`
    /// is unconditional: its group mask is zero and its model joins the
    /// list under mask zero, so it fires for every environment. An `OR`
    /// clause with no alternatives stores nothing: its group shares the
    /// zero mask, so it repeats whatever the zero-mask list holds. Fails
    /// only with `CapacityExceeded`, once the distinct atoms outgrow the
    /// mask width; a table whose parts cost at most the mask width in
    /// alternatives always builds.
    pub fn build_multipart(records: &Vec<MultipartRecord<M>>) -> (r: Result<Self, BuildError>)
        ensures
            match r {
                Ok(bs) => {
                    &&& bs.wf()
                    &&& bs.group@.len() == records@.len()
                    &&& items_from(bs.expr, records@, records@.len() as int)
                    &&& (forall|k: int|
                        0 <= k < records@.len() ==> when_atoms_known(
                            bs.expr,
                            (#[trigger] records@[k]).when,
                        ))
                    &&& (forall|k: int|
                        0 <= k < records@.len() ==> part_installed(
                            bs.expr,
                            bs.group@[k],
                            #[trigger] records@[k],
                        ))
                    &&& forall|k: int|
                        0 <= k < records@.len() && (#[trigger] records@[k]).when is None ==> {
                            &&& bs.group@[k] == 0u64
                            &&& bs.expr.spec_mask_has_value(0u64)
                            &&& bs.expr.spec_value_at(0u64)@.contains(records@[k].apply)
                        }
                },
                Err(e) => e == BuildError::CapacityExceeded,
            },
            (forall|k: int| 0 <= k < records@.len() ==> (#[trigger] records@[k]).when is None)
                ==> r is Ok,
            records_alt_count(records@, records@.len() as int) <= 64 ==> r is Ok,
    {
        let mut expr: Expression<Vec<M>> = Expression::default();
        let mut group: Vec<u64> = Vec::new();
        let mut i: usize = 0;
        while i < records.len()
            invariant
                expr.wf(),
                i <= records@.len(),
                group@.len() == i,
                expr.keys@.len() <= records_alt_count(records@, i as int),
                items_from(expr, records@, i as int),
                forall|k: int|
                    0 <= k < i ==> when_atoms_known(expr, (#[trigger] records@[k]).when),
                forall|k: int|
                    0 <= k < i ==> part_installed(expr, group@[k], #[trigger] records@[k]),
                forall|k: int|
                    0 <= k < i && (#[trigger] records@[k]).when is None ==> {
                        &&& group@[k] == 0u64
                        &&& expr.spec_mask_has_value(0u64)
                        &&& expr.spec_value_at(0u64)@.contains(records@[k].apply)
                    },
            decreases records@.len() - i,
        {
            let ghost before = expr;
            let ghost group_before = group@;
            match &records[i].when {
                Option::None => {
                    expr.push_at_mask(0u64, records[i].apply);
                    group.push(0u64);
                    proof {
                        lemma_values_extend_push(before, expr, 0u64, records@[i as int].apply);
                        lemma_grow_push(before, expr, 0u64, records@[i as int].apply);
                        assert(expr.keys_dv() =~= before.keys_dv());
                        let vs = expr.spec_value_at(0u64)@;
                        assert(vs[vs.len() - 1] == records@[i as int].apply);
                        assert(vs.contains(records@[i as int].apply));
                    }
                },
                Option::Some(w) => {
                    match w {
                        WhenRecord::And(pairs) => {
                            proof {
                                assert(when_alt_count(records@[i as int].when) == pair_alt_count(
                                    pairs@,
                                    pairs@.len() as int,
                                ));
                            }
                            match insert_case(&mut expr, pairs, records[i].apply) {
                                Ok(g) => {
                                    group.push(g);
                                    proof {
                                        // the part's cross-product masks carry its model
                                        let ms = spec_alt_masks(expr, pairs@, pairs@.len()
                                            as int);
                                        assert forall|x: int| 0 <= x < ms.len() implies expr
                                            .spec_mask_has_value(#[trigger] ms[x]) && expr
                                            .spec_value_at(ms[x])@.contains(
                                            records@[i as int].apply,
                                        ) by {
                                            let vs = expr.spec_value_at(ms[x])@;
                                            assert(vs[vs.len() - 1] == records@[i as int].apply);
                                        }
                                        assert(part_installed(
                                            expr,
                                            g,
                                            records@[i as int],
                                        ));
                                    }
                                },
                                Err(e) => {
                                    proof {
                                        lemma_records_alt_count_mono(
                                            records@,
                                            i as int + 1,
                                            records@.len() as int,
                                        );
                                    }
                                    return Err(e);
                                },
                            }
                        },
                        WhenRecord::Or(list) => {
                            let ghost entry_len = expr.keys@.len() as int;
                            proof {
                                assert(when_alt_count(records@[i as int].when) == or_alt_count(
                                    list@,
                                    list@.len() as int,
                                ));
                                lemma_grow_unchanged(before, expr, records@[i as int].apply);
                            }
                            let mut g: u64 = 0;
                            let mut li: usize = 0;
                            while li < list.len()
                                invariant
                                    expr.wf(),
                                    li <= list@.len(),
                                    i < records@.len(),
                                    records@[i as int].when is Some,
                                    when_alt_count(records@[i as int].when) == or_alt_count(
                                        list@,
                                        list@.len() as int,
                                    ),
                                    entry_len <= records_alt_count(records@, i as int),
                                    expr.keys@.len() <= entry_len + or_alt_count(list@, li as int),
                                    values_extend(before, expr),
                                    values_grow_with(before, expr, records@[i as int].apply),
                                    before.keys@.len() <= expr.keys@.len(),
                                    forall|n: int|
                                        0 <= n < before.keys@.len() ==> #[trigger] expr.keys_dv()[n]
                                            == before.keys_dv()[n],
                                    forall|n: int|
                                        0 <= n < li ==> pairs_atoms_known(
                                            expr,
                                            (#[trigger] list@[n])@,
                                        ),
                                    g == or_list_all(expr, list@, li as int),
                                    forall|li2: int, x: int|
                                        0 <= li2 < li && 0 <= x < spec_alt_masks(
                                            expr,
                                            list@[li2]@,
                                            list@[li2]@.len() as int,
                                        ).len() ==> expr.spec_mask_has_value(
                                            #[trigger] spec_alt_masks(
                                                expr,
                                                list@[li2]@,
                                                list@[li2]@.len() as int,
                                            )[x],
                                        ) && expr.spec_value_at(
                                            spec_alt_masks(
                                                expr,
                                                list@[li2]@,
                                                list@[li2]@.len() as int,
                                            )[x],
                                        )@.contains(records@[i as int].apply),
                                decreases list@.len() - li,
                            {
                                let ghost mid = expr;
                                match insert_case(&mut expr, &list[li], records[i].apply) {
                                    Ok(gg) => {
                                        g = g | gg;
                                        proof {
                                            lemma_or_list_all_stable(
                                                mid,
                                                expr,
                                                list@,
                                                li as int,
                                            );
                                            // the new conjunction's masks carry the model
                                            let ms = spec_alt_masks(
                                                expr,
                                                list@[li as int]@,
                                                list@[li as int]@.len() as int,
                                            );
                                            assert forall|x: int| 0 <= x < ms.len() implies expr
                                                .spec_mask_has_value(#[trigger] ms[x]) && expr
                                                .spec_value_at(ms[x])@.contains(
                                                records@[i as int].apply,
                                            ) by {
                                                let vs = expr.spec_value_at(ms[x])@;
                                                assert(vs[vs.len() - 1] == records@[i
                                                    as int].apply);
                                            }
                                            // the earlier conjunctions' facts stand
                                            assert forall|li2: int, x: int|
                                                0 <= li2 < li && 0 <= x < spec_alt_masks(
                                                    expr,
                                                    list@[li2]@,
                                                    list@[li2]@.len() as int,
                                                ).len() implies expr.spec_mask_has_value(
                                                #[trigger] spec_alt_masks(
                                                    expr,
                                                    list@[li2]@,
                                                    list@[li2]@.len() as int,
                                                )[x],
                                            ) && expr.spec_value_at(
                                                spec_alt_masks(
                                                    expr,
                                                    list@[li2]@,
                                                    list@[li2]@.len() as int,
                                                )[x],
                                            )@.contains(records@[i as int].apply) by {
                                                lemma_alt_masks_stable(
                                                    mid,
                                                    expr,
                                                    list@[li2]@,
                                                    list@[li2]@.len() as int,
                                                );
                                                let m = spec_alt_masks(
                                                    mid,
                                                    list@[li2]@,
                                                    list@[li2]@.len() as int,
                                                )[x];
                                                lemma_prefix_contains(
                                                    mid.spec_value_at(m)@,
                                                    expr.spec_value_at(m)@,
                                                    records@[i as int].apply,
                                                );
                                            }
                                        }
                                    },
                                    Err(e) => {
                                        proof {
                                            lemma_or_alt_count_mono(
                                                list@,
                                                li as int + 1,
                                                list@.len() as int,
                                            );
                                            lemma_records_alt_count_mono(
                                                records@,
                                                i as int + 1,
                                                records@.len() as int,
                                            );
                                        }
                                        return Err(e);
                                    },
                                }
                                proof {
                                    lemma_values_extend_trans(before, mid, expr);
                                    lemma_grow_trans(before, mid, expr, records@[i as int].apply);
                                    assert forall|n: int| 0 <= n < li implies pairs_atoms_known(
                                        expr,
                                        (#[trigger] list@[n])@,
                                    ) by {
                                        lemma_pairs_atoms_known_grow(mid, expr, list@[n]@);
                                    }
                                }
                                li += 1;
                            }
                            group.push(g);
                            proof {
                                assert(part_installed(expr, g, records@[i as int]));
                            }
                        },
                    }
                },
            }
            i += 1;
            proof {
                if !(records@[i - 1].when is None) {
                    lemma_values_extend_refl(expr);
                }
                lemma_items_from_step(before, expr, records@, i - 1);
                assert forall|k: int| 0 <= k < i - 1 implies when_atoms_known(
                    expr,
                    (#[trigger] records@[k]).when,
                ) by {
                    lemma_when_atoms_known_grow(before, expr, records@[k].when);
                }
                assert forall|k: int| 0 <= k < i - 1 implies part_installed(
                    expr,
                    group@[k],
                    #[trigger] records@[k],
                ) by {
                    assert(group@[k] == group_before[k]);
                    lemma_part_installed_grow(before, expr, group@[k], records@[k]);
                }
                assert forall|k: int|
                    0 <= k < i && (#[trigger] records@[k]).when is None implies {
                    &&& group@[k] == 0u64
                    &&& expr.spec_mask_has_value(0u64)
                    &&& expr.spec_value_at(0u64)@.contains(records@[k].apply)
                } by {
                    assert(group@[k] == group_before.push(group@[i - 1])[k]);
                    if k < i - 1 {
                        assert(before.spec_mask_has_value(0u64));
                        assert(before.spec_value_at(0u64)@.contains(records@[k].apply));
                        assert(values_extend(before, expr));
                        lemma_prefix_contains(
                            before.spec_value_at(0u64)@,
                            expr.spec_value_at(0u64)@,
                            records@[k].apply,
                        );
                    }
                }
            }
        }
        Ok(BlockState { expr, group })
    }
}

} // verus!
