//! The model assembler: fetches raw records through providers, merges model
//! inheritance chains, resolves texture indirection, deduplicates oriented
//! placements, and builds the rule table of each block.

use vstd::prelude::*;

use crate::blockstate::BlockState;
use crate::blockstate::MultipartRecord;
use crate::blockstate::WhenRecord;
use crate::data_raw::ApplyRaw;
use crate::data_raw::AppliedModelRaw;
use crate::data_raw::BlockStateRaw;
use crate::data_raw::ModelRaw;
use crate::errors::BuildError;
use crate::model::Model;
use crate::model::TextureGen;
use crate::model::TransformedModel;
use crate::util::Provider;
use crate::util::str_eq;

verus! {

/// Whether two placements name the same model with the same orientation.
pub open spec fn spec_same_apply(a: AppliedModelRaw, b: AppliedModelRaw) -> bool {
    a.x == b.x && a.y == b.y && a.uvlock == b.uvlock && a.model@ == b.model@
}

/// Whether two placements name the same model with the same orientation.
fn same_apply(a: &AppliedModelRaw, b: &AppliedModelRaw) -> (r: bool)
    ensures
        r == spec_same_apply(*a, *b),
{
    a.x == b.x && a.y == b.y && a.uvlock == b.uvlock && str_eq(a.model.as_str(), b.model.as_str())
}

/// The handle memoized under `name` in a name cache, first entry winning.
pub open spec fn handle_lookup(c: Seq<(String, u32)>, name: Seq<char>) -> Option<u32>
    decreases c.len(),
{
    if c.len() == 0 {
        Option::None
    } else if c[0].0@ == name {
        Option::Some(c[0].1)
    } else {
        handle_lookup(c.drop_first(), name)
    }
}

proof fn lemma_handle_lookup_skip(c: Seq<(String, u32)>, name: Seq<char>, i: int)
    requires
        0 <= i <= c.len(),
        forall|j: int| 0 <= j < i ==> (#[trigger] c[j]).0@ != name,
    ensures
        handle_lookup(c, name) == handle_lookup(c.skip(i), name),
    decreases i,
{
    if i > 0 {
        assert(c[0].0@ != name);
        lemma_handle_lookup_skip(c.drop_first(), name, i - 1);
        assert(c.drop_first().skip(i - 1) =~= c.skip(i));
    } else {
        assert(c.skip(0) =~= c);
    }
}

/// A memoized name keeps its handle in any cache that extends this one
/// entry for entry.
proof fn lemma_handle_lookup_prefix(c1: Seq<(String, u32)>, c2: Seq<(String, u32)>, name: Seq<char>)
    requires
        c1.len() <= c2.len(),
        forall|i: int| 0 <= i < c1.len() ==> #[trigger] c2[i] == c1[i],
        handle_lookup(c1, name) is Some,
    ensures
        handle_lookup(c2, name) == handle_lookup(c1, name),
    decreases c1.len(),
{
    assert(c1.len() > 0);
    assert(c2[0] == c1[0]);
    if c1[0].0@ != name {
        assert forall|i: int| 0 <= i < c1.drop_first().len() implies #[trigger] c2.drop_first()[i]
            == c1.drop_first()[i] by {
            assert(c2.drop_first()[i] == c2[i + 1]);
            assert(c1.drop_first()[i] == c1[i + 1]);
        }
        lemma_handle_lookup_prefix(c1.drop_first(), c2.drop_first(), name);
    }
}

/// The handle memoized for an equal placement, first entry winning.
pub open spec fn apply_lookup(c: Seq<(AppliedModelRaw, u32)>, v: AppliedModelRaw) -> Option<u32>
    decreases c.len(),
{
    if c.len() == 0 {
        Option::None
    } else if spec_same_apply(c[0].0, v) {
        Option::Some(c[0].1)
    } else {
        apply_lookup(c.drop_first(), v)
    }
}

proof fn lemma_apply_lookup_skip(c: Seq<(AppliedModelRaw, u32)>, v: AppliedModelRaw, i: int)
    requires
        0 <= i <= c.len(),
        forall|j: int| 0 <= j < i ==> !spec_same_apply((#[trigger] c[j]).0, v),
    ensures
        apply_lookup(c, v) == apply_lookup(c.skip(i), v),
    decreases i,
{
    if i > 0 {
        assert(!spec_same_apply(c[0].0, v));
        lemma_apply_lookup_skip(c.drop_first(), v, i - 1);
        assert(c.drop_first().skip(i - 1) =~= c.skip(i));
    } else {
        assert(c.skip(0) =~= c);
    }
}

/// Builds resolved models and rule tables from raw records, memoizing
/// resolved models by name and deduplicating oriented placements by
/// (model, x, y, uv-lock).
pub struct BlockModelBuilder {
    /// Names already resolved, each with its model arena handle.
    pub mdl_cache: Vec<(String, u32)>,
    /// The resolved model arena; handles index into it.
    pub models: Vec<Model>,
    /// The oriented placement arena; rule tables hold indexes into it.
    pub oriented: Vec<TransformedModel>,
    /// Placements already oriented, each with its arena handle.
    pub oriented_cache: Vec<(AppliedModelRaw, u32)>,
}

impl BlockModelBuilder {
    /// Structural invariant: every cached handle points into its arena,
    /// every dedup entry's handle carries that entry's orientation, and
    /// every model has its six face slots per element.
    pub open spec fn wf(self) -> bool {
        &&& (forall|i: int|
            0 <= i < self.mdl_cache@.len() ==> (#[trigger] self.mdl_cache@[i]).1 < self.models@.len())
        &&& (forall|i: int|
            0 <= i < self.oriented@.len() ==> (#[trigger] self.oriented@[i]).model
                < self.models@.len())
        &&& (forall|i: int|
            0 <= i < self.oriented_cache@.len() ==> (#[trigger] self.oriented_cache@[i]).1
                < self.oriented@.len())
        &&& (forall|i: int|
            0 <= i < self.oriented_cache@.len() ==> {
                let tm = self.oriented@[(#[trigger] self.oriented_cache@[i]).1 as int];
                &&& tm.x == self.oriented_cache@[i].0.x
                &&& tm.y == self.oriented_cache@[i].0.y
                &&& tm.uvlock == self.oriented_cache@[i].0.uvlock
                &&& handle_lookup(self.mdl_cache@, self.oriented_cache@[i].0.model@) == Some(
                    tm.model,
                )
            })
        &&& (forall|i: int| 0 <= i < self.models@.len() ==> (#[trigger] self.models@[i]).wf())
        &&& self.models@.len() <= 0xffff_ffff
        &&& self.oriented@.len() <= 0xffff_ffff
    }

    /// An empty builder: no models resolved, no placements oriented.
    pub fn new() -> (r: Self)
        ensures
            r.wf(),
            r.models@.len() == 0,
            r.oriented@.len() == 0,
    {
        BlockModelBuilder {
            mdl_cache: Vec::new(),
            models: Vec::new(),
            oriented: Vec::new(),
            oriented_cache: Vec::new(),
        }
    }

    /// Resolves the model `name`: fetches its raw record, merges ancestors
    /// under it while a parent is declared, resolves every texture
    /// reference, and memoizes the result: a name already resolved is
    /// answered from the cache, fetching and converting nothing, and a
    /// fresh resolution is recorded under the name. A chain deeper than the
    /// bound is treated as dead. Arenas only grow, so handles stay valid.
    pub fn resolve_model<MP: Provider<Item = ModelRaw>, TG: TextureGen>(
        &mut self,
        name: &String,
        mdl_pvd: &mut MP,
        tex_gen: &mut TG,
    ) -> (r: Result<u32, BuildError>)
        requires
            old(self).wf(),
        ensures
            final(self).wf(),
            old(self).models@.len() <= final(self).models@.len(),
            old(self).oriented@ == final(self).oriented@,
            old(self).oriented_cache@ == final(self).oriented_cache@,
            old(self).mdl_cache@.len() <= final(self).mdl_cache@.len(),
            forall|i: int|
                0 <= i < old(self).mdl_cache@.len() ==> #[trigger] final(self).mdl_cache@[i]
                    == old(self).mdl_cache@[i],
            forall|i: int|
                0 <= i < old(self).models@.len() ==> old(self).models@[i] == final(self).models@[i],
            match handle_lookup(old(self).mdl_cache@, name@) {
                Option::Some(h0) => r == Ok::<u32, BuildError>(h0) && *final(self) == *old(self),
                Option::None => true,
            },
            match r {
                Ok(h) => {
                    &&& h < final(self).models@.len()
                    &&& handle_lookup(final(self).mdl_cache@, name@) == Option::Some(h)
                },
                Err(e) => !(e matches BuildError::CapacityExceeded) && !(
                e matches BuildError::DuplicateRule),
            },
    {
        let mut ci: usize = 0;
        let ncache = self.mdl_cache.len();
        while ci < ncache
            invariant
                self.wf(),
                ncache == self.mdl_cache@.len(),
                ci <= ncache,
                forall|j: int| 0 <= j < ci ==> (#[trigger] self.mdl_cache@[j]).0@ != name@,
            decreases ncache - ci,
        {
            if str_eq(self.mdl_cache[ci].0.as_str(), name.as_str()) {
                let h = self.mdl_cache[ci].1;
                proof {
                    lemma_handle_lookup_skip(self.mdl_cache@, name@, ci as int);
                    assert(self.mdl_cache@.skip(ci as int)[0] == self.mdl_cache@[ci as int]);
                    assert(self.mdl_cache@.skip(ci as int).len() > 0);
                }
                return Ok(h);
            }
            ci += 1;
        }
        proof {
            lemma_handle_lookup_skip(self.mdl_cache@, name@, ncache as int);
            assert(self.mdl_cache@.skip(ncache as int).len() == 0);
        }
        let mut raw = match mdl_pvd.provide(name.as_str()) {
            Some(raw) => raw,
            None => {
                return Err(BuildError::NotFound(name.clone()));
            },
        };
        let mut depth: usize = 0;
        while depth < 64
            invariant
                self.wf(),
                *self == *old(self),
                handle_lookup(old(self).mdl_cache@, name@) is None,
                depth <= 64,
            decreases 64 - depth,
        {
            let pname = match &raw.parent {
                Some(p) => p.clone(),
                None => {
                    break ;
                },
            };
            let parent = match mdl_pvd.provide(pname.as_str()) {
                Some(p) => p,
                None => {
                    return Err(BuildError::NotFound(pname));
                },
            };
            raw.merge_parent(&parent);
            depth += 1;
        }
        if raw.parent.is_some() {
            // the inheritance chain never reached a root within the bound
            let pname = match &raw.parent {
                Some(p) => p.clone(),
                None => String::new(),
            };
            return Err(BuildError::NotFound(pname));
        }
        let empty_table: Vec<(String, String)> = Vec::new();
        let m = match &raw.textures {
            Some(table) => Model::from_raw(&raw, table, tex_gen),
            None => Model::from_raw(&raw, &empty_table, tex_gen),
        };
        let m = match m {
            Ok(m) => m,
            Err(e) => {
                return Err(e);
            },
        };
        if self.models.len() >= 0xffff_ffff {
            return Err(BuildError::NotFound(name.clone()));
        }
        let h = self.models.len() as u32;
        self.models.push(m);
        let pair = (name.clone(), h);
        self.mdl_cache.push(pair);
        proof {
            let c = self.mdl_cache@;
            assert forall|j: int| 0 <= j < c.len() - 1 implies (#[trigger] c[j]).0@ != name@ by {
                assert(c[j] == old(self).mdl_cache@[j]);
            }
            lemma_handle_lookup_skip(c, name@, c.len() - 1);
            assert(c.skip(c.len() - 1)[0] == c[c.len() - 1]);
            assert(c.skip(c.len() - 1).len() == 1);
            // a grown memo keeps every dedup entry's model binding
            assert forall|i: int| 0 <= i < self.oriented_cache@.len() implies handle_lookup(
                self.mdl_cache@,
                (#[trigger] self.oriented_cache@[i]).0.model@,
            ) == Some(self.oriented@[self.oriented_cache@[i].1 as int].model) by {
                lemma_handle_lookup_prefix(
                    old(self).mdl_cache@,
                    self.mdl_cache@,
                    self.oriented_cache@[i].0.model@,
                );
            }
        }
        Ok(h)
    }

    /// Orients the placement `v`: resolves its model and deduplicates by
    /// (model, x, y, uv-lock) — an equal placement already oriented is
    /// answered with its existing handle, changing nothing; a fresh one is
    /// recorded. Arenas only grow, so handles stay valid.
    pub fn transf_apply<MP: Provider<Item = ModelRaw>, TG: TextureGen>(
        &mut self,
        v: &AppliedModelRaw,
        mdl_pvd: &mut MP,
        tex_gen: &mut TG,
    ) -> (r: Result<u32, BuildError>)
        requires
            old(self).wf(),
        ensures
            final(self).wf(),
            old(self).oriented@.len() <= final(self).oriented@.len(),
            old(self).mdl_cache@.len() <= final(self).mdl_cache@.len(),
            forall|i: int|
                0 <= i < old(self).mdl_cache@.len() ==> #[trigger] final(self).mdl_cache@[i]
                    == old(self).mdl_cache@[i],
            forall|i: int|
                0 <= i < old(self).oriented@.len() ==> old(self).oriented@[i] == final(self).oriented@[i],
            match apply_lookup(old(self).oriented_cache@, *v) {
                Option::Some(h0) => r == Ok::<u32, BuildError>(h0) && *final(self) == *old(self),
                Option::None => true,
            },
            match r {
                Ok(h) => {
                    &&& h < final(self).oriented@.len()
                    &&& final(self).oriented@[h as int].x == v.x
                    &&& final(self).oriented@[h as int].y == v.y
                    &&& final(self).oriented@[h as int].uvlock == v.uvlock
                    &&& apply_lookup(final(self).oriented_cache@, *v) == Option::Some(h)
                    &&& handle_lookup(final(self).mdl_cache@, v.model@) == Some(
                        final(self).oriented@[h as int].model,
                    )
                },
                Err(e) => !(e matches BuildError::CapacityExceeded) && !(
                e matches BuildError::DuplicateRule),
            },
    {
        let mut ci: usize = 0;
        let ncache = self.oriented_cache.len();
        while ci < ncache
            invariant
                self.wf(),
                ncache == self.oriented_cache@.len(),
                ci <= ncache,
                forall|j: int|
                    0 <= j < ci ==> !spec_same_apply((#[trigger] self.oriented_cache@[j]).0, *v),
            decreases ncache - ci,
        {
            if same_apply(&self.oriented_cache[ci].0, v) {
                let h = self.oriented_cache[ci].1;
                proof {
                    lemma_apply_lookup_skip(self.oriented_cache@, *v, ci as int);
                    assert(self.oriented_cache@.skip(ci as int)[0] == self.oriented_cache@[ci
                        as int]);
                    assert(self.oriented_cache@.skip(ci as int).len() > 0);
                    assert(self.oriented_cache@[ci as int].0.model@ == v.model@);
                }
                return Ok(h);
            }
            ci += 1;
        }
        proof {
            lemma_apply_lookup_skip(self.oriented_cache@, *v, ncache as int);
            assert(self.oriented_cache@.skip(ncache as int).len() == 0);
        }
        let model = match self.resolve_model(&v.model, mdl_pvd, tex_gen) {
            Ok(h) => h,
            Err(e) => {
                return Err(e);
            },
        };
        if self.oriented.len() >= 0xffff_ffff {
            return Err(BuildError::NotFound(v.model.clone()));
        }
        let h = self.oriented.len() as u32;
        let tm = TransformedModel::from_mxy(model, v.x, v.y, v.uvlock);
        self.oriented.push(tm);
        let entry = (
            AppliedModelRaw { x: v.x, y: v.y, model: v.model.clone(), uvlock: v.uvlock },
            h,
        );
        self.oriented_cache.push(entry);
        proof {
            let c = self.oriented_cache@;
            assert forall|j: int| 0 <= j < c.len() - 1 implies !spec_same_apply(
                (#[trigger] c[j]).0,
                *v,
            ) by {
                assert(c[j] == old(self).oriented_cache@[j]);
            }
            assert(spec_same_apply(c[c.len() - 1].0, *v));
            lemma_apply_lookup_skip(c, *v, c.len() - 1);
            assert(c.skip(c.len() - 1)[0] == c[c.len() - 1]);
            assert(c.skip(c.len() - 1).len() == 1);
        }
        Ok(h)
    }

    /// Builds the rule table of the block `name`: fetches its raw
    /// blockstate through the provider and hands it to `build_from_raw`,
    /// which carries the record-level contract. Fails with `NotFound` when
    /// the blockstate record is missing, and otherwise with whatever
    /// resolving a rule reports first.
    pub fn build<
        BP: Provider<Item = BlockStateRaw>,
        MP: Provider<Item = ModelRaw>,
        TG: TextureGen,
    >(
        &mut self,
        name: &str,
        bs_pvd: &mut BP,
        mdl_pvd: &mut MP,
        tex_gen: &mut TG,
    ) -> (r: Result<BlockState<u32>, BuildError>)
        requires
            old(self).wf(),
        ensures
            final(self).wf(),
            old(self).oriented@.len() <= final(self).oriented@.len(),
            match r {
                Ok(bs) => {
                    &&& bs.wf()
                    &&& handles_in(bs, final(self).oriented@.len() as int)
                },
                Err(_) => true,
            },
    {
        let bs_raw = match bs_pvd.provide(name) {
            Some(b) => b,
            None => {
                return Err(BuildError::NotFound(name.to_owned()));
            },
        };
        self.build_from_raw(bs_raw, mdl_pvd, tex_gen)
    }

    /// Builds a rule table from an already-fetched raw blockstate record:
    /// orients every referenced placement and installs the rules under
    /// their condition masks. On success a record sequence — one per raw
    /// rule, carrying its condition text (or its `when` content) and the
    /// handle of a placement oriented exactly as the rule's first
    /// alternative asks — provably realizes the table, as
    /// `variants_built_ok` and `multipart_built_ok` state.
    pub fn build_from_raw<MP: Provider<Item = ModelRaw>, TG: TextureGen>(
        &mut self,
        bs_raw: BlockStateRaw,
        mdl_pvd: &mut MP,
        tex_gen: &mut TG,
    ) -> (r: Result<BlockState<u32>, BuildError>)
        requires
            old(self).wf(),
        ensures
            final(self).wf(),
            old(self).oriented@.len() <= final(self).oriented@.len(),
            match r {
                Ok(bs) => {
                    &&& bs.wf()
                    &&& handles_in(bs, final(self).oriented@.len() as int)
                },
                Err(_) => true,
            },
            match bs_raw {
                BlockStateRaw::Variants(v_raw) => match r {
                    Ok(bs) => variants_built_ok(*final(self), v_raw.0@, bs),
                    Err(_) => true,
                },
                BlockStateRaw::MuitiPart(m_raw) => match r {
                    Ok(bs) => multipart_built_ok(*final(self), m_raw.0@, bs),
                    Err(_) => true,
                },
            },
    {
        match bs_raw {
            BlockStateRaw::Variants(v_raw) => {
                let list = &v_raw.0;
                let mut records: Vec<(String, u32)> = Vec::new();
                let mut i: usize = 0;
                while i < list.len()
                    invariant
                        self.wf(),
                        i <= list@.len(),
                        records@.len() == i,
                        old(self).oriented@.len() <= self.oriented@.len(),
                        forall|k: int|
                            0 <= k < records@.len() ==> ((#[trigger] records@[k]).1 as int)
                                < self.oriented@.len(),
                        forall|k: int|
                            0 <= k < records@.len() ==> (#[trigger] records@[k]).0@
                                == list@[k].0@,
                        forall|k: int|
                            0 <= k < records@.len() ==> {
                                let a = list@[k].1;
                                &&& a.spec_nonempty()
                                &&& self.oriented@[(#[trigger] records@[k]).1 as int].x
                                    == a.spec_first().x
                                &&& self.oriented@[records@[k].1 as int].y == a.spec_first().y
                                &&& self.oriented@[records@[k].1 as int].uvlock
                                    == a.spec_first().uvlock
                                &&& handle_lookup(self.mdl_cache@, a.spec_first().model@)
                                    == Some(self.oriented@[records@[k].1 as int].model)
                            },
                    decreases list@.len() - i,
                {
                    let ghost before_step = *self;
                    let apply = &list[i].1;
                    let handle = match Self::first_of_apply(apply) {
                        Some(first) => match self.transf_apply(first, mdl_pvd, tex_gen) {
                            Ok(h) => h,
                            Err(e) => {
                                return Err(e);
                            },
                        },
                        None => {
                            return Err(BuildError::NotFound(list[i].0.clone()));
                        },
                    };
                    let rec = (list[i].0.clone(), handle);
                    records.push(rec);
                    proof {
                        assert forall|k: int| 0 <= k < records@.len() - 1 implies handle_lookup(
                            self.mdl_cache@,
                            list@[k].1.spec_first().model@,
                        ) == Some(self.oriented@[(#[trigger] records@[k]).1 as int].model) by {
                            lemma_handle_lookup_prefix(
                                before_step.mdl_cache@,
                                self.mdl_cache@,
                                list@[k].1.spec_first().model@,
                            );
                        }
                    }
                    i += 1;
                }
                let built = BlockState::build_variants(&records);
                proof {
                    match &built {
                        Ok(bs) => {
                            let installed = choose|installed: Seq<u64>|
                                {
                                    &&& crate::blockstate::variants_state(
                                        crate::blockstate::variant_conds(records@),
                                        records@.len() as int,
                                    ) == Some((bs.expr.keys_dv(), installed))
                                    &&& bs.expr.values@.len() == installed.len()
                                    &&& installed.len() == records@.len()
                                    &&& (forall|k: int|
                                        0 <= k < installed.len() ==> (
                                        #[trigger] bs.expr.values@[k]).0 == installed[k])
                                    &&& (forall|k: int|
                                        0 <= k < installed.len() ==> (
                                        #[trigger] bs.expr.values@[k]).1@ =~= seq![
                                            records@[k].1,
                                        ])
                                };
                            assert forall|m: u64, j: int|
                                bs.expr.spec_mask_has_value(m) && 0 <= j < bs.expr.spec_value_at(
                                    m,
                                )@.len() implies ((#[trigger] bs.expr.spec_value_at(m)@[j])
                                as int) < self.oriented@.len() by {
                                let w = bs.expr.spec_value_idx(m);
                                assert(bs.expr.values@[w].1@ =~= seq![records@[w].1]);
                                assert(bs.expr.spec_value_at(m)@[j] == records@[w].1);
                            }
                            assert(variants_built_ok(*self, v_raw.0@, *bs)) by {
                                assert(records@.len() == v_raw.0@.len());
                                assert(crate::blockstate::variants_state(
                                    crate::blockstate::variant_conds(records@),
                                    records@.len() as int,
                                ) == Some((bs.expr.keys_dv(), installed)));
                            }
                        },
                        Err(_) => {},
                    }
                }
                built
            },
            BlockStateRaw::MuitiPart(m_raw) => {
                let list = &m_raw.0;
                let mut records: Vec<MultipartRecord<u32>> = Vec::new();
                let mut i: usize = 0;
                while i < list.len()
                    invariant
                        self.wf(),
                        i <= list@.len(),
                        records@.len() == i,
                        old(self).oriented@.len() <= self.oriented@.len(),
                        forall|k: int|
                            0 <= k < records@.len() ==> ((#[trigger] records@[k]).apply as int)
                                < self.oriented@.len(),
                        forall|k: int|
                            0 <= k < records@.len() ==> match (#[trigger] records@[k]).when {
                                Option::None => list@[k].0 is None,
                                Option::Some(w) => match list@[k].0 {
                                    Option::Some(w0) => crate::blockstate::when_eqv(w, w0),
                                    Option::None => false,
                                },
                            },
                        forall|k: int|
                            0 <= k < records@.len() ==> {
                                let a = list@[k].1;
                                &&& a.spec_nonempty()
                                &&& self.oriented@[(#[trigger] records@[k]).apply as int].x
                                    == a.spec_first().x
                                &&& self.oriented@[records@[k].apply as int].y
                                    == a.spec_first().y
                                &&& self.oriented@[records@[k].apply as int].uvlock
                                    == a.spec_first().uvlock
                                &&& handle_lookup(self.mdl_cache@, a.spec_first().model@)
                                    == Some(self.oriented@[records@[k].apply as int].model)
                            },
                    decreases list@.len() - i,
                {
                    let ghost before_step = *self;
                    let apply = &list[i].1;
                    let handle = match Self::first_of_apply(apply) {
                        Some(first) => match self.transf_apply(first, mdl_pvd, tex_gen) {
                            Ok(h) => h,
                            Err(e) => {
                                return Err(e);
                            },
                        },
                        None => {
                            // a part whose rule value holds no placement
                            return Err(BuildError::NotFound("model".to_owned()));
                        },
                    };
                    let when = match &list[i].0 {
                        Option::None => Option::None,
                        Option::Some(w) => Option::Some(Self::clone_when(w)),
                    };
                    let rec = MultipartRecord { when, apply: handle };
                    records.push(rec);
                    proof {
                        assert forall|k: int| 0 <= k < records@.len() - 1 implies handle_lookup(
                            self.mdl_cache@,
                            list@[k].1.spec_first().model@,
                        ) == Some(
                            self.oriented@[(#[trigger] records@[k]).apply as int].model,
                        ) by {
                            lemma_handle_lookup_prefix(
                                before_step.mdl_cache@,
                                self.mdl_cache@,
                                list@[k].1.spec_first().model@,
                            );
                        }
                    }
                    i += 1;
                }
                let built = BlockState::build_multipart(&records);
                proof {
                    match &built {
                        Ok(bs) => {
                            assert forall|m: u64, j: int|
                                bs.expr.spec_mask_has_value(m) && 0 <= j < bs.expr.spec_value_at(
                                    m,
                                )@.len() implies ((#[trigger] bs.expr.spec_value_at(m)@[j])
                                as int) < self.oriented@.len() by {
                                let k = choose|k: int|
                                    0 <= k < records@.len() && bs.expr.spec_value_at(m)@[j]
                                        == records@[k].apply;
                                assert(((records@[k].apply) as int) < self.oriented@.len());
                            }
                            assert(multipart_built_ok(*self, m_raw.0@, *bs)) by {
                                assert(records@.len() == m_raw.0@.len());
                                assert(crate::blockstate::items_from(
                                    bs.expr,
                                    records@,
                                    records@.len() as int,
                                ));
                            }
                        },
                        Err(_) => {},
                    }
                }
                built
            },
        }
    }

    /// The first placement of a rule value, or `None` for an empty list.
    fn first_of_apply(apply: &ApplyRaw) -> (r: Option<&AppliedModelRaw>)
        ensures
            match r {
                Some(p) => apply.spec_nonempty() && *p == apply.spec_first(),
                None => !apply.spec_nonempty(),
            },
    {
        match apply {
            ApplyRaw::Item(p) => Some(p),
            ApplyRaw::Array(list) => {
                if list.len() == 0 {
                    None
                } else {
                    Some(&list[0])
                }
            },
        }
    }

    /// A copy of a `when` clause with the same content.
    fn clone_when(w: &WhenRecord) -> (r: WhenRecord)
        ensures
            crate::blockstate::when_eqv(r, *w),
    {
        match w {
            WhenRecord::And(pairs) => WhenRecord::And(Self::clone_pairs(pairs)),
            WhenRecord::Or(list) => {
                let mut out: Vec<Vec<(String, String)>> = Vec::new();
                let mut i: usize = 0;
                while i < list.len()
                    invariant
                        i <= list@.len(),
                        out@.len() == i,
                        forall|j: int|
                            0 <= j < i ==> crate::blockstate::pairs_eqv(
                                (#[trigger] out@[j])@,
                                list@[j]@,
                            ),
                    decreases list@.len() - i,
                {
                    let p = Self::clone_pairs(&list[i]);
                    out.push(p);
                    i += 1;
                }
                WhenRecord::Or(out)
            },
        }
    }

    /// A copy of the property pairs of one AND-conjunction, with the same
    /// content.
    fn clone_pairs(pairs: &Vec<(String, String)>) -> (r: Vec<(String, String)>)
        ensures
            crate::blockstate::pairs_eqv(r@, pairs@),
    {
        let mut out: Vec<(String, String)> = Vec::new();
        let mut i: usize = 0;
        while i < pairs.len()
            invariant
                i <= pairs@.len(),
                out@.len() == i,
                forall|j: int|
                    0 <= j < i ==> (#[trigger] out@[j]).0@ == pairs@[j].0@ && out@[j].1@
                        == pairs@[j].1@,
            decreases pairs@.len() - i,
        {
            let p = (pairs[i].0.clone(), pairs[i].1.clone());
            out.push(p);
            i += 1;
        }
        out
    }
}

/// The rule table stored under `name` in a blockstate cache, first entry
/// winning.
pub open spec fn cache_lookup(c: Seq<(String, BlockState<u32>)>, name: Seq<char>) -> Option<
    BlockState<u32>,
>
    decreases c.len(),
{
    if c.len() == 0 {
        Option::None
    } else if c[0].0@ == name {
        Option::Some(c[0].1)
    } else {
        cache_lookup(c.drop_first(), name)
    }
}

proof fn lemma_cache_lookup_skip(c: Seq<(String, BlockState<u32>)>, name: Seq<char>, i: int)
    requires
        0 <= i <= c.len(),
        forall|j: int| 0 <= j < i ==> (#[trigger] c[j]).0@ != name,
    ensures
        cache_lookup(c, name) == cache_lookup(c.skip(i), name),
    decreases i,
{
    if i > 0 {
        assert(c[0].0@ != name);
        lemma_cache_lookup_skip(c.drop_first(), name, i - 1);
        assert(c.drop_first().skip(i - 1) =~= c.skip(i));
    } else {
        assert(c.skip(0) =~= c);
    }
}

/// Every placement handle a rule table stores indexes into an oriented
/// placement arena of the given length.
pub open spec fn handles_in(bs: BlockState<u32>, bound: int) -> bool {
    forall|m: u64, j: int|
        bs.expr.spec_mask_has_value(m) && 0 <= j < bs.expr.spec_value_at(m)@.len() ==> ((
        #[trigger] bs.expr.spec_value_at(m)@[j]) as int) < bound
}

/// What a successful variants build realizes: a record per raw rule with
/// its condition text and a placement handle oriented as the rule's first
/// alternative asks, a single group covering every known bit, and one
/// one-model list installed per exact condition mask, as the declarative
/// variants model states.
pub open spec fn variants_built_ok(
    after: BlockModelBuilder,
    rules: Seq<(String, ApplyRaw)>,
    bs: BlockState<u32>,
) -> bool {
    exists|recs: Seq<(String, u32)>, inst: Seq<u64>|
        {
            &&& recs.len() == rules.len()
            &&& (forall|k: int|
                0 <= k < recs.len() ==> (#[trigger] recs[k]).0@ == rules[k].0@)
            &&& (forall|k: int|
                0 <= k < recs.len() ==> {
                    let a = rules[k].1;
                    &&& a.spec_nonempty()
                    &&& (((#[trigger] recs[k]).1) as int) < after.oriented@.len()
                    &&& after.oriented@[recs[k].1 as int].x == a.spec_first().x
                    &&& after.oriented@[recs[k].1 as int].y == a.spec_first().y
                    &&& after.oriented@[recs[k].1 as int].uvlock == a.spec_first().uvlock
                    &&& handle_lookup(after.mdl_cache@, a.spec_first().model@) == Some(
                        after.oriented@[recs[k].1 as int].model,
                    )
                })
            &&& bs.group@.len() == 1
            &&& bs.group@[0] == bs.expr.mask
            &&& crate::blockstate::variants_state(
                crate::blockstate::variant_conds(recs),
                recs.len() as int,
            ) == Some((bs.expr.keys_dv(), inst))
            &&& bs.expr.values@.len() == inst.len()
            &&& inst.len() == recs.len()
            &&& (forall|k: int|
                0 <= k < inst.len() ==> (#[trigger] bs.expr.values@[k]).0 == inst[k])
            &&& (forall|k: int|
                0 <= k < inst.len() ==> (#[trigger] bs.expr.values@[k]).1@ =~= seq![recs[k].1])
        }
}

/// What a successful multipart build realizes: a record per raw part with
/// its `when` content and a placement handle oriented as the part's first
/// alternative asks, one group per part in declaration order, every stored
/// model attributable to its part, and the unconditional parts carried by
/// zero-mask groups.
pub open spec fn multipart_built_ok(
    after: BlockModelBuilder,
    parts: Seq<(Option<WhenRecord>, ApplyRaw)>,
    bs: BlockState<u32>,
) -> bool {
    exists|recs: Seq<MultipartRecord<u32>>|
        {
            &&& recs.len() == parts.len()
            &&& (forall|k: int|
                0 <= k < recs.len() ==> match (#[trigger] recs[k]).when {
                    Option::None => parts[k].0 is None,
                    Option::Some(w) => match parts[k].0 {
                        Option::Some(w0) => crate::blockstate::when_eqv(w, w0),
                        Option::None => false,
                    },
                })
            &&& (forall|k: int|
                0 <= k < recs.len() ==> {
                    let a = parts[k].1;
                    &&& a.spec_nonempty()
                    &&& (((#[trigger] recs[k]).apply) as int) < after.oriented@.len()
                    &&& after.oriented@[recs[k].apply as int].x == a.spec_first().x
                    &&& after.oriented@[recs[k].apply as int].y == a.spec_first().y
                    &&& after.oriented@[recs[k].apply as int].uvlock == a.spec_first().uvlock
                    &&& handle_lookup(after.mdl_cache@, a.spec_first().model@) == Some(
                        after.oriented@[recs[k].apply as int].model,
                    )
                })
            &&& bs.group@.len() == recs.len()
            &&& crate::blockstate::items_from(bs.expr, recs, recs.len() as int)
            &&& (forall|k: int|
                0 <= k < recs.len() && (#[trigger] recs[k]).when is None ==> {
                    &&& bs.group@[k] == 0u64
                    &&& bs.expr.spec_mask_has_value(0u64)
                    &&& bs.expr.spec_value_at(0u64)@.contains(recs[k].apply)
                })
        }
}

/// Whether a cache key is the namespaced name of one of the given blocks.
pub open spec fn keyed_under(entry: Seq<char>, namespace: Seq<char>, blocks: Seq<String>) -> bool {
    exists|k: int| 0 <= k < blocks.len() && entry == namespace + seq![':'] + (#[trigger] blocks[k])@
}

/// A cache of built rule tables, keyed by namespaced block name, sharing
/// one model arena and one oriented placement arena.
pub struct ModelProvider {
    /// Built rule tables, each under its namespaced name.
    pub cache: Vec<(String, BlockState<u32>)>,
    /// The shared builder state: model and placement arenas.
    pub builder: BlockModelBuilder,
}

impl ModelProvider {
    /// Structural invariant: the builder and every cached table are well
    /// formed.
    pub open spec fn wf(self) -> bool {
        &&& self.builder.wf()
        &&& (forall|i: int| 0 <= i < self.cache@.len() ==> (#[trigger] self.cache@[i]).1.wf())
    }

    /// An empty provider.
    pub fn new() -> (r: Self)
        ensures
            r.wf(),
            r.cache@.len() == 0,
    {
        ModelProvider { cache: Vec::new(), builder: BlockModelBuilder::new() }
    }

    /// Builds the rule table of every named block and stores each under
    /// `namespace:name`. Tables already cached are untouched; a block whose
    /// build fails leaves no entry and is skipped, and the pass continues
    /// with the remaining blocks.
    pub fn build<
        BP: Provider<Item = BlockStateRaw>,
        MP: Provider<Item = ModelRaw>,
        TG: TextureGen,
    >(
        &mut self,
        namespace: &str,
        blocks: &Vec<String>,
        bs_pvd: &mut BP,
        mdl_pvd: &mut MP,
        tex_gen: &mut TG,
    )
        requires
            old(self).wf(),
        ensures
            final(self).wf(),
            old(self).cache@.len() <= final(self).cache@.len(),
            final(self).cache@.len() <= old(self).cache@.len() + blocks@.len(),
            old(self).builder.oriented@.len() <= final(self).builder.oriented@.len(),
            forall|i: int|
                0 <= i < old(self).cache@.len() ==> #[trigger] final(self).cache@[i] == old(
                    self,
                ).cache@[i],
            forall|j: int|
                old(self).cache@.len() <= j < final(self).cache@.len() ==> keyed_under(
                    (#[trigger] final(self).cache@[j]).0@,
                    namespace@,
                    blocks@,
                ),
            forall|j: int|
                old(self).cache@.len() <= j < final(self).cache@.len() ==> handles_in(
                    (#[trigger] final(self).cache@[j]).1,
                    final(self).builder.oriented@.len() as int,
                ),
    {
        let mut i: usize = 0;
        while i < blocks.len()
            invariant
                self.wf(),
                i <= blocks@.len(),
                old(self).cache@.len() <= self.cache@.len(),
                self.cache@.len() <= old(self).cache@.len() + i,
                old(self).builder.oriented@.len() <= self.builder.oriented@.len(),
                forall|k: int|
                    0 <= k < old(self).cache@.len() ==> #[trigger] self.cache@[k] == old(
                        self,
                    ).cache@[k],
                forall|j: int|
                    old(self).cache@.len() <= j < self.cache@.len() ==> keyed_under(
                        (#[trigger] self.cache@[j]).0@,
                        namespace@,
                        blocks@,
                    ),
                forall|j: int|
                    old(self).cache@.len() <= j < self.cache@.len() ==> handles_in(
                        (#[trigger] self.cache@[j]).1,
                        self.builder.oriented@.len() as int,
                    ),
            decreases blocks@.len() - i,
        {
            let name = &blocks[i];
            match self.builder.build(name.as_str(), bs_pvd, mdl_pvd, tex_gen) {
                Ok(bs) => {
                    let key = namespace.to_owned().concat(":").concat(name.as_str());
                    proof {
                        reveal_strlit(":");
                        assert(":"@ =~= seq![':']);
                        assert(key@ == namespace@ + seq![':'] + blocks@[i as int]@);
                    }
                    let entry = (key, bs);
                    self.cache.push(entry);
                    proof {
                        let jnew = self.cache@.len() - 1;
                        assert(self.cache@[jnew].0@ == namespace@ + seq![':'] + blocks@[i
                            as int]@);
                        assert(keyed_under(self.cache@[jnew].0@, namespace@, blocks@));
                    }
                },
                Err(_) => {
                    // a failing block is skipped; the pass continues
                },
            }
            i += 1;
        }
    }

    /// Queries the rule table stored under `name` with the environment
    /// `key`: the fired placements, in declaration order, as oriented
    /// placement handles. An unknown name yields nothing.
    pub fn get(&self, name: &str, key: &Vec<String>) -> (r: Vec<u32>)
        requires
            self.wf(),
        ensures
            r@ == match cache_lookup(self.cache@, name@) {
                Option::Some(bs) => bs.spec_query(key.deep_view()),
                Option::None => Seq::<u32>::empty(),
            },
    {
        let mut i: usize = 0;
        let n = self.cache.len();
        while i < n
            invariant
                self.wf(),
                n == self.cache@.len(),
                i <= n,
                forall|j: int| 0 <= j < i ==> (#[trigger] self.cache@[j]).0@ != name@,
            decreases n - i,
        {
            if str_eq(self.cache[i].0.as_str(), name) {
                proof {
                    lemma_cache_lookup_skip(self.cache@, name@, i as int);
                    assert(self.cache@.skip(i as int)[0] == self.cache@[i as int]);
                    assert(self.cache@.skip(i as int).len() > 0);
                }
                return self.cache[i].1.get(key);
            }
            i += 1;
        }
        proof {
            lemma_cache_lookup_skip(self.cache@, name@, n as int);
            assert(self.cache@.skip(n as int).len() == 0);
        }
        Vec::new()
    }

    /// The resolved model arena that placement handles index into.
    pub fn models(&self) -> (r: &Vec<Model>)
        ensures
            r@ == self.builder.models@,
    {
        &self.builder.models
    }

    /// The oriented placement under a handle from `get`.
    pub fn oriented(&self, handle: u32) -> (r: Option<&TransformedModel>)
        ensures
            match r {
                Some(tm) => (handle as int) < self.builder.oriented@.len() && *tm
                    == self.builder.oriented@[handle as int],
                None => (handle as int) >= self.builder.oriented@.len(),
            },
    {
        if (handle as usize) < self.builder.oriented.len() {
            Some(&self.builder.oriented[handle as usize])
        } else {
            None
        }
    }
}

} // verus!
