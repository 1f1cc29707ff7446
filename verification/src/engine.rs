use vstd::prelude::*;

use crate::errors::FindReplaceError;
use crate::grouping::{flatten_groups, group_pairs, keyed};
use crate::pattern::{replaced, FindReplaceContext};
use crate::store::{field_ord_spec, Collection};

verus! {

/// The target ordinal the engine resolves for one schema: `None` targets
/// every field — either no field name was given, or the named field is
/// absent from this schema (the deliberate fall-back, not an error).
pub open spec fn resolved_ord(
    schema_fields: Seq<Seq<char>>,
    fname: Option<Seq<char>>,
) -> Option<int> {
    match fname {
        Option::None => Option::None,
        Option::Some(n) => field_ord_spec(schema_fields, n),
    }
}

/// The fields of one record after substituting the targeted fields:
/// every field when `ord` is `None`, the one field at `ord` otherwise
/// (a record shorter than the ordinal keeps all its fields).
pub open spec fn subst_fields(
    p: Seq<char>,
    rep: Seq<char>,
    fs: Seq<Seq<char>>,
    ord: Option<int>,
) -> Seq<Seq<char>> {
    match ord {
        Option::None => Seq::new(fs.len(), |i: int| replaced(p, rep, fs[i])),
        Option::Some(o) => if 0 <= o < fs.len() {
            fs.update(o, replaced(p, rep, fs[o]))
        } else {
            fs
        },
    }
}

/// The fields a record under the given schema holds after the run.
pub open spec fn record_result(
    p: Seq<char>,
    rep: Seq<char>,
    schema_fields: Seq<Seq<char>>,
    fname: Option<Seq<char>>,
    fs: Seq<Seq<char>>,
) -> Seq<Seq<char>> {
    subst_fields(p, rep, fs, resolved_ord(schema_fields, fname))
}

/// Whether the run rewrites record `id`: its substituted fields differ
/// from its stored fields.
pub open spec fn record_changes(
    recs: Map<u64, (u64, Seq<Seq<char>>)>,
    schemas: Map<u64, Seq<Seq<char>>>,
    p: Seq<char>,
    rep: Seq<char>,
    fname: Option<Seq<char>>,
    id: u64,
) -> bool {
    record_result(p, rep, schemas[recs[id].0], fname, recs[id].1) != recs[id].1
}

/// The writes a run performs, in order: for each id whose substituted
/// fields differ, the id beside its new fields. An unchanged record is
/// never written.
pub open spec fn collect_updates(
    recs: Map<u64, (u64, Seq<Seq<char>>)>,
    schemas: Map<u64, Seq<Seq<char>>>,
    p: Seq<char>,
    rep: Seq<char>,
    fname: Option<Seq<char>>,
    ids: Seq<u64>,
) -> Seq<(u64, Seq<Seq<char>>)>
    decreases ids.len(),
{
    if ids.len() == 0 {
        Seq::empty()
    } else {
        let prev = collect_updates(recs, schemas, p, rep, fname, ids.drop_last());
        let id = ids.last();
        if record_changes(recs, schemas, p, rep, fname, id) {
            prev.push((id, record_result(p, rep, schemas[recs[id].0], fname, recs[id].1)))
        } else {
            prev
        }
    }
}

/// How many of the given records the run changes.
pub open spec fn changed_count(
    recs: Map<u64, (u64, Seq<Seq<char>>)>,
    schemas: Map<u64, Seq<Seq<char>>>,
    p: Seq<char>,
    rep: Seq<char>,
    fname: Option<Seq<char>>,
    ids: Seq<u64>,
) -> nat {
    collect_updates(recs, schemas, p, rep, fname, ids).len()
}

/// The ids a sequence of writes touches, in order.
pub open spec fn update_ids(ups: Seq<(u64, Seq<Seq<char>>)>) -> Seq<u64> {
    Seq::new(ups.len(), |i: int| ups[i].0)
}

/// Every id resolves to a stored record.
pub open spec fn all_records_present(recs: Map<u64, (u64, Seq<Seq<char>>)>, ids: Seq<u64>) -> bool {
    forall|i: int| 0 <= i < ids.len() ==> recs.contains_key(#[trigger] ids[i])
}

/// Every resolved record's schema is stored.
pub open spec fn all_schemas_present(
    recs: Map<u64, (u64, Seq<Seq<char>>)>,
    schemas: Map<u64, Seq<Seq<char>>>,
    ids: Seq<u64>,
) -> bool {
    forall|i: int|
        0 <= i < ids.len() ==> (recs.contains_key(#[trigger] ids[i]) ==> schemas.contains_key(
            recs[ids[i]].0,
        ))
}

/// The store after a sequence of writes: each write rewrites the fields of
/// a stored record and keeps its schema id; a write to an absent id does
/// nothing (a run never produces one).
pub open spec fn apply_updates_spec(
    recs: Map<u64, (u64, Seq<Seq<char>>)>,
    ups: Seq<(u64, Seq<Seq<char>>)>,
) -> Map<u64, (u64, Seq<Seq<char>>)>
    decreases ups.len(),
{
    if ups.len() == 0 {
        recs
    } else {
        let m = apply_updates_spec(recs, ups.drop_last());
        let id = ups.last().0;
        if m.contains_key(id) {
            m.insert(id, (m[id].0, ups.last().1))
        } else {
            m
        }
    }
}

/// The target ordinal as a mathematical value.
pub open spec fn ord_view(o: Option<usize>) -> Option<int> {
    match o {
        Option::Some(i) => Option::Some(i as int),
        Option::None => Option::None,
    }
}

/// Whether field `j` is targeted under the resolved ordinal: every field
/// when no ordinal was resolved, the one field at the ordinal otherwise.
pub open spec fn targeted(ord: Option<int>, j: int) -> bool {
    match ord {
        Option::None => true,
        Option::Some(o) => j == o,
    }
}

/// What the collected writes hold: ids the run found changed, each once,
/// each beside exactly the record's substituted fields.
pub proof fn lemma_collect_updates_props(
    recs: Map<u64, (u64, Seq<Seq<char>>)>,
    schemas: Map<u64, Seq<Seq<char>>>,
    p: Seq<char>,
    rep: Seq<char>,
    fname: Option<Seq<char>>,
    ids: Seq<u64>,
)
    requires
        ids.no_duplicates(),
    ensures
        ({
            let cu = collect_updates(recs, schemas, p, rep, fname, ids);
            &&& cu.len() <= ids.len()
            &&& update_ids(cu).no_duplicates()
            &&& forall|id: u64| #![trigger update_ids(cu).contains(id)]
                update_ids(cu).contains(id) <==> (ids.contains(id) && record_changes(
                    recs,
                    schemas,
                    p,
                    rep,
                    fname,
                    id,
                ))
            &&& forall|k: int|
                0 <= k < cu.len() ==> (#[trigger] cu[k]).1 == record_result(
                    p,
                    rep,
                    schemas[recs[cu[k].0].0],
                    fname,
                    recs[cu[k].0].1,
                )
        }),
    decreases ids.len(),
{
    if ids.len() > 0 {
        let front = ids.drop_last();
        assert(front.no_duplicates());
        lemma_collect_updates_props(recs, schemas, p, rep, fname, front);
        let prev = collect_updates(recs, schemas, p, rep, fname, front);
        let cu = collect_updates(recs, schemas, p, rep, fname, ids);
        let id = ids.last();
        assert(forall|x: u64| front.contains(x) ==> ids.contains(x));
        assert(!front.contains(id));
        if record_changes(recs, schemas, p, rep, fname, id) {
            assert(cu == prev.push(
                (id, record_result(p, rep, schemas[recs[id].0], fname, recs[id].1)),
            ));
            assert(update_ids(cu) =~= update_ids(prev).push(id));
            assert(!update_ids(prev).contains(id));
            assert forall|x: u64| update_ids(cu).contains(x) implies (ids.contains(x)
                && record_changes(recs, schemas, p, rep, fname, x)) by {
                let k = choose|k: int|
                    0 <= k < update_ids(cu).len() && update_ids(cu)[k] == x;
                if k < update_ids(prev).len() {
                    assert(update_ids(prev).contains(x));
                } else {
                    assert(x == id);
                    assert(ids.contains(id)) by {
                        assert(ids[ids.len() - 1] == id);
                    }
                }
            }
            assert forall|x: u64| (ids.contains(x) && record_changes(
                recs,
                schemas,
                p,
                rep,
                fname,
                x,
            )) implies update_ids(cu).contains(x) by {
                if x == id {
                    assert(update_ids(cu)[update_ids(cu).len() - 1] == id);
                } else {
                    let k = choose|k: int| 0 <= k < ids.len() && ids[k] == x;
                    assert(front[k] == x);
                    assert(front.contains(x));
                    assert(update_ids(prev).contains(x));
                    let j = choose|j: int|
                        0 <= j < update_ids(prev).len() && update_ids(prev)[j] == x;
                    assert(update_ids(cu)[j] == x);
                }
            }
        } else {
            assert(cu == prev);
            assert forall|x: u64| update_ids(cu).contains(x) implies (ids.contains(x)
                && record_changes(recs, schemas, p, rep, fname, x)) by {
                assert(update_ids(prev).contains(x));
                assert(front.contains(x) && record_changes(recs, schemas, p, rep, fname, x));
                let j = choose|j: int| 0 <= j < front.len() && front[j] == x;
                assert(ids[j] == x);
            }
            assert forall|x: u64| (ids.contains(x) && record_changes(
                recs,
                schemas,
                p,
                rep,
                fname,
                x,
            )) implies update_ids(cu).contains(x) by {
                let k = choose|k: int| 0 <= k < ids.len() && ids[k] == x;
                if k == ids.len() - 1 {
                    assert(x == id);
                    assert(!record_changes(recs, schemas, p, rep, fname, id));
                } else {
                    assert(front[k] == x);
                    assert(front.contains(x));
                }
            }
        }
    }
}

/// What a sequence of writes with distinct ids does to the store: each
/// written id holds its new fields under its old schema id, every other
/// record is untouched, and no record appears or disappears.
pub proof fn lemma_apply_updates_effect(
    recs: Map<u64, (u64, Seq<Seq<char>>)>,
    ups: Seq<(u64, Seq<Seq<char>>)>,
)
    requires
        update_ids(ups).no_duplicates(),
        forall|k: int| 0 <= k < ups.len() ==> recs.contains_key((#[trigger] ups[k]).0),
    ensures
        ({
            let m = apply_updates_spec(recs, ups);
            &&& forall|id: u64| m.contains_key(id) <==> recs.contains_key(id)
            &&& forall|id: u64|
                (!update_ids(ups).contains(id) && recs.contains_key(id)) ==> m[id] == recs[id]
            &&& forall|k: int|
                0 <= k < ups.len() ==> m[(#[trigger] ups[k]).0] == (recs[ups[k].0].0, ups[k].1)
        }),
    decreases ups.len(),
{
    if ups.len() > 0 {
        let front = ups.drop_last();
        assert(update_ids(front) =~= update_ids(ups).drop_last());
        assert(update_ids(front).no_duplicates());
        lemma_apply_updates_effect(recs, front);
        let m0 = apply_updates_spec(recs, front);
        let m = apply_updates_spec(recs, ups);
        let id = ups.last().0;
        assert(update_ids(ups)[ups.len() - 1] == id);
        assert(recs.contains_key(id));
        assert(m0.contains_key(id));
        assert(m == m0.insert(id, (m0[id].0, ups.last().1)));
        assert(!update_ids(front).contains(id)) by {
            if update_ids(front).contains(id) {
                let j = choose|j: int|
                    0 <= j < update_ids(front).len() && update_ids(front)[j] == id;
                assert(update_ids(ups)[j] == id);
            }
        }
        assert(m0[id] == recs[id]);
        assert forall|k: int| 0 <= k < ups.len() implies m[(#[trigger] ups[k]).0] == (
            recs[ups[k].0].0,
            ups[k].1,
        ) by {
            if k < ups.len() - 1 {
                assert(front[k] == ups[k]);
                assert(update_ids(front)[k] == ups[k].0);
                assert(ups[k].0 != id) by {
                    if ups[k].0 == id {
                        assert(update_ids(ups)[k] == id);
                    }
                }
                assert(m0[ups[k].0] == (recs[ups[k].0].0, ups[k].1));
            } else {
                assert(ups[k] == ups.last());
            }
        }
        assert forall|x: u64| (!update_ids(ups).contains(x) && recs.contains_key(x)) implies m[x]
            == recs[x] by {
            assert(!update_ids(front).contains(x)) by {
                if update_ids(front).contains(x) {
                    let j = choose|j: int|
                        0 <= j < update_ids(front).len() && update_ids(front)[j] == x;
                    assert(update_ids(ups)[j] == x);
                }
            }
            assert(x != id) by {
                assert(update_ids(ups)[ups.len() - 1] == id);
            }
        }
    }
}

/// Applies the substitution to the targeted fields of one record's texts,
/// returning the new texts and whether any text differs.
fn substitute_fields(ctx: &FindReplaceContext, fields: &Vec<String>, ord: Option<usize>) -> (r: (
    Vec<String>,
    bool,
))
    ensures
        r.0.deep_view() == subst_fields(
            ctx.pattern_view(),
            ctx.replacement_view(),
            fields.deep_view(),
            ord_view(ord),
        ),
        r.1 <==> r.0.deep_view() != fields.deep_view(),
{
    let ghost pv = ctx.pattern_view();
    let ghost rv = ctx.replacement_view();
    let ghost fsv = fields.deep_view();
    let ghost ov = ord_view(ord);
    let n = fields.len();
    let mut out: Vec<String> = Vec::new();
    let mut changed = false;
    let mut i: usize = 0;
    while i < n
        invariant
            i <= n,
            n == fields@.len(),
            pv == ctx.pattern_view(),
            rv == ctx.replacement_view(),
            fsv == fields.deep_view(),
            ov == ord_view(ord),
            out@.len() == i,
            forall|j: int|
                0 <= j < i ==> out.deep_view()[j] == (if targeted(ov, j) {
                    replaced(pv, rv, fsv[j])
                } else {
                    fsv[j]
                }),
            changed <==> exists|j: int|
                0 <= j < i && targeted(ov, j) && replaced(pv, rv, fsv[j]) != fsv[j],
        decreases n - i,
    {
        let hit = match ord {
            Some(o) => i == o,
            None => true,
        };
        proof {
            assert(hit == targeted(ov, i as int));
            assert(fsv[i as int] == fields@[i as int]@);
        }
        if hit {
            let (new_text, ch) = ctx.apply(fields[i].as_str());
            let ghost pre = out.deep_view();
            out.push(new_text);
            proof {
                assert(out.deep_view() =~= pre.push(replaced(pv, rv, fsv[i as int])));
                if ch {
                    let ghost j0 = i as int;
                    assert(targeted(ov, j0) && replaced(pv, rv, fsv[j0]) != fsv[j0]);
                }
            }
            changed = changed || ch;
        } else {
            let copied = fields[i].clone();
            let ghost pre = out.deep_view();
            out.push(copied);
            proof {
                assert(out.deep_view() =~= pre.push(fsv[i as int]));
            }
        }
        i = i + 1;
    }
    let ghost outv = out.deep_view();
    let ghost want = subst_fields(pv, rv, fsv, ov);
    proof {
        assert(want.len() == fsv.len());
        assert forall|j: int| 0 <= j < n implies want[j] == (if targeted(ov, j) {
            replaced(pv, rv, fsv[j])
        } else {
            fsv[j]
        }) by {
            match ov {
                Option::None => {},
                Option::Some(o) => {},
            }
        }
        assert(outv =~= want);
        if changed {
            let j = choose|j: int|
                0 <= j < n && targeted(ov, j) && replaced(pv, rv, fsv[j]) != fsv[j];
            assert(outv[j] != fsv[j]);
            if outv == fsv {
                assert(outv[j] == fsv[j]);
            }
        } else {
            assert forall|j: int| 0 <= j < n implies outv[j] == fsv[j] by {}
            assert(outv =~= fsv);
        }
    }
    (out, changed)
}

impl Collection {
    /// Resolves each record id to its (schema id, record id) pair, in input
    /// order, failing on the first id the store does not hold.
    fn resolve_pairs(&self, nids: &Vec<u64>) -> (r: Result<Vec<(u64, u64)>, FindReplaceError>)
        ensures
            match r {
                Result::Ok(pairs) => {
                    &&& pairs.deep_view().len() == nids@.len()
                    &&& forall|t: int|
                        0 <= t < nids@.len() ==> {
                            &&& (#[trigger] pairs.deep_view()[t]).1 == nids@[t]
                            &&& self.records_view().contains_key(nids@[t])
                            &&& pairs.deep_view()[t].0 == self.records_view()[nids@[t]].0
                        }
                },
                Result::Err(e) => {
                    &&& e == FindReplaceError::MissingRecord
                    &&& !all_records_present(self.records_view(), nids@)
                },
            },
    {
        let n = nids.len();
        let mut pairs: Vec<(u64, u64)> = Vec::new();
        let mut i: usize = 0;
        while i < n
            invariant
                i <= n,
                n == nids@.len(),
                pairs@.len() == i,
                forall|t: int|
                    0 <= t < i ==> {
                        &&& (#[trigger] pairs@[t]).1 == nids@[t]
                        &&& self.records_view().contains_key(nids@[t])
                        &&& pairs@[t].0 == self.records_view()[nids@[t]].0
                    },
            decreases n - i,
        {
            let id = nids[i];
            match self.record_entry(id) {
                Some(p) => {
                    let sid = p.0;
                    pairs.push((sid, id));
                },
                None => {
                    proof {
                        assert(!self.records_view().contains_key(nids@[i as int]));
                    }
                    return Err(FindReplaceError::MissingRecord);
                },
            }
            i = i + 1;
        }
        proof {
            assert(pairs.deep_view() =~= pairs@);
        }
        Ok(pairs)
    }

    /// Performs the collected writes: each rewrites one record's fields in
    /// place, keeping its schema id.
    pub(crate) fn apply_updates(&mut self, updates: Vec<(u64, Vec<String>)>)
        requires
            forall|k: int|
                0 <= k < updates@.len() ==> old(self).records_view().contains_key(
                    (#[trigger] updates@[k]).0,
                ),
        ensures
            final(self).schemas_view() == old(self).schemas_view(),
            final(self).records_view() == apply_updates_spec(
                old(self).records_view(),
                updates.deep_view(),
            ),
    {
        let ghost ups = updates.deep_view();
        let n = updates.len();
        let mut k: usize = 0;
        while k < n
            invariant
                k <= n,
                n == updates@.len(),
                ups == updates.deep_view(),
                forall|j: int|
                    0 <= j < updates@.len() ==> old(self).records_view().contains_key(
                        (#[trigger] updates@[j]).0,
                    ),
                forall|id: u64|
                    self.records_view().contains_key(id) == old(self).records_view().contains_key(
                        id,
                    ),
                self.schemas_view() == old(self).schemas_view(),
                self.records_view() == apply_updates_spec(
                    old(self).records_view(),
                    ups.take(k as int),
                ),
            decreases n - k,
        {
            let ghost pre = self.records_view();
            let (id, fields) = {
                let pair = &updates[k];
                (pair.0, pair.1.clone())
            };
            proof {
                assert(ups[k as int].0 == id);
                assert(ups[k as int].1 == fields.deep_view()) by {
                    broadcast use vstd::std_specs::vec::vec_clone_deep_view_proof;

                    assert(vstd::std_specs::vec::vec_clone_trigger(updates@[k as int].1, fields));
                    assert(updates@[k as int].1.deep_view() == ups[k as int].1);
                }
            }
            self.set_record_fields(id, fields);
            proof {
                let t1 = ups.take(k as int + 1);
                assert(t1.drop_last() =~= ups.take(k as int));
                assert(t1.last() == ups[k as int]);
                assert(apply_updates_spec(old(self).records_view(), t1) == pre.insert(
                    id,
                    (pre[id].0, ups[k as int].1),
                ));
            }
            k = k + 1;
        }
        proof {
            assert(ups.take(n as int) =~= ups);
        }
    }

    /// Runs one batch substitution over the records named by the context,
    /// returning how many records actually changed.
    ///
    /// Records are grouped by schema; per group the target field ordinal is
    /// resolved once, falling back to every field when the named field is
    /// absent from that schema. A record whose substituted fields differ is
    /// written exactly once; an unchanged record is never written. A stale
    /// record or schema id aborts the whole run with no effect on the store.
    pub fn find_and_replace(&mut self, ctx: FindReplaceContext) -> (r: Result<
        u32,
        FindReplaceError,
    >)
        requires
            ctx.ids_view().no_duplicates(),
            ctx.ids_view().len() <= u32::MAX,
        ensures
            final(self).schemas_view() == old(self).schemas_view(),
            r is Err ==> final(self).records_view() == old(self).records_view(),
            r is Ok <==> (all_records_present(old(self).records_view(), ctx.ids_view())
                && all_schemas_present(
                old(self).records_view(),
                old(self).schemas_view(),
                ctx.ids_view(),
            )),
            (r == Result::<u32, FindReplaceError>::Err(FindReplaceError::MissingRecord))
                <==> !all_records_present(old(self).records_view(), ctx.ids_view()),
            (r == Result::<u32, FindReplaceError>::Err(FindReplaceError::MissingSchema)) <==> (
            all_records_present(old(self).records_view(), ctx.ids_view())
                && !all_schemas_present(
                old(self).records_view(),
                old(self).schemas_view(),
                ctx.ids_view(),
            )),
            r matches Ok(n) ==> {
                &&& n as nat == changed_count(
                    old(self).records_view(),
                    old(self).schemas_view(),
                    ctx.pattern_view(),
                    ctx.replacement_view(),
                    ctx.target_view(),
                    ctx.ids_view(),
                )
                &&& forall|id: u64|
                    final(self).records_view().contains_key(id) == old(
                        self,
                    ).records_view().contains_key(id)
                &&& forall|id: u64|
                    (old(self).records_view().contains_key(id) && !ctx.ids_view().contains(id))
                        ==> final(self).records_view()[id] == old(self).records_view()[id]
                &&& forall|id: u64|
                    #![trigger ctx.ids_view().contains(id)]
                    ctx.ids_view().contains(id) ==> {
                        let pre = old(self).records_view()[id];
                        &&& final(self).records_view()[id].0 == pre.0
                        &&& final(self).records_view()[id].1 == record_result(
                            ctx.pattern_view(),
                            ctx.replacement_view(),
                            old(self).schemas_view()[pre.0],
                            ctx.target_view(),
                            pre.1,
                        )
                    }
            },
    {
        let ghost recs0 = old(self).records_view();
        let ghost schemas0 = old(self).schemas_view();
        let ghost idsv = ctx.ids_view();
        let ghost pv = ctx.pattern_view();
        let ghost rv = ctx.replacement_view();
        let ghost fnv = ctx.target_view();
        let pairs = match self.resolve_pairs(ctx.record_ids()) {
            Ok(p) => p,
            Err(e) => {
                return Err(e);
            },
        };
        let ghost pairs_v = pairs.deep_view();
        proof {
            assert(pairs_v.len() == idsv.len());
        }
        let groups = group_pairs(pairs);
        let ghost gv = groups.deep_view();
        let mut updates: Vec<(u64, Vec<String>)> = Vec::new();
        let mut total: u32 = 0;
        let ghost mut n_done: int = 0;
        let n_groups = groups.len();
        let mut g: usize = 0;
        proof {
            assert(gv.skip(0) =~= gv);
            assert(pairs_v.skip(0) =~= pairs_v);
            assert(idsv.take(0) =~= Seq::<u64>::empty());
            assert(updates.deep_view() =~= Seq::<(u64, Seq<Seq<char>>)>::empty());
        }
        while g < n_groups
            invariant
                g <= n_groups,
                n_groups == groups@.len(),
                gv == groups.deep_view(),
                pv == ctx.pattern_view(),
                rv == ctx.replacement_view(),
                fnv == ctx.target_view(),
                idsv == ctx.ids_view(),
                idsv.no_duplicates(),
                idsv.len() <= u32::MAX,
                recs0 == old(self).records_view(),
                schemas0 == old(self).schemas_view(),
                self.records_view() == recs0,
                self.schemas_view() == schemas0,
                pairs_v.len() == idsv.len(),
                forall|t: int|
                    0 <= t < idsv.len() ==> {
                        &&& (#[trigger] pairs_v[t]).1 == idsv[t]
                        &&& recs0.contains_key(idsv[t])
                        &&& pairs_v[t].0 == recs0[idsv[t]].0
                    },
                0 <= n_done <= pairs_v.len(),
                flatten_groups(gv.skip(g as int)) == pairs_v.skip(n_done),
                forall|t: int| 0 <= t < n_done ==> schemas0.contains_key((#[trigger] pairs_v[t]).0),
                updates.deep_view() == collect_updates(
                    recs0,
                    schemas0,
                    pv,
                    rv,
                    fnv,
                    idsv.take(n_done),
                ),
                total as int == updates@.len(),
                total as int <= n_done,
            decreases n_groups - g,
        {
            let gkey = groups[g].0;
            let rids = &groups[g].1;
            let n_r = rids.len();
            proof {
                assert(gv[g as int] == groups@[g as int].deep_view());
                assert(gv[g as int].0 == gkey);
                assert(gv[g as int].1 == rids.deep_view());
                assert(rids.deep_view() =~= rids@);
            }
            if n_r > 0 {
                proof {
                    let tail = gv.skip(g as int);
                    assert(tail[0] == gv[g as int]);
                    assert(tail.drop_first() =~= gv.skip(g as int + 1));
                    assert(flatten_groups(tail) == keyed(gkey, rids@) + flatten_groups(
                        gv.skip(g as int + 1),
                    ));
                    assert(keyed(gkey, rids@).len() == n_r);
                    assert(keyed(gkey, rids@)[0] == (gkey, rids@[0]));
                    assert(pairs_v.skip(n_done).len() == pairs_v.len() - n_done);
                    assert(n_done < pairs_v.len());
                    assert(pairs_v.skip(n_done)[0] == pairs_v[0 + n_done]);
                    assert(pairs_v[n_done] == (gkey, rids@[0]));
                    assert((pairs_v[n_done]).1 == idsv[n_done]);
                    assert(idsv[n_done] == rids@[0]);
                    assert(recs0.contains_key(idsv[n_done]));
                    assert(recs0[idsv[n_done]].0 == gkey);
                }
                let schema = match self.get_schema(gkey) {
                    Some(s) => s,
                    None => {
                        proof {
                            assert forall|t: int| 0 <= t < idsv.len() implies recs0.contains_key(
                                #[trigger] idsv[t],
                            ) by {
                                assert((pairs_v[t]).1 == idsv[t]);
                            }
                            assert(all_records_present(recs0, idsv));
                            assert(!all_schemas_present(recs0, schemas0, idsv)) by {
                                assert(recs0.contains_key(idsv[n_done])
                                    && !schemas0.contains_key(recs0[idsv[n_done]].0));
                            }
                        }
                        return Err(FindReplaceError::MissingSchema);
                    },
                };
                let field_ord: Option<usize> = match ctx.target_field() {
                    Some(name) => schema.field_ord(name),
                    None => None,
                };
                proof {
                    assert(schema.fields_view() == schemas0[gkey]);
                    assert(ord_view(field_ord) == resolved_ord(schemas0[gkey], fnv));
                }
                let mut i: usize = 0;
                while i < n_r
                    invariant
                        i <= n_r,
                        g < n_groups,
                        n_groups == groups@.len(),
                        gv == groups.deep_view(),
                        pv == ctx.pattern_view(),
                        rv == ctx.replacement_view(),
                        fnv == ctx.target_view(),
                        idsv == ctx.ids_view(),
                        idsv.no_duplicates(),
                        idsv.len() <= u32::MAX,
                        recs0 == old(self).records_view(),
                        schemas0 == old(self).schemas_view(),
                        self.records_view() == recs0,
                        self.schemas_view() == schemas0,
                        pairs_v.len() == idsv.len(),
                        forall|t: int|
                            0 <= t < idsv.len() ==> {
                                &&& (#[trigger] pairs_v[t]).1 == idsv[t]
                                &&& recs0.contains_key(idsv[t])
                                &&& pairs_v[t].0 == recs0[idsv[t]].0
                            },
                        0 <= n_done <= pairs_v.len(),
                        n_r == rids@.len(),
                        keyed(gkey, rids@.skip(i as int)) + flatten_groups(gv.skip(g as int + 1))
                            == pairs_v.skip(n_done),
                        schemas0.contains_key(gkey),
                        ord_view(field_ord) == resolved_ord(schemas0[gkey], fnv),
                        forall|t: int|
                            0 <= t < n_done ==> schemas0.contains_key((#[trigger] pairs_v[t]).0),
                        updates.deep_view() == collect_updates(
                            recs0,
                            schemas0,
                            pv,
                            rv,
                            fnv,
                            idsv.take(n_done),
                        ),
                        total as int == updates@.len(),
                        total as int <= n_done,
                    decreases n_r - i,
                {
                    let rid = rids[i];
                    proof {
                        let tl = rids@.skip(i as int);
                        assert(tl[0] == rids@[i as int]);
                        assert(keyed(gkey, tl).len() == n_r - i);
                        assert(keyed(gkey, tl)[0] == (gkey, rid));
                        assert((keyed(gkey, tl) + flatten_groups(gv.skip(g as int + 1)))[0]
                            == keyed(gkey, tl)[0]);
                        assert(pairs_v.skip(n_done).len() == pairs_v.len() - n_done);
                        assert(n_done < pairs_v.len());
                        assert(pairs_v.skip(n_done)[0] == pairs_v[0 + n_done]);
                        assert(pairs_v[n_done] == (gkey, rid));
                        assert((pairs_v[n_done]).1 == idsv[n_done]);
                        assert(idsv[n_done] == rid);
                        assert(recs0.contains_key(rid));
                        assert(recs0[rid].0 == gkey);
                        assert(n_done < idsv.len());
                    }
                    let entry = match self.record_entry(rid) {
                        Some(p) => p,
                        None => {
                            return Err(FindReplaceError::MissingRecord);
                        },
                    };
                    let (new_fields, changed) = substitute_fields(&ctx, &entry.1.fields, field_ord);
                    let ghost nfv = new_fields.deep_view();
                    proof {
                        assert(entry.1.fields.deep_view() == entry.1@);
                        assert(entry.1@ == recs0[rid].1);
                        assert(nfv == record_result(pv, rv, schemas0[gkey], fnv, recs0[rid].1));
                        assert(changed == record_changes(recs0, schemas0, pv, rv, fnv, rid));
                    }
                    let ghost pre_updates = updates.deep_view();
                    if changed {
                        updates.push((rid, new_fields));
                        total = total + 1;
                    }
                    proof {
                        let t1 = idsv.take(n_done + 1);
                        assert(t1.drop_last() =~= idsv.take(n_done));
                        assert(t1.last() == idsv[n_done]);
                        if changed {
                            assert(updates.deep_view() =~= pre_updates.push((rid, nfv)));
                            assert(collect_updates(recs0, schemas0, pv, rv, fnv, t1)
                                == pre_updates.push(
                                (rid, record_result(pv, rv, schemas0[recs0[rid].0], fnv, recs0[rid].1)),
                            ));
                        } else {
                            assert(collect_updates(recs0, schemas0, pv, rv, fnv, t1)
                                == pre_updates);
                        }
                        let tl = rids@.skip(i as int);
                        assert(keyed(gkey, tl).drop_first() =~= keyed(
                            gkey,
                            rids@.skip(i as int + 1),
                        ));
                        assert((keyed(gkey, tl) + flatten_groups(gv.skip(g as int + 1))).drop_first()
                            =~= keyed(gkey, tl).drop_first() + flatten_groups(
                            gv.skip(g as int + 1),
                        ));
                        assert(pairs_v.skip(n_done).drop_first() =~= pairs_v.skip(n_done + 1));
                        n_done = n_done + 1;
                    }
                    i = i + 1;
                }
                proof {
                    assert(rids@.skip(n_r as int) =~= Seq::<u64>::empty());
                    assert(keyed(gkey, Seq::<u64>::empty()) =~= Seq::<(u64, u64)>::empty());
                    assert(Seq::<(u64, u64)>::empty() + flatten_groups(gv.skip(g as int + 1))
                        =~= flatten_groups(gv.skip(g as int + 1)));
                }
            } else {
                proof {
                    let tail = gv.skip(g as int);
                    assert(tail[0] == gv[g as int]);
                    assert(tail.drop_first() =~= gv.skip(g as int + 1));
                    assert(flatten_groups(tail) == keyed(gkey, rids@) + flatten_groups(
                        gv.skip(g as int + 1),
                    ));
                    assert(keyed(gkey, rids@) =~= Seq::<(u64, u64)>::empty());
                    assert(Seq::<(u64, u64)>::empty() + flatten_groups(gv.skip(g as int + 1))
                        =~= flatten_groups(gv.skip(g as int + 1)));
                }
            }
            g = g + 1;
        }
        let ghost upsv = updates.deep_view();
        proof {
            assert(gv.skip(n_groups as int) =~= Seq::<(u64, Seq<u64>)>::empty());
            assert(flatten_groups(Seq::<(u64, Seq<u64>)>::empty()) =~= Seq::<(u64, u64)>::empty());
            assert(pairs_v.skip(n_done).len() == 0);
            assert(n_done == pairs_v.len());
            assert(idsv.take(n_done) =~= idsv);
            assert forall|t: int| 0 <= t < idsv.len() implies recs0.contains_key(
                #[trigger] idsv[t],
            ) by {
                assert((pairs_v[t]).1 == idsv[t]);
            }
            assert(all_records_present(recs0, idsv));
            assert(all_schemas_present(recs0, schemas0, idsv)) by {
                assert(forall|t: int|
                    0 <= t < idsv.len() ==> schemas0.contains_key((#[trigger] pairs_v[t]).0));
                assert forall|t: int| 0 <= t < idsv.len() implies (recs0.contains_key(
                    #[trigger] idsv[t],
                ) ==> schemas0.contains_key(recs0[idsv[t]].0)) by {
                    assert(pairs_v[t].0 == recs0[idsv[t]].0);
                }
            }
            lemma_collect_updates_props(recs0, schemas0, pv, rv, fnv, idsv);
            assert forall|k: int| 0 <= k < upsv.len() implies recs0.contains_key(
                (#[trigger] upsv[k]).0,
            ) by {
                assert(update_ids(upsv)[k] == upsv[k].0);
                assert(update_ids(upsv).contains(upsv[k].0));
                assert(idsv.contains(upsv[k].0));
                let t = choose|t: int| 0 <= t < idsv.len() && idsv[t] == upsv[k].0;
                assert(recs0.contains_key(idsv[t]));
            }
            assert(forall|k: int|
                0 <= k < updates@.len() ==> recs0.contains_key((#[trigger] updates@[k]).0)) by {
                assert(forall|k: int|
                    0 <= k < updates@.len() ==> (#[trigger] updates@[k]).0 == upsv[k].0);
            }
        }
        self.apply_updates(updates);
        proof {
            lemma_apply_updates_effect(recs0, upsv);
            let m = apply_updates_spec(recs0, upsv);
            assert(self.records_view() == m);
            assert forall|id: u64|
                (recs0.contains_key(id) && !idsv.contains(id)) implies m[id] == recs0[id] by {
                if update_ids(upsv).contains(id) {
                    assert(idsv.contains(id));
                }
            }
            assert forall|id: u64| #![trigger idsv.contains(id)] idsv.contains(id) implies {
                let pre = recs0[id];
                &&& m[id].0 == pre.0
                &&& m[id].1 == record_result(pv, rv, schemas0[pre.0], fnv, pre.1)
            } by {
                let t = choose|t: int| 0 <= t < idsv.len() && idsv[t] == id;
                assert(recs0.contains_key(id));
                if record_changes(recs0, schemas0, pv, rv, fnv, id) {
                    assert(update_ids(upsv).contains(id));
                    let k = choose|k: int|
                        0 <= k < update_ids(upsv).len() && update_ids(upsv)[k] == id;
                    assert(upsv[k].0 == id);
                    assert(m[upsv[k].0] == (recs0[upsv[k].0].0, upsv[k].1));
                    assert(upsv[k].1 == record_result(
                        pv,
                        rv,
                        schemas0[recs0[id].0],
                        fnv,
                        recs0[id].1,
                    ));
                } else {
                    assert(!update_ids(upsv).contains(id));
                    assert(m[id] == recs0[id]);
                    assert(record_result(pv, rv, schemas0[recs0[id].0], fnv, recs0[id].1)
                        == recs0[id].1);
                }
            }
        }
        Ok(total)
    }
}

} // verus!
